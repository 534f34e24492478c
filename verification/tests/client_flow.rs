//! Client-side tests, and the color pipeline end to end.

use pinguino::app::send::{SendEndingBytesware, SendMiddleware, SendStartingBytesware};
use pinguino::client::wares::bind::DefaultBind;
use pinguino::client::wares::handshake::DefaultHandshake;
use pinguino::client::wares::send::DefaultSend;
use pinguino::client::wares::terminate::DefaultTerminate;
use pinguino::client::ClientError;
use pinguino::logging::{DbConfig, Elapsed, ErrorType, Message, Problem, Stat};
use pinguino::request::{Method, RawRequest, Request};
use pinguino::response::{string_to_bytes, Response, ResponseCode};
use pinguino::router::app::App;
use pinguino::router::{handle_request, RouteRes};
use pinguino::timestamp::Timestamp;
use pinguino::varmap::{Attachment, AttachmentKey, Varmap};

fn addr() -> String {
    "127.0.0.1:9000".to_string()
}

fn ts() -> Timestamp {
    Timestamp { year: 2024, month: 5, day: 6, hour: 7, minute: 8, second: 9 }
}

#[test]
fn bind_request_text_is_the_wire_form() {
    let text = DefaultBind.request_text(&"Alice".to_string()).unwrap();
    assert_eq!(text, "<CHAT \\ 1.0>\n<Method@Bind>\n<Name@Alice>");
    assert!(matches!(
        DefaultBind.request_text(&"no spaces".to_string()),
        Err(ClientError::ParseError(_))
    ));
}

#[test]
fn client_and_server_agree_on_a_session() {
    let mut app = App::new(Varmap::new());
    let mut conn = Varmap::new();

    // Bind with the client-built text.
    let text = DefaultBind.request_text(&"Jeff".to_string()).unwrap();
    let res = handle_request(&mut app, &mut conn, string_to_bytes(text), addr(), false);
    let reply = match res {
        RouteRes::Bind(Ok(f)) => Response::from_bytes(&f).unwrap(),
        _ => panic!("bind refused"),
    };
    let token = DefaultBind.extract_token(reply).unwrap();
    assert_eq!(token.len(), 36);

    // Handshake with the client-built frame.
    let frame = DefaultHandshake.request_frame(&token).unwrap();
    let res = handle_request(&mut app, &mut conn, frame, addr(), false);
    let reply = match res {
        RouteRes::Handshake(Ok(f)) => Response::from_bytes(&f).unwrap(),
        _ => panic!("handshake refused"),
    };
    assert!(DefaultHandshake.accepted(&reply));

    // Send with the client-built frame.
    let frame = DefaultSend.request_frame(&"hi there\n".to_string()).unwrap();
    let req = Request::from_raw_request(RawRequest { bytes: frame, addr: addr() }).unwrap();
    assert_eq!(req.method, Method::Send);
    assert_eq!(req.value, "hi there");
}

#[test]
fn handshake_rejects_unknown_token_reply() {
    let reply = pinguino::response::code_only_response(ResponseCode::Unauthorized);
    assert!(!DefaultHandshake.accepted(&reply));
}

#[test]
fn missing_token_in_bind_reply() {
    let reply = pinguino::response::code_only_response(ResponseCode::AuthOK);
    assert!(matches!(
        DefaultBind.extract_token(reply),
        Err(ClientError::MissingToken)
    ));
}

#[test]
fn terminate_decisions() {
    let t = DefaultTerminate;
    assert!(t.decide(true, false).is_ok());
    assert!(matches!(t.decide(false, false), Err(ClientError::NoActiveHandle)));
    assert!(matches!(t.decide(true, true), Err(ClientError::AlreadyFinished)));
}

#[test]
fn color_pipeline_round_trip() {
    // A send frame whose tail carries the color mark.
    let mut bytes = string_to_bytes("<CHAT \\ 1.0>\n<Method@Send>\n<Message@'hi'>".to_string());
    bytes[507] = 0x23;
    bytes[508] = 0xFF;
    bytes[509] = 0x00;
    bytes[510] = 0x00;
    bytes[511] = 0x23;

    let req = SendStartingBytesware
        .bytesware(RawRequest { bytes, addr: addr() }, 1000)
        .unwrap();
    assert_eq!(req.value, "hi");
    match req.varmap.get(AttachmentKey::Color) {
        Some(Attachment::Color(c)) => assert_eq!((c.red, c.green, c.blue), (0xFF, 0, 0)),
        _ => panic!("the color mark should be attached"),
    }

    let mut conn = Varmap::new();
    conn.insert(Attachment::UserName("Jeff".to_string()));
    conn.insert(Attachment::TaskId(7));
    let now = ts();
    let (outcome, event) = SendMiddleware.middleware(&req, &conn, &now, 250);
    match event {
        Some(Message::Elapsed(tid, when, micros)) => {
            assert_eq!(tid, 7);
            assert_eq!(when, now);
            assert_eq!(micros, 250);
        }
        _ => panic!("a timing event should be emitted"),
    }
    let frame = match SendEndingBytesware.bytesware(outcome) {
        Ok(f) => f,
        Err(_) => panic!("the reply should serialize"),
    };
    // The reply carries the same five tail bytes...
    assert_eq!(&frame[507..512], &[0x23, 0xFF, 0x00, 0x00, 0x23]);
    // ...and still parses once the mark is stripped again.
    let mut reply_bytes = frame;
    pinguino::color::fill_bytes(&mut reply_bytes).unwrap();
    let reply = Response::from_bytes(&reply_bytes).unwrap();
    assert_eq!(reply.code, ResponseCode::OK);
    assert_eq!(reply.user.as_deref(), Some("Jeff"));
    assert_eq!(reply.message.as_deref(), Some("hi"));
    assert_eq!(reply.time, Some(ts()));
    assert!(reply.custom.is_none());
}

#[test]
fn streaming_send_composition_stamps_and_reports() {
    // The whole color-aware streaming path in one verified call: the
    // mark comes off before parsing, the reply carries it back, and the
    // timing event names the task and the elapsed reading.
    let mut bytes = string_to_bytes("<CHAT \\ 1.0>\n<Method@Send>\n<Message@'hey'>".to_string());
    bytes[507] = 0x23;
    bytes[508] = 0x12;
    bytes[509] = 0x34;
    bytes[510] = 0x56;
    bytes[511] = 0x23;

    let mut conn = Varmap::new();
    conn.insert(Attachment::UserName("Jeff".to_string()));
    conn.insert(Attachment::TaskId(11));
    let (res, event) = pinguino::app::send::handle_streaming_send(&conn, bytes, addr(), 100, 350);
    match event {
        Some(Message::Elapsed(tid, _, micros)) => {
            assert_eq!(tid, 11);
            assert_eq!(micros, 250);
        }
        _ => panic!("a timing event should be emitted"),
    }
    let frame = match res {
        pinguino::router::RouteRes::Send(Ok(f)) => f,
        _ => panic!("the send should be published"),
    };
    assert_eq!(&frame[507..512], &[0x23, 0x12, 0x34, 0x56, 0x23]);
    let mut reply_bytes = frame;
    pinguino::color::fill_bytes(&mut reply_bytes).unwrap();
    let reply = Response::from_bytes(&reply_bytes).unwrap();
    assert_eq!(reply.code, ResponseCode::OK);
    assert_eq!(reply.user.as_deref(), Some("Jeff"));
    assert_eq!(reply.message.as_deref(), Some("hey"));
}

#[test]
fn streaming_send_composition_refuses_other_methods() {
    let conn = Varmap::new();
    let bytes = string_to_bytes("<CHAT \\ 1.0>\n<Method@Bind>\n<Name@Eve>".to_string());
    let (res, event) = pinguino::app::send::handle_streaming_send(&conn, bytes, addr(), 0, 0);
    assert!(event.is_none());
    match res {
        pinguino::router::RouteRes::Unclassified(Err(f)) => {
            assert_eq!(Response::from_bytes(&f).unwrap().code, ResponseCode::Error);
        }
        _ => panic!("non-send methods must be refused while streaming"),
    }
}

#[test]
fn send_middleware_without_name_fails() {
    let req = Request::parse(
        "<CHAT \\ 1.0>\n<Method@Send>\n<Message@'hi'>",
        addr(),
    )
    .unwrap();
    let conn = Varmap::new();
    let now = ts();
    let (outcome, event) = SendMiddleware.middleware(&req, &conn, &now, 1);
    assert!(event.is_none());
    match outcome {
        Err(resp) => assert_eq!(resp.code, ResponseCode::InvalidName),
        Ok(_) => panic!("a send without a negotiated name must fail"),
    }
}

#[test]
fn telemetry_rows_from_events() {
    let now = ts();
    let row = Elapsed::from_enum(Message::Elapsed(3, now, 42)).unwrap();
    assert_eq!(row.task_id, 3);
    assert_eq!(row.latency, 42);
    assert_eq!(row.id.len(), 36);
    assert!(Elapsed::from_enum(Message::Info(now, 1, 2)).is_err());

    let row = Problem::from_enum(Message::Error(4, now, ErrorType::Lagged)).unwrap();
    assert_eq!(row.task_id, 4);
    assert_eq!(row.message, "Lagged");
    assert!(Problem::from_enum(Message::Info(now, 1, 2)).is_err());

    let row = Stat::from_enum(Message::Info(now, 100, 200)).unwrap();
    assert_eq!(row.ram, 100);
    assert_eq!(row.ram_total, 200);
    assert!(Stat::from_enum(Message::Elapsed(1, now, 2)).is_err());
}

#[test]
fn db_config_defaults() {
    let c = DbConfig::default();
    assert_eq!(c.url, "http://127.0.0.1:8123");
    assert_eq!(c.database, None);
    assert_eq!(c.username.as_deref(), Some("tapock"));
    assert_eq!(c.password.as_deref(), Some("password"));
}

#[test]
fn varmap_slots_are_exact() {
    let mut vm = Varmap::new();
    assert!(vm.get(AttachmentKey::UserName).is_none());
    vm.insert(Attachment::UserName("Jeff".to_string()));
    vm.insert(Attachment::TaskId(9));
    match vm.get(AttachmentKey::UserName) {
        Some(Attachment::UserName(s)) => assert_eq!(s, "Jeff"),
        _ => panic!("the name slot should hold the name"),
    }
    vm.remove(AttachmentKey::UserName);
    assert!(vm.get(AttachmentKey::UserName).is_none());
    match vm.get(AttachmentKey::TaskId) {
        Some(Attachment::TaskId(t)) => assert_eq!(t, 9),
        _ => panic!("removal must not disturb other slots"),
    }
}
