//! Server-side flow tests: registration, the pipeline, and the
//! connection state machine, driven frame by frame.

use pinguino::response::{string_to_bytes, Response, ResponseCode};
use pinguino::router::app::App;
use pinguino::router::{
    broadcast_step, handle_request, handle_streaming_request, initial_step, subscribed_step,
    BroadcastEvent, ConnAction, ConnPhase, RouteRes,
};
use pinguino::varmap::{AttachmentKey, Varmap};
use pinguino::wares::ConnectionCount;

fn frame_of(text: &str) -> [u8; 512] {
    string_to_bytes(text.to_string())
}

fn addr() -> String {
    "127.0.0.1:9000".to_string()
}

#[test]
fn register_returns_uuid_text_token() {
    let mut app = App::new(Varmap::new());
    let token = app.register("Jeff".to_string()).unwrap();
    assert_eq!(token.len(), 36);
    assert_eq!(app.auth.get(&token).unwrap().as_str(), "Jeff");
    assert_eq!(app.names.get(&"Jeff".to_string()).unwrap().as_str(), token.as_str());
}

#[test]
fn register_with_token_is_exact() {
    let mut app = App::new(Varmap::new());
    assert!(app
        .register_with_token("A".to_string(), "tok1".to_string())
        .is_ok());
    // The same token may not serve a second name, nor the same name a
    // second token.
    assert!(app
        .register_with_token("B".to_string(), "tok1".to_string())
        .is_err());
    assert!(app
        .register_with_token("A".to_string(), "tok2".to_string())
        .is_err());
    assert!(app
        .register_with_token("B".to_string(), "tok2".to_string())
        .is_ok());
    assert_eq!(app.auth.get(&"tok2".to_string()).unwrap().as_str(), "B");
}

#[test]
fn second_bind_of_same_name_is_refused() {
    let mut app = App::new(Varmap::new());
    let first = app.register("Alice".to_string());
    let second = app.register("Alice".to_string());
    assert!(first.is_ok());
    assert!(second.is_err());
}

#[test]
fn bind_scenario_returns_authok_with_token() {
    let mut app = App::new(Varmap::new());
    let mut conn = Varmap::new();
    let res = handle_request(
        &mut app,
        &mut conn,
        frame_of("<CHAT \\ 1.0>\n<Method@Bind>\n<Name@Alice>"),
        addr(),
        false,
    );
    let frame = match res {
        RouteRes::Bind(Ok(f)) => f,
        _ => panic!("expected a successful bind route"),
    };
    let reply = Response::from_bytes(&frame).unwrap();
    assert_eq!(reply.code, ResponseCode::AuthOK);
    assert_eq!(reply.token.as_ref().unwrap().len(), 36);
}

#[test]
fn duplicate_bind_scenario_yields_already_taken() {
    let mut app = App::new(Varmap::new());
    let mut conn1 = Varmap::new();
    let mut conn2 = Varmap::new();
    let bind = frame_of("<CHAT \\ 1.0>\n<Method@Bind>\n<Name@Alice>");
    let first = handle_request(&mut app, &mut conn1, bind, addr(), false);
    let second = handle_request(&mut app, &mut conn2, bind, addr(), false);
    match first {
        RouteRes::Bind(Ok(f)) => {
            assert_eq!(Response::from_bytes(&f).unwrap().code, ResponseCode::AuthOK);
        }
        _ => panic!("first bind should succeed"),
    }
    match second {
        RouteRes::Bind(Err(f)) => {
            assert_eq!(
                Response::from_bytes(&f).unwrap().code,
                ResponseCode::AlreadyTaken
            );
        }
        _ => panic!("second bind should be refused"),
    }
}

#[test]
fn send_without_handshake_is_unauthorized_and_closes() {
    let mut app = App::new(Varmap::new());
    let mut conn = Varmap::new();
    let res = handle_request(
        &mut app,
        &mut conn,
        frame_of("<CHAT \\ 1.0>\n<Method@Send>\n<Message@'hi'>"),
        addr(),
        false,
    );
    let frame = match &res {
        RouteRes::Send(Err(f)) => *f,
        _ => panic!("expected an unauthorized send"),
    };
    assert_eq!(
        Response::from_bytes(&frame).unwrap().code,
        ResponseCode::Unauthorized
    );
    let (action, phase) = initial_step(res);
    assert!(matches!(action, ConnAction::ReplyAndClose(_)));
    assert_eq!(phase, ConnPhase::Closed);
}

#[test]
fn parse_failure_scenario_yields_invalid_header_and_closes() {
    let mut app = App::new(Varmap::new());
    let mut conn = Varmap::new();
    let res = handle_request(
        &mut app,
        &mut conn,
        frame_of("<CHAT \\ 1.0>\n<Wrong@Send>\n<Message@'x'>"),
        addr(),
        false,
    );
    let frame = match &res {
        RouteRes::Unclassified(Err(f)) => *f,
        _ => panic!("expected an unclassified failure"),
    };
    assert_eq!(
        Response::from_bytes(&frame).unwrap().code,
        ResponseCode::InvalidHeader
    );
    let (action, phase) = initial_step(res);
    assert!(matches!(action, ConnAction::ReplyAndClose(_)));
    assert_eq!(phase, ConnPhase::Closed);
}

#[test]
fn bind_handshake_send_happy_path() {
    let mut app = App::new(Varmap::new());

    // Client A binds and handshakes on its connection.
    let mut conn_a = Varmap::new();
    let res = handle_request(
        &mut app,
        &mut conn_a,
        frame_of("<CHAT \\ 1.0>\n<Method@Bind>\n<Name@A>"),
        addr(),
        false,
    );
    let token_a = match res {
        RouteRes::Bind(Ok(f)) => Response::from_bytes(&f).unwrap().token.unwrap(),
        _ => panic!("bind failed"),
    };
    let hs = format!(
        "<CHAT \\ 1.0>\n<Method@Handshake>\n<Authorization@'{token_a}'>"
    );
    let res = handle_request(&mut app, &mut conn_a, string_to_bytes(hs), addr(), false);
    match &res {
        RouteRes::Handshake(Ok(f)) => {
            assert_eq!(Response::from_bytes(f).unwrap().code, ResponseCode::AuthOK);
        }
        _ => panic!("handshake failed"),
    }
    let (action, phase) = initial_step(res);
    assert!(matches!(action, ConnAction::ReplyAndSubscribe(_)));
    assert_eq!(phase, ConnPhase::Subscribed);
    match conn_a.get(AttachmentKey::UserName) {
        Some(pinguino::varmap::Attachment::UserName(n)) => assert_eq!(n, "A"),
        _ => panic!("handshake should store the name"),
    }

    // Client B binds and handshakes, then sends; the reply is published.
    let mut conn_b = Varmap::new();
    let res = handle_request(
        &mut app,
        &mut conn_b,
        frame_of("<CHAT \\ 1.0>\n<Method@Bind>\n<Name@B>"),
        addr(),
        false,
    );
    let token_b = match res {
        RouteRes::Bind(Ok(f)) => Response::from_bytes(&f).unwrap().token.unwrap(),
        _ => panic!("bind failed"),
    };
    let hs = format!(
        "<CHAT \\ 1.0>\n<Method@Handshake>\n<Authorization@'{token_b}'>"
    );
    handle_request(&mut app, &mut conn_b, string_to_bytes(hs), addr(), false);

    let res = handle_streaming_request(
        &conn_b,
        frame_of("<CHAT \\ 1.0>\n<Method@Send>\n<Message@'hello'>"),
        addr(),
    );
    let published = match &res {
        RouteRes::Send(Ok(f)) => *f,
        _ => panic!("send should succeed after handshake"),
    };
    let (action, phase) = subscribed_step(res);
    assert!(matches!(action, ConnAction::Publish(_)));
    assert_eq!(phase, ConnPhase::Subscribed);

    // What every subscriber receives.
    let fanout = Response::from_bytes(&published).unwrap();
    assert_eq!(fanout.code, ResponseCode::OK);
    assert_eq!(fanout.user.as_deref(), Some("B"));
    assert_eq!(fanout.message.as_deref(), Some("hello"));
    // The Time header travels as a custom header on the wire and parses
    // back into the timestamp field, in YYYY-MM-DD HH:MM:SS shape.
    let when = fanout.time.expect("the reply must carry a Time header");
    let text = pinguino::timestamp::format_timestamp(&when);
    assert_eq!(text.len(), 19);
    let wire: Vec<u8> = published.to_vec();
    let needle = format!("<Time@'{text}'>");
    assert!(wire
        .windows(needle.len())
        .any(|w| w == needle.as_bytes()));
}

#[test]
fn streaming_rejects_other_methods_without_touching_state() {
    let conn = Varmap::new();
    let res = handle_streaming_request(
        &conn,
        frame_of("<CHAT \\ 1.0>\n<Method@Bind>\n<Name@Eve>"),
        addr(),
    );
    let frame = match &res {
        RouteRes::Unclassified(Err(f)) => *f,
        _ => panic!("non-send methods must be refused while streaming"),
    };
    assert_eq!(Response::from_bytes(&frame).unwrap().code, ResponseCode::Error);
    let (action, phase) = subscribed_step(res);
    assert!(matches!(action, ConnAction::Reply(_)));
    assert_eq!(phase, ConnPhase::Subscribed);
}

#[test]
fn streaming_send_without_name_is_invalid_name() {
    let conn = Varmap::new();
    let res = handle_streaming_request(
        &conn,
        frame_of("<CHAT \\ 1.0>\n<Method@Send>\n<Message@'hi'>"),
        addr(),
    );
    match res {
        RouteRes::Send(Err(f)) => {
            assert_eq!(
                Response::from_bytes(&f).unwrap().code,
                ResponseCode::InvalidName
            );
        }
        _ => panic!("expected an invalid-name failure"),
    }
}

#[test]
fn fatal_serialization_failure_closes_a_streaming_connection() {
    // A message that fits its request frame but whose broadcast reply
    // outgrows one: the reply cannot be laid down, the ending transform
    // falls back to the fatal frame, and the state machine closes.
    let mut conn = Varmap::new();
    conn.insert(pinguino::varmap::Attachment::UserName("B".to_string()));
    let body = "x".repeat(473);
    let res = handle_streaming_request(
        &conn,
        frame_of(&format!("<CHAT \\ 1.0>\n<Method@Send>\n<Message@'{body}'>")),
        addr(),
    );
    let frame = match &res {
        RouteRes::Send(Err(f)) => *f,
        _ => panic!("an oversized reply must fail"),
    };
    assert_eq!(
        Response::from_bytes(&frame).unwrap().code,
        ResponseCode::FatalError
    );
    assert!(pinguino::router::frame_is_fatal(&frame));
    let (action, phase) = subscribed_step(res);
    assert!(matches!(action, ConnAction::ReplyAndClose(_)));
    assert_eq!(phase, ConnPhase::Closed);
}

#[test]
fn ordinary_failures_are_not_fatal() {
    let unauthorized = pinguino::response::code_only_frame(ResponseCode::Unauthorized);
    assert!(!pinguino::router::frame_is_fatal(&unauthorized));
    let fatal = pinguino::response::code_only_frame(ResponseCode::FatalError);
    assert!(pinguino::router::frame_is_fatal(&fatal));
}

#[test]
fn broadcast_frames_pass_through_in_order() {
    let f1 = frame_of("<CHAT \\ 1.0>\n<Code@10>\n<Message@'one'>");
    let f2 = frame_of("<CHAT \\ 1.0>\n<Code@10>\n<Message@'two'>");
    let mut written = Vec::new();
    for ev in [BroadcastEvent::Frame(f1), BroadcastEvent::Frame(f2)] {
        match broadcast_step(ev) {
            (ConnAction::Reply(f), ConnPhase::Subscribed) => written.push(f),
            _ => panic!("a broadcast frame should be written through"),
        }
    }
    assert_eq!(written.len(), 2);
    assert_eq!(
        Response::from_bytes(&written[0]).unwrap().message.as_deref(),
        Some("one")
    );
    assert_eq!(
        Response::from_bytes(&written[1]).unwrap().message.as_deref(),
        Some("two")
    );
    assert!(matches!(
        broadcast_step(BroadcastEvent::Lagged),
        (ConnAction::ReportLag, ConnPhase::Subscribed)
    ));
    assert!(matches!(
        broadcast_step(BroadcastEvent::ChannelClosed),
        (ConnAction::Close, ConnPhase::Closed)
    ));
}

#[test]
fn connection_tally_moves_with_hooks() {
    let mut tally = ConnectionCount::new();
    let before = pinguino::wares::before_connect::DefaultBeforeConnect;
    let after = pinguino::wares::after_connect::DefaultAfterConnect;
    before.execute(&mut tally);
    before.execute(&mut tally);
    assert_eq!(tally.get_total_connected(), 2);
    after.execute(&mut tally);
    assert_eq!(tally.get_total_connected(), 1);
    after.execute(&mut tally);
    after.execute(&mut tally);
    assert_eq!(tally.get_total_connected(), 0);
}
