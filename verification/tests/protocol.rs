//! Codec tests: requests and responses to bytes and back.

use pinguino::request::{Method, ParseError, RawRequest, Request, Version};
use pinguino::response::{Response, ResponseBuilder, ResponseCode, BuilderError};
use pinguino::response::string_to_bytes;
use pinguino::timestamp::{parse_timestamp, Timestamp};
use pinguino::color::{fill_bytes, stamp_color, Color};

fn frame_of(text: &str) -> [u8; 512] {
    string_to_bytes(text.to_string())
}

#[test]
fn parse_bind_request() {
    let req = Request::parse(
        "<CHAT \\ 1.0>\n<Method@Bind>\n<Name@Jeff>",
        "127.0.0.1:3000".to_string(),
    )
    .unwrap();
    assert_eq!(req.version, Version::CHAT10);
    assert_eq!(req.method, Method::Bind);
    assert_eq!(req.value, "Jeff");
    assert_eq!(req.custom.len(), 0);
    assert_eq!(req.addr, "127.0.0.1:3000");
}

#[test]
fn parse_handshake_request() {
    let req = Request::parse(
        "<CHAT \\ 1.0>\n<Method@Handshake>\n<Authorization@'0123456789ABCDEF'>",
        "127.0.0.1:3000".to_string(),
    )
    .unwrap();
    assert_eq!(req.method, Method::Handshake);
    assert_eq!(req.value, "0123456789ABCDEF");
}

#[test]
fn parse_send_request_with_custom_headers() {
    let req = Request::parse(
        "<CHAT \\ 1.0>\n<Method@Send>\n<Message@'Hello world!'>\n<Mood@'quite good'>",
        "127.0.0.1:3000".to_string(),
    )
    .unwrap();
    assert_eq!(req.method, Method::Send);
    assert_eq!(req.value, "Hello world!");
    assert_eq!(req.custom.len(), 1);
    assert_eq!(
        req.custom.get(&"Mood".to_string()).unwrap().as_str(),
        "quite good"
    );
}

#[test]
fn parse_rejects_bad_version() {
    let r = Request::parse(
        "<CHAT \\ 2.0>\n<Method@Bind>\n<Name@Jeff>",
        "a".to_string(),
    );
    assert!(matches!(r, Err(ParseError::MissingVersion)));
    let r = Request::parse("nonsense\n<Method@Bind>\n<Name@Jeff>", "a".to_string());
    assert!(matches!(r, Err(ParseError::InvalidFormat)));
}

#[test]
fn parse_rejects_bad_method_line() {
    let r = Request::parse(
        "<CHAT \\ 1.0>\n<Wrong@Send>\n<Message@'x'>",
        "a".to_string(),
    );
    assert!(matches!(r, Err(ParseError::MissingMethod)));
    let r = Request::parse("<CHAT \\ 1.0>", "a".to_string());
    assert!(matches!(r, Err(ParseError::MissingMethod)));
}

#[test]
fn parse_rejects_wrong_value_key() {
    let r = Request::parse(
        "<CHAT \\ 1.0>\n<Method@Bind>\n<Message@'x'>",
        "a".to_string(),
    );
    assert!(matches!(r, Err(ParseError::InvalidKey)));
    let r = Request::parse("<CHAT \\ 1.0>\n<Method@Bind>", "a".to_string());
    assert!(matches!(r, Err(ParseError::MissingRequestValue)));
}

#[test]
fn parse_key_value_forms() {
    let (k, v) = pinguino::request::parse_key_value("<Key@'Some value'>").unwrap();
    assert_eq!(k, "Key");
    assert_eq!(v, "Some value");
    let (k, v) = pinguino::request::parse_key_value("<Key@bare_word9>").unwrap();
    assert_eq!(k, "Key");
    assert_eq!(v, "bare_word9");
    assert!(pinguino::request::parse_key_value("<Key@''>").is_err());
    assert!(pinguino::request::parse_key_value("<@value>").is_err());
    assert!(pinguino::request::parse_key_value("Key@value").is_err());
}

#[test]
fn request_round_trip_all_methods() {
    for text in [
        "<CHAT \\ 1.0>\n<Method@Bind>\n<Name@Jeff>",
        "<CHAT \\ 1.0>\n<Method@Handshake>\n<Authorization@'tok-1234'>",
        "<CHAT \\ 1.0>\n<Method@Send>\n<Message@'Hello world!'>\n<Mood@'fine'>",
    ] {
        let req = Request::parse(text, "127.0.0.1:1".to_string()).unwrap();
        let bytes = req.as_bytes().unwrap();
        let again = Request::from_raw_request(RawRequest {
            bytes,
            addr: "127.0.0.1:1".to_string(),
        })
        .unwrap();
        assert_eq!(again.version, req.version);
        assert_eq!(again.method, req.method);
        assert_eq!(again.value, req.value);
        assert_eq!(again.custom.len(), req.custom.len());
        for (k, v) in &req.custom.pairs {
            assert_eq!(again.custom.get(k).unwrap(), v);
        }
    }
}

#[test]
fn response_round_trip() {
    let resp = ResponseBuilder::new()
        .version(Version::CHAT10)
        .code(ResponseCode::OK)
        .user("Jeff".to_string())
        .message("Hello world!".to_string())
        .custom_insert("Mood".to_string(), "quite good".to_string())
        .build()
        .unwrap();
    let bytes = resp.as_bytes().unwrap();
    let again = Response::from_bytes(&bytes).unwrap();
    assert_eq!(again.code, ResponseCode::OK);
    assert_eq!(again.version, Version::CHAT10);
    assert_eq!(again.token, None);
    assert_eq!(again.user.as_deref(), Some("Jeff"));
    assert_eq!(again.message.as_deref(), Some("Hello world!"));
    let cm = again.custom.as_ref().unwrap();
    assert_eq!(cm.get(&"Mood".to_string()).unwrap().as_str(), "quite good");
}

#[test]
fn response_round_trip_token() {
    let resp = ResponseBuilder::new()
        .version(Version::CHAT10)
        .code(ResponseCode::AuthOK)
        .token("0123456789abcdef".to_string())
        .build()
        .unwrap();
    let bytes = resp.as_bytes().unwrap();
    let again = Response::from_bytes(&bytes).unwrap();
    assert_eq!(again.code, ResponseCode::AuthOK);
    assert_eq!(again.token.as_deref(), Some("0123456789abcdef"));
    assert_eq!(again.user, None);
    assert_eq!(again.message, None);
}

#[test]
fn response_time_header_parses_into_timestamp() {
    let bytes = frame_of("<CHAT \\ 1.0>\n<Code@10>\n<Time@'2024-01-02 03:04:05'>");
    let resp = Response::from_bytes(&bytes).unwrap();
    let ts = resp.time.unwrap();
    assert_eq!(
        (ts.year, ts.month, ts.day, ts.hour, ts.minute, ts.second),
        (2024, 1, 2, 3, 4, 5)
    );
    let bad = frame_of("<CHAT \\ 1.0>\n<Code@10>\n<Time@'2024-13-02 03:04:05'>");
    assert!(matches!(
        Response::from_bytes(&bad),
        Err(ParseError::InvalidFormat)
    ));
}

#[test]
fn response_missing_code() {
    let bytes = frame_of("<CHAT \\ 1.0>\n<User@'Jeff'>");
    assert!(matches!(
        Response::from_bytes(&bytes),
        Err(ParseError::MissingCode)
    ));
}

#[test]
fn response_code_wire_values() {
    let cases = [
        (ResponseCode::OK, "<Code@10>"),
        (ResponseCode::AuthOK, "<Code@11>"),
        (ResponseCode::ParseError, "<Code@20>"),
        (ResponseCode::InvalidName, "<Code@21>"),
        (ResponseCode::AlreadyTaken, "<Code@22>"),
        (ResponseCode::InvalidHeader, "<Code@23>"),
        (ResponseCode::Unauthorized, "<Code@24>"),
        (ResponseCode::Error, "<Code@30>"),
        (ResponseCode::FatalError, "<Code@31>"),
        (ResponseCode::Custom(77), "<Code@77>"),
    ];
    for (code, line) in cases {
        assert_eq!(code.to_string().as_str(), line);
        assert_eq!(ResponseCode::from_str(line).unwrap(), code);
    }
    assert!(ResponseCode::from_str("<Code@999>").is_err());
    assert!(ResponseCode::from_str("<Code@>").is_err());
}

#[test]
fn reserved_custom_code_is_rejected_at_build() {
    let r = ResponseBuilder::new()
        .version(Version::CHAT10)
        .code(ResponseCode::Custom(22))
        .build();
    assert!(matches!(r, Err(BuilderError::ReservedCode)));
    let r = ResponseBuilder::new().code(ResponseCode::OK).build();
    assert!(matches!(r, Err(BuilderError::NoVersion)));
    let r = ResponseBuilder::new().build();
    assert!(matches!(r, Err(BuilderError::NoCode)));
    assert!(ResponseBuilder::new()
        .version(Version::CHAT10)
        .code(ResponseCode::Custom(77))
        .build()
        .is_ok());
}

#[test]
fn string_to_bytes_pads_and_truncates() {
    let frame = string_to_bytes("ab".to_string());
    assert_eq!(frame[0], b'a');
    assert_eq!(frame[1], b'b');
    assert!(frame[2..].iter().all(|&b| b == 0));
    let long = "x".repeat(600);
    let frame = string_to_bytes(long);
    assert!(frame.iter().all(|&b| b == b'x'));
}

#[test]
fn timestamp_format_and_parse() {
    let ts = Timestamp {
        year: 2024,
        month: 1,
        day: 2,
        hour: 3,
        minute: 4,
        second: 5,
    };
    let s = pinguino::timestamp::format_timestamp(&ts);
    assert_eq!(s, "2024-01-02 03:04:05");
    assert_eq!(parse_timestamp(s.as_bytes()), Some(ts));
    assert_eq!(parse_timestamp(b"2024-02-30 00:00:00"), None);
    assert!(parse_timestamp(b"2024-02-29 23:59:59").is_some());
    assert_eq!(parse_timestamp(b"2023-02-29 00:00:00"), None);
    assert_eq!(parse_timestamp(b"not a time"), None);
}

#[test]
fn color_mark_round_trip() {
    let mut frame = frame_of("<CHAT \\ 1.0>\n<Method@Send>\n<Message@'hi'>");
    frame[507] = 0x23;
    frame[508] = 0xFF;
    frame[509] = 0x00;
    frame[510] = 0x00;
    frame[511] = 0x23;
    let original_tail: Vec<u8> = frame[507..512].to_vec();
    let color = fill_bytes(&mut frame).unwrap();
    assert_eq!((color.red, color.green, color.blue), (0xFF, 0x00, 0x00));
    assert!(frame[507..512].iter().all(|&b| b == 0));
    let mut reply = frame_of("<CHAT \\ 1.0>\n<Code@10>");
    stamp_color(&mut reply, color);
    assert_eq!(&reply[507..512], original_tail.as_slice());
}

#[test]
fn color_hex_text() {
    let c = Color {
        red: 0xFF,
        green: 0x00,
        blue: 0x0a,
    };
    assert_eq!(c.to_string(), "ff000a");
}

#[test]
fn unmarked_tail_left_alone() {
    let mut frame = frame_of("<CHAT \\ 1.0>\n<Method@Send>\n<Message@'hi'>");
    frame[511] = 0x23;
    let copy = frame;
    assert!(fill_bytes(&mut frame).is_err());
    assert_eq!(frame[..], copy[..]);
}

#[test]
fn an_all_zero_frame_has_no_version_line() {
    let frame = [0u8; 512];
    assert!(matches!(
        Request::from_raw_request(RawRequest {
            bytes: frame,
            addr: "a".to_string()
        }),
        Err(ParseError::MissingVersion)
    ));
    assert!(matches!(
        Response::from_bytes(&frame),
        Err(ParseError::MissingVersion)
    ));
}

#[test]
fn request_text_fills_the_frame_exactly_and_no_further() {
    // The fixed parts of a send request take 39 bytes; the message body
    // fills the rest of the 512.
    let fits = "x".repeat(473);
    let req = Request::parse(
        &format!("<CHAT \\ 1.0>\n<Method@Send>\n<Message@'{fits}'>"),
        "a".to_string(),
    )
    .unwrap();
    let frame = req.as_bytes().unwrap();
    assert_ne!(frame[511], 0);

    let too_long = "x".repeat(474);
    let req = Request::parse(
        &format!("<CHAT \\ 1.0>\n<Method@Send>\n<Message@'{too_long}'>"),
        "a".to_string(),
    );
    // The text itself no longer fits a single frame, so parsing sees a
    // truncated line and serialization of a hand-built request refuses.
    assert!(req.is_err() || req.unwrap().as_bytes().is_err());
}

#[test]
fn oversized_response_is_refused() {
    let resp = ResponseBuilder::new()
        .version(Version::CHAT10)
        .code(ResponseCode::OK)
        .message("y".repeat(600))
        .build()
        .unwrap();
    assert!(resp.as_bytes().is_err());
}

#[test]
fn empty_value_is_rejected() {
    let r = Request::parse("<CHAT \\ 1.0>\n<Method@Bind>\n<Name@>", "a".to_string());
    assert!(matches!(r, Err(ParseError::InvalidFormat)));
}
