//! Builder and small-surface tests.

use pinguino::request::{Method, RawRequest, Request, RequestBuilder, Version};
use pinguino::response::{Response, ResponseBuilder, ResponseCode};
use pinguino::router::state::State;
use pinguino::router::Config;
use pinguino::strmap::StrMap;
use pinguino::varmap::{Attachment, AttachmentKey};

#[test]
fn request_builder_requires_all_fields() {
    assert!(RequestBuilder::new().build().is_err());
    assert!(RequestBuilder::new()
        .version(Version::CHAT10)
        .method(Method::Send)
        .value("hi".to_string())
        .build()
        .is_err());
    let req = RequestBuilder::new()
        .version(Version::CHAT10)
        .method(Method::Send)
        .addr("127.0.0.1:3000".to_string())
        .value("Hello world!".to_string())
        .custom_insert("Mood".to_string(), "good".to_string())
        .build()
        .unwrap();
    assert_eq!(req.method, Method::Send);
    assert_eq!(req.value, "Hello world!");
    assert_eq!(req.custom.len(), 1);
}

#[test]
fn built_request_serializes_and_parses_back() {
    let req = RequestBuilder::new()
        .version(Version::CHAT10)
        .method(Method::Bind)
        .addr("127.0.0.1:3000".to_string())
        .value("Jeff".to_string())
        .build()
        .unwrap();
    let bytes = req.as_bytes().unwrap();
    let again = Request::from_raw_request(RawRequest {
        bytes,
        addr: "127.0.0.1:3000".to_string(),
    })
    .unwrap();
    assert_eq!(again.method, Method::Bind);
    assert_eq!(again.value, "Jeff");
}

#[test]
fn request_serialization_refuses_a_quote_in_the_value() {
    let req = RequestBuilder::new()
        .version(Version::CHAT10)
        .method(Method::Send)
        .addr("a".to_string())
        .value("don't".to_string())
        .build()
        .unwrap();
    assert!(req.as_bytes().is_err());
}

#[test]
fn response_builder_default_is_ok_chat10() {
    let resp = ResponseBuilder::default().build().unwrap();
    assert_eq!(resp.code, ResponseCode::OK);
    assert_eq!(resp.version, Version::CHAT10);
    assert!(resp.token.is_none() && resp.user.is_none() && resp.message.is_none());
}

#[test]
fn response_builder_custom_replace_and_varmap() {
    let mut prepared = StrMap::new();
    prepared.insert("HeaderA".to_string(), "one".to_string());
    prepared.insert("HeaderB".to_string(), "two".to_string());
    prepared.insert("HeaderA".to_string(), "three".to_string());
    assert_eq!(prepared.len(), 2);
    assert_eq!(prepared.get(&"HeaderA".to_string()).unwrap().as_str(), "three");
    let resp = ResponseBuilder::new()
        .version(Version::CHAT10)
        .code(ResponseCode::OK)
        .custom_init()
        .custom_replace(prepared)
        .varmap_insert(Attachment::Note("sticky".to_string()))
        .build()
        .unwrap();
    let cm = resp.custom.as_ref().unwrap();
    assert_eq!(cm.len(), 2);
    match resp.varmap.as_ref().unwrap().get(AttachmentKey::Note) {
        Some(Attachment::Note(n)) => assert_eq!(n, "sticky"),
        _ => panic!("the note should be attached"),
    }
}

#[test]
fn pretty_string_shows_the_wire_text() {
    let resp = ResponseBuilder::new()
        .version(Version::CHAT10)
        .code(ResponseCode::OK)
        .user("Jeff".to_string())
        .message("Hello world!".to_string())
        .build()
        .unwrap();
    assert_eq!(
        resp.pretty_string(),
        "<CHAT \\ 1.0>\n<Code@10>\n<User@'Jeff'>\n<Message@'Hello world!'>"
    );
}

#[test]
fn method_and_version_names() {
    assert_eq!(Method::Bind.to_str(), "Bind");
    assert_eq!(Method::Handshake.to_str(), "Handshake");
    assert_eq!(Method::Send.to_str(), "Send");
    assert_eq!(Method::from_str("Send").unwrap(), Method::Send);
    assert!(Method::from_str("send").is_err());
    assert_eq!(Version::CHAT10.to_str(), "1.0");
    assert_eq!(Version::from_str("1.0").unwrap(), Version::CHAT10);
    assert!(Version::from_str("2.0").is_err());
}

#[test]
fn fresh_connection_state_is_empty() {
    let s = State::new();
    assert!(s.varmap.get(AttachmentKey::UserName).is_none());
    assert!(s.varmap.get(AttachmentKey::TaskId).is_none());
    let c = Config::new_default();
    assert_eq!(c.ip, "127.0.0.1");
    assert_eq!(c.port, 8080);
}

#[test]
fn unserializable_success_becomes_a_fatal_failure() {
    // A response that cannot be laid down is a fatal serialization
    // failure: the frame carries the FatalError code, on the failure
    // side.
    let bad = Response {
        code: ResponseCode::OK,
        version: Version::CHAT10,
        token: None,
        user: Some("bad'quote".to_string()),
        time: None,
        message: None,
        custom: None,
        varmap: None,
    };
    assert!(bad.as_bytes().is_err());
    let ending = pinguino::wares::ending_bytesware::default_bind::DefaultEndingBytesware;
    match ending.bytesware(Ok(bad)) {
        Err(f) => {
            let resp = Response::from_bytes(&f).unwrap();
            assert_eq!(resp.code, ResponseCode::FatalError);
            assert!(pinguino::router::frame_is_fatal(&f));
        }
        Ok(_) => panic!("an unserializable success must become a failure"),
    }
}
