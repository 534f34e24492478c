//! Client-side protocol work.
//!
//! The wares under here build the frames a client sends and read the
//! replies it gets back.  The connection handling around them — sockets,
//! channels, the streaming task — lives with the runtime shell, which
//! hands plain values in and takes plain values back.

use vstd::prelude::*;
use crate::request::ParseError;
use crate::response::ResponseCode;

pub mod wares;

verus! {

/// The standard I/O error type, carried through untouched.
#[verifier::external_type_specification]
#[verifier::external_body]
pub struct ExIoError(std::io::Error);

/// What a client call can fail with.
#[derive(Debug)]
pub enum ClientError {
    CouldntConnect(std::io::Error),
    ClosedConnection,
    SendingFailed(std::io::Error),
    ReadingFailed(std::io::Error),
    ParseError(ParseError),
    MissingToken,
    WrongResponseCoce(ResponseCode),
    InternalError,
    NoActiveHandle,
    AlreadyFinished,
}

} // verus!
