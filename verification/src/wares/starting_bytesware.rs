//! Default starting transform: raw frame to parsed request, or a
//! fail-fast error response.

use vstd::prelude::*;
use crate::request::{spec_parse_request, ParseError, RawRequest, Request, req_matches};
use crate::response::{spec_code_only, Response, ResponseCode};
use crate::text::trim_zeros;

verus! {

/// The response code a parse failure maps to.
pub open spec fn spec_parse_error_code(e: ParseError) -> ResponseCode {
    match e {
        ParseError::InvalidFormat => ResponseCode::ParseError,
        ParseError::InvalidKey => ResponseCode::Unauthorized,
        ParseError::MissingMethod => ResponseCode::InvalidHeader,
        ParseError::MissingRequestValue => ResponseCode::InvalidName,
        ParseError::MissingVersion => ResponseCode::InvalidHeader,
        ParseError::MissingCode => ResponseCode::Error,
        ParseError::NotFound => ResponseCode::Error,
    }
}

pub fn parse_error_code(e: ParseError) -> (c: ResponseCode)
    ensures
        c == spec_parse_error_code(e),
{
    match e {
        ParseError::InvalidFormat => ResponseCode::ParseError,
        ParseError::InvalidKey => ResponseCode::Unauthorized,
        ParseError::MissingMethod => ResponseCode::InvalidHeader,
        ParseError::MissingRequestValue => ResponseCode::InvalidName,
        ParseError::MissingVersion => ResponseCode::InvalidHeader,
        ParseError::MissingCode => ResponseCode::Error,
        ParseError::NotFound => ResponseCode::Error,
    }
}

/// The default starting transform: parse the frame, or short-circuit
/// with a version-and-code error response.
#[derive(Debug)]
pub struct DefaultStartingBytesware;

impl DefaultStartingBytesware {
    pub fn bytesware(&self, raw_req: RawRequest) -> (r: Result<Request, Response>)
        ensures
            ({
                let sp = spec_parse_request(trim_zeros(raw_req.bytes@));
                match (r, sp) {
                    (Ok(req), Ok(m)) => req_matches(req, m) && req.addr@ == raw_req.addr@
                        && req.custom.wf() && forall|k: crate::varmap::AttachmentKey|
                        req.varmap.spec_get(k) is None,
                    (Err(resp), Err(e)) => resp.spec_model() == spec_code_only(
                        spec_parse_error_code(e),
                    ) && resp.strings_wf(),
                    _ => false,
                }
            }),
    {
        match Request::from_raw_request(raw_req) {
            Ok(req) => Ok(req),
            Err(e) => {
                let code = parse_error_code(e);
                Err(crate::response::code_only_response(code))
            },
        }
    }
}

} // verus!
