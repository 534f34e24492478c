//! Presenting a token: the request frame and the reply's verdict.

use vstd::prelude::*;
use crate::client::ClientError;
use crate::request::{Method, ParseError, Request, ReqModel, Version};
use crate::response::{Response, ResponseCode};
use crate::strmap::StrMap;
use crate::text::zero_pad;
use crate::varmap::Varmap;

verus! {

/// Builds handshake requests and reads the verdict off the reply.
#[derive(Debug)]
pub struct DefaultHandshake;

impl DefaultHandshake {
    /// The handshake request frame for a token; a token that cannot
    /// stand as a quoted value is refused.
    pub fn request_frame(&self, token: &String) -> (r: Result<[u8; 512], ClientError>)
        ensures
            ({
                let m = ReqModel {
                    version: Version::CHAT10,
                    method: Method::Handshake,
                    value: token@,
                    custom: Seq::empty(),
                };
                match r {
                    Ok(f) => f@ == zero_pad(crate::request::spec_render_request(m))
                        && crate::request::spec_render_request(m).len() <= 512,
                    Err(e) => (!crate::text::chars_wf(token@) || !crate::text::value_wf(
                        crate::text::ascii_bytes(token@),
                    ) || crate::request::spec_render_request(m).len() > 512) && (e matches
                    ClientError::ParseError(ParseError::InvalidFormat)),
                }
            }),
    {
        let req = Request {
            addr: String::new(),
            version: Version::CHAT10,
            method: Method::Handshake,
            value: token.clone(),
            custom: StrMap::new(),
            varmap: Varmap::new(),
        };
        proof {
            assert(req.spec_model().custom =~= Seq::<(Seq<char>, Seq<char>)>::empty());
        }
        match req.as_bytes() {
            Ok(f) => Ok(f),
            Err(_) => Err(ClientError::ParseError(ParseError::InvalidFormat)),
        }
    }

    /// Whether the reply lets the client into the streaming phase.
    pub fn accepted(&self, resp: &Response) -> (r: bool)
        ensures
            r == (resp.code == ResponseCode::AuthOK),
    {
        match resp.code {
            ResponseCode::AuthOK => true,
            _ => false,
        }
    }
}

} // verus!
