//! Default middleware for `Send`: wrap the message for fan-out.

use vstd::prelude::*;
use crate::request::{Request, Version};
use crate::response::{spec_code_only, w_time, Response, ResponseCode};
use crate::strmap::StrMap;
use crate::text::{ascii_str, chars_wf};
use crate::timestamp::{spec_render_timestamp, Timestamp};
use crate::varmap::Varmap;

verus! {

/// Builds the broadcast reply for a message: `OK`, the sender's
/// negotiated name, the message body, and a `Time` header carrying the
/// given moment.  Without a negotiated name the request is answered
/// `InvalidName`.
#[derive(Debug)]
pub struct DefaultMiddleware;

impl DefaultMiddleware {
    pub fn middleware(&self, req: &Request, conn: &Varmap, now: &Timestamp) -> (r: Result<
        Response,
        Response,
    >)
        requires
            now.wf(),
        ensures
            match conn.spec_user_name() {
                Some(name) => {
                    &&& r is Ok
                    &&& ({
                        let resp = r->Ok_0;
                        &&& resp.code == ResponseCode::OK
                        &&& resp.version == Version::CHAT10
                        &&& resp.token is None && resp.time is None && resp.varmap is None
                        &&& resp.user is Some && resp.user->0@ == name
                        &&& resp.message is Some && resp.message->0@ == req.value@
                        &&& resp.custom is Some
                        &&& resp.custom->0.spec_pairs() =~= seq![
                            (
                                ascii_str(w_time()),
                                ascii_str(spec_render_timestamp(*now)),
                            ),
                        ]
                        &&& resp.custom->0.wf()
                    })
                },
                None => {
                    &&& r is Err
                    &&& r->Err_0.spec_model() == spec_code_only(ResponseCode::InvalidName)
                    &&& r->Err_0.strings_wf()
                },
            },
    {
        let name = match conn.get(crate::varmap::AttachmentKey::UserName) {
            Some(crate::varmap::Attachment::UserName(s)) => s,
            _ => {
                return Err(crate::response::code_only_response(ResponseCode::InvalidName));
            },
        };
        let mut custom = StrMap::new();
        let tkey = crate::response::time_key_str();
        let tval = crate::timestamp::format_timestamp(now);
        custom.insert(tkey, tval);
        let resp = Response {
            code: ResponseCode::OK,
            version: Version::CHAT10,
            token: None,
            user: Some(name),
            time: None,
            message: Some(req.value.clone()),
            custom: Some(custom),
            varmap: None,
        };
        Ok(resp)
    }
}

} // verus!
