//! Default middleware for `Bind`: register the name.

use vstd::prelude::*;
use crate::request::{Request, Version};
use crate::response::{spec_code_only, Response, ResponseCode};
use crate::router::app::App;
use crate::text::{ascii_bytes, chars_wf, value_wf};

verus! {

/// Registers the request's value as a name.  A free name gets a fresh
/// token back in an `AuthOK` response; a taken one is answered
/// `AlreadyTaken` and the registry is left alone.  A refusal has a
/// cause: the name is taken, or the randomly drawn token collided with
/// the reverse index — so on a state with an empty reverse index a free
/// name is owed its `AuthOK`.
#[derive(Debug)]
pub struct DefaultMiddleware;

impl DefaultMiddleware {
    pub fn middleware(&self, req: &Request, app: &mut App) -> (r: Result<Response, Response>)
        requires
            old(app).wf(),
        ensures
            final(app).wf(),
            final(app).extension == old(app).extension,
            old(app).names.spec_get(req.value@) is Some ==> r is Err,
            r is Err ==> old(app).names.spec_get(req.value@) is Some || (exists|t: Seq<char>|
                (#[trigger] old(app).auth.spec_get(t)) is Some),
            match r {
                Ok(resp) => {
                    &&& resp.code == ResponseCode::AuthOK
                    &&& resp.version == Version::CHAT10
                    &&& resp.user is None && resp.time is None && resp.message is None
                        && resp.custom is None && resp.varmap is None
                    &&& resp.token is Some
                    &&& ({
                        let t = resp.token->0@;
                        &&& t.len() == 36
                        &&& chars_wf(t)
                        &&& value_wf(ascii_bytes(t))
                        &&& old(app).names.spec_get(req.value@) is None
                        &&& final(app).names.spec_get(req.value@) == Some(t)
                        &&& final(app).auth.spec_get(t) == Some(req.value@)
                        &&& forall|n: Seq<char>|
                            n != req.value@ ==> final(app).names.spec_get(n) == old(
                                app,
                            ).names.spec_get(n)
                        &&& forall|q: Seq<char>|
                            q != t ==> final(app).auth.spec_get(q) == old(app).auth.spec_get(q)
                    })
                    &&& resp.strings_wf()
                },
                Err(resp) => {
                    &&& resp.spec_model() == spec_code_only(ResponseCode::AlreadyTaken)
                    &&& resp.strings_wf()
                    &&& *final(app) == *old(app)
                },
            },
    {
        match app.register(req.value.clone()) {
            Ok(token) => {
                let resp = Response {
                    code: ResponseCode::AuthOK,
                    version: Version::CHAT10,
                    token: Some(token),
                    user: None,
                    time: None,
                    message: None,
                    custom: None,
                    varmap: None,
                };
                Ok(resp)
            },
            Err(_) => Err(crate::response::code_only_response(ResponseCode::AlreadyTaken)),
        }
    }
}

} // verus!
