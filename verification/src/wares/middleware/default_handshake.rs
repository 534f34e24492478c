//! Default middleware for `Handshake`: check the token and remember the
//! name on the connection.

use vstd::prelude::*;
use crate::request::{Request, Version};
use crate::response::{spec_code_only, Response, ResponseCode};
use crate::router::app::App;
use crate::varmap::{Attachment, AttachmentKey, Varmap};

verus! {

/// Looks the presented token up.  A known token copies its name into the
/// connection's attachments and is answered `AuthOK`; an unknown one is
/// answered `Unauthorized` and the connection is left alone.
#[derive(Debug)]
pub struct DefaultMiddleware;

impl DefaultMiddleware {
    pub fn middleware(&self, req: &Request, app: &App, conn: &mut Varmap) -> (r: Result<
        Response,
        Response,
    >)
        ensures
            match app.auth.spec_get(req.value@) {
                Some(name) => {
                    &&& r is Ok
                    &&& r->Ok_0.spec_model() == spec_code_only(ResponseCode::AuthOK)
                    &&& r->Ok_0.strings_wf()
                    &&& final(conn).spec_user_name() == Some(name)
                    &&& forall|k: AttachmentKey|
                        k != AttachmentKey::UserName ==> final(conn).spec_get(k) == old(
                            conn,
                        ).spec_get(k)
                },
                None => {
                    &&& r is Err
                    &&& r->Err_0.spec_model() == spec_code_only(ResponseCode::Unauthorized)
                    &&& r->Err_0.strings_wf()
                    &&& *final(conn) == *old(conn)
                },
            },
    {
        match app.auth.get(&req.value) {
            Some(name) => {
                let name = name.clone();
                conn.insert(Attachment::UserName(name));
                Ok(crate::response::code_only_response(ResponseCode::AuthOK))
            },
            None => Err(crate::response::code_only_response(ResponseCode::Unauthorized)),
        }
    }
}

} // verus!
