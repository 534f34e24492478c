//! Default ending transforms: outcome to outbound frame.

pub mod default_bind;
pub mod default_handshake;
pub mod default_send;

use vstd::prelude::*;
use crate::response::{
    spec_code_only, spec_render_response, Response, ResponseCode,
};
use crate::text::zero_pad;

verus! {

/// What every default ending transform promises of its frame: the
/// response's own rendering when that fits a frame, else the bare
/// `FatalError` frame that serialization failure calls for; the success
/// polarity is the input's, except that a success whose rendering fails
/// becomes a failure.
pub open spec fn ending_post(
    res: Result<Response, Response>,
    r: Result<[u8; 512], [u8; 512]>,
) -> bool {
    match res {
        Ok(resp) => match r {
            Ok(f) => resp.strings_wf() && spec_render_response(resp.spec_model()).len() <= 512
                && f@ == zero_pad(spec_render_response(resp.spec_model())),
            Err(f) => (!resp.strings_wf() || spec_render_response(resp.spec_model()).len() > 512)
                && f@ == zero_pad(spec_render_response(spec_code_only(ResponseCode::FatalError))),
        },
        Err(resp) => match r {
            Ok(_) => false,
            Err(f) => if resp.strings_wf() && spec_render_response(resp.spec_model()).len()
                <= 512 {
                f@ == zero_pad(spec_render_response(resp.spec_model()))
            } else {
                f@ == zero_pad(spec_render_response(spec_code_only(ResponseCode::FatalError)))
            },
        },
    }
}

/// Serializes an outcome.  A response that cannot be laid down is a
/// fatal serialization failure: the frame becomes the bare `FatalError`
/// reply, on the failure side, and the state machine closes the
/// connection on it.
pub(crate) fn serialize_outcome(res: Result<Response, Response>) -> (r: Result<
    [u8; 512],
    [u8; 512],
>)
    ensures
        ending_post(res, r),
{
    match res {
        Ok(resp) => match resp.as_bytes() {
            Ok(f) => Ok(f),
            Err(_) => Err(crate::response::code_only_frame(ResponseCode::FatalError)),
        },
        Err(resp) => match resp.as_bytes() {
            Ok(f) => Err(f),
            Err(_) => Err(crate::response::code_only_frame(ResponseCode::FatalError)),
        },
    }
}

} // verus!
