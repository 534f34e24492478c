//! Default ending transform on the `Bind` route.

use vstd::prelude::*;
use crate::response::Response;
use crate::wares::ending_bytesware::{ending_post, serialize_outcome};

verus! {

/// Serializes the route's outcome into a frame, keeping its polarity; a
/// response that cannot be laid down is a fatal serialization failure
/// and becomes the bare `FatalError` frame, on the failure side.
#[derive(Debug)]
pub struct DefaultEndingBytesware;

impl DefaultEndingBytesware {
    pub fn bytesware(&self, res: Result<Response, Response>) -> (r: Result<[u8; 512], [u8; 512]>)
        ensures
            ending_post(res, r),
    {
        serialize_outcome(res)
    }
}

} // verus!
