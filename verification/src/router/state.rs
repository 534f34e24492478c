//! Per-connection state.
//!
//! One `State` lives for the duration of one connection and carries the
//! connection-long attachments: the serving task's identity, arrival
//! clock readings, and the user name a successful handshake negotiates.
//! The shared application state and the after-hook are held by the task
//! that runs the connection, outside the verified core.

use vstd::prelude::*;
use crate::varmap::{AttachmentKey, Varmap};

verus! {

#[derive(Debug)]
pub struct State {
    pub varmap: Varmap,
}

impl State {
    pub fn new() -> (s: State)
        ensures
            forall|k: AttachmentKey| s.varmap.spec_get(k) is None,
    {
        State { varmap: Varmap::new() }
    }
}

} // verus!
