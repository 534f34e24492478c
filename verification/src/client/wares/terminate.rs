//! Ending the streaming task.

use vstd::prelude::*;
use crate::client::ClientError;

verus! {

/// Decides what terminating the streaming task amounts to.
#[derive(Debug)]
pub struct DefaultTerminate;

impl DefaultTerminate {
    /// With no task there is nothing to terminate; a task already done
    /// is reported as such; a live one may be dropped.
    pub fn decide(&self, handle_present: bool, already_finished: bool) -> (r: Result<
        (),
        ClientError,
    >)
        ensures
            match r {
                Ok(_) => handle_present && !already_finished,
                Err(e) => {
                    ||| !handle_present && (e matches ClientError::NoActiveHandle)
                    ||| handle_present && already_finished && (e matches
                    ClientError::AlreadyFinished)
                },
            },
    {
        if !handle_present {
            Err(ClientError::NoActiveHandle)
        } else if already_finished {
            Err(ClientError::AlreadyFinished)
        } else {
            Ok(())
        }
    }
}

} // verus!
