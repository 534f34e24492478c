//! Hook run once when a connection is accepted.

use vstd::prelude::*;
use crate::wares::ConnectionCount;

verus! {

/// Counts the connection in.
#[derive(Debug)]
pub struct DefaultBeforeConnect;

impl DefaultBeforeConnect {
    pub fn execute(&self, counter: &mut ConnectionCount)
        ensures
            final(counter).total == if old(counter).total < u64::MAX {
                old(counter).total + 1
            } else {
                u64::MAX as int
            },
    {
        counter.increment_total_connected();
    }
}

} // verus!
