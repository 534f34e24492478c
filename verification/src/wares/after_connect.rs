//! Hook run once when a connection ends.

use vstd::prelude::*;
use crate::wares::ConnectionCount;

verus! {

/// Counts the connection out.
#[derive(Debug)]
pub struct DefaultAfterConnect;

impl DefaultAfterConnect {
    pub fn execute(&self, counter: &mut ConnectionCount)
        ensures
            final(counter).total == if old(counter).total > 0 {
                old(counter).total - 1
            } else {
                0
            },
    {
        counter.decrement_total_connected();
    }
}

} // verus!
