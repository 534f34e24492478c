//! The pipeline stages and the connection hooks.
//!
//! Each stage is a small struct whose method does the stage's work on
//! plain values: the starting transform parses a raw frame, one
//! middleware per method decides, and the ending transform serializes
//! the outcome.  The hooks run once per connection, at accept and at
//! exit, against the shared connection tally.

use vstd::prelude::*;

pub mod starting_bytesware;
pub mod middleware;
pub mod ending_bytesware;
pub mod before_connect;
pub mod after_connect;

verus! {

/// How many connections are live.  The hooks move it; the process holds
/// one such tally behind its own synchronization.
#[derive(Clone, Copy, Debug, PartialEq, Eq, Structural)]
pub struct ConnectionCount {
    pub total: u64,
}

impl ConnectionCount {
    pub fn new() -> (c: ConnectionCount)
        ensures
            c.total == 0,
    {
        ConnectionCount { total: 0 }
    }

    /// One more connection; the count saturates rather than wrap.
    pub fn increment_total_connected(&mut self)
        ensures
            final(self).total == if old(self).total < u64::MAX {
                old(self).total + 1
            } else {
                u64::MAX as int
            },
    {
        if self.total < u64::MAX {
            self.total = self.total + 1;
        }
    }

    /// One connection gone; the count stops at zero rather than wrap.
    pub fn decrement_total_connected(&mut self)
        ensures
            final(self).total == if old(self).total > 0 {
                old(self).total - 1
            } else {
                0
            },
    {
        if self.total > 0 {
            self.total = self.total - 1;
        }
    }

    pub fn get_total_connected(&self) -> (n: u64)
        ensures
            n == self.total,
    {
        self.total
    }
}

} // verus!
