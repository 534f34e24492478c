//! Subscribing to the stream.
//!
//! Subscription itself is channel plumbing: the runtime shell hands out
//! its receiver.  Nothing here computes, so nothing is left to verify;
//! the struct stands as the slot a custom subscription hook replaces.

use vstd::prelude::*;

verus! {

/// The default subscription hook.
#[derive(Debug)]
pub struct DefaultSubscribe;

} // verus!
