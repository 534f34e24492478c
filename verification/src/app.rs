//! Application-supplied pipeline stages.

pub mod send;
