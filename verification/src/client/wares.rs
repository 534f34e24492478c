//! The client's request builders and reply readers, one per verb.

pub mod bind;
pub mod handshake;
pub mod send;
pub mod subscribe;
pub mod terminate;
