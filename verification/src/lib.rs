//! A small line-oriented TCP chat protocol: fixed 512-byte frames, a
//! three-stage request pipeline (parse, dispatch by method, serialize),
//! name registration with token handshake, and a broadcast fan-out.
//!
//! This crate holds the verified core: the codec, the attachment map, the
//! default pipeline stages, the registration state, and the per-connection
//! state machine. Socket handling and task plumbing live outside it.

pub mod text;
pub mod color;
pub mod varmap;
pub mod timestamp;
pub mod strmap;
pub mod request;
pub mod response;
pub mod router;
pub mod wares;
pub mod logging;
pub mod app;
pub mod client;
