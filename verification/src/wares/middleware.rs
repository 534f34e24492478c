//! Default middlewares, one per method.

pub mod default_bind;
pub mod default_handshake;
pub mod default_send;
