//! HTTP/2 (RFC 9113): frame codec, settings, and the session state machine.

pub mod frame;
pub mod hpack;
pub mod session;
pub mod recv;
pub mod send;
pub mod server;
pub mod client;
pub mod delivery;
