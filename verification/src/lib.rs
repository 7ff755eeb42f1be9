//! photon: HTTP/1.1, HTTP/2 and QUIC protocol logic with machine-checked contracts.
//!
//! The crate holds the parts of the protocol stack that decide and compute:
//! frame codecs, settings, varints, the HTTP/2 session state machine, HTTP/1
//! message parsing and head formatting. Sockets, timers and the async runtime
//! live in the companion application crate, which drives these functions.

pub mod atomic_arc;
pub mod buf;
pub mod codes;
pub mod text;
pub mod encoding;
pub mod errno;
pub mod shared;
pub mod quic;
pub mod runtime;
pub mod http1;
pub mod http2;
pub mod websocket;
