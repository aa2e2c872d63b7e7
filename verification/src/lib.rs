//! A WebSocket echo server core: a fixed pool of TCP socket
//! slots is driven through open/listen/receive lifecycle steps by a single
//! cooperative poll loop; established connections are upgraded from HTTP to
//! WebSocket and frames are echoed or acknowledged according to their type.
//!
//! The transport (a hardware TCP-offload chip) sits behind the [`transport::Transport`]
//! trait; the WebSocket byte-level codec is called through a small set of
//! trusted wrappers in [`codec`].
pub mod codec;
pub mod errors;
pub mod http;
pub mod laws;
pub mod server;
pub mod transport;
