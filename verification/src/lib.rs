//! A minimal WebSocket server core: the frame codec, the per-connection
//! handshake/state machine, and the connection registry, with the socket,
//! poll and HTTP-tokenizer plumbing kept outside the library.

pub mod client;
pub mod frame;
pub mod server;
