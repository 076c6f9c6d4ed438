//! Connection-level multiplexing engine for a bidirectional RPC framework
//! with publish/subscribe support.
//!
//! A server hosts named services whose methods clients invoke by a dotted
//! identifier; the same connection multiplexes requests, responses,
//! cancellation, per-call timeouts, and a topic-based publish/subscribe
//! overlay with optional acknowledgement modes. This crate holds the
//! verified core: the wire codec, the per-connection broker state machines
//! for both ends, the in-flight call table, and the pub/sub hub. The
//! asynchronous plumbing around the core (sockets, task spawning, channels)
//! stays outside and drives these state machines event by event.

pub mod client;
pub mod codec;
pub mod digits;
pub mod dispatch;
pub mod escape;
pub mod errmsg;
pub mod frame;
pub mod hub;
pub mod laws;
pub mod message;
pub mod wire;
pub mod writer;
pub mod routing;
pub mod server;
pub mod service;
pub mod table;
pub mod transport;
pub mod util;
