//! A WebSocket server core: frame codec, upgrade handshake, per-connection
//! protocol state machine and the connection registry that a readiness loop
//! drives.
use vstd::prelude::*;

pub mod frame;
pub mod handler;
pub mod handshake;
pub mod connection;
pub mod server;
pub mod http;

verus! {

} // verus!
