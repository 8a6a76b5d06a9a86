//! Verified core of a TCP reverse tunnel: the control-channel message
//! grammar and codec, the handshake authenticators, the server's
//! rendezvous table, and the handshake/dispatch state machines that the
//! networked runtime drives.

pub mod digits;
pub mod apikey;
pub mod auth;
pub mod client;
pub mod codec;
pub mod escape;
pub mod frame;
pub mod ids;
pub mod msg;
pub mod rendezvous;
pub mod server;

use vstd::prelude::*;

verus! {

/// TCP port on which the server listens for control connections.
pub const CONTROL_PORT: u16 = 7835;

/// Timeout for connects and framed reads during handshakes, in ms.
pub const NETWORK_TIMEOUT_MS: u64 = 3000;

/// How long a parked connection waits for its claim, in ms.
pub const PARK_TIMEOUT_MS: u64 = 10000;

/// Heartbeat cadence on an idle tunnel, in ms.
pub const HEARTBEAT_INTERVAL_MS: u64 = 500;

/// Cadence of the rendezvous sweep, in ms.
pub const SWEEP_INTERVAL_MS: u64 = 1000;

/// Timeout of the API-key validation request, in ms.
pub const HTTP_TIMEOUT_MS: u64 = 5000;

} // verus!
