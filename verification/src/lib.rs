//! A UDP rendezvous and relay server core for a peer-to-peer overlay.
//!
//! The crate models the shared on-wire message protocol, the dual-indexed
//! peer registry, the distance-vector router with its de-duplication cache,
//! the rendezvous broker, the debounced membership-broadcast scheduler and
//! the message dispatcher as verified state machines over plain values.
//! Socket I/O, timers and JSON text live outside the library; callers hand
//! in decoded messages and the current time, and carry out the send actions
//! the library returns.

use vstd::prelude::*;

pub mod codec;
pub mod config;
pub mod peer;
pub mod protocol;
pub mod router;
pub mod server;
pub mod stun_protocol;
pub mod stun_server;
pub mod text;
pub mod value;

verus! {

/// An IPv4 transport endpoint as the registry observes it.
#[derive(Clone, Copy, Debug, PartialEq, Eq, Structural, Hash)]
pub struct Addr {
    pub ip: u32,
    pub port: u16,
}

impl Addr {
    pub fn new(ip: u32, port: u16) -> (r: Addr)
        ensures
            r.ip == ip,
            r.port == port,
    {
        Addr { ip, port }
    }
}

} // verus!
