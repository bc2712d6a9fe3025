//! Rendezvous broker protocol library: length-prefixed wire framing, agent and
//! client identifiers, the control-plane handshake messages with their JSON
//! wire form, the server's pairing registry, and the Noise XX secure channel
//! layered above the framing.

use vstd::prelude::*;

pub mod framing;
pub mod handshake;
pub mod ids;
pub mod json;
pub mod laws;
pub mod secure;
pub mod server;

verus! {

/// Version of the control-plane protocol spoken in handshake frames.
pub const PROTOCOL_VERSION: u16 = 1;

/// Largest payload a frame may carry, in bytes.
pub const MAX_FRAME_BYTES: usize = 65536;

} // verus!
