//! The configuration keys the core consumes.
use vstd::prelude::*;

verus! {

/// Ports and addresses the hub binds, and the bound on the wait for a
/// connect acknowledgement.
pub struct Settings {
    pub websocket_port: u16,
    pub socks5_port: u16,
    pub bind_address: String,
    pub connect_timeout_seconds: u64,
}

} // verus!
