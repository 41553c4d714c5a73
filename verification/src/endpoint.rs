//! Remote endpoints and connections.

use vstd::prelude::*;
use crate::handle::SocketHandle;

verus! {

/// An IP endpoint: address and port, with the flow label and scope of an
/// IPv6 socket address. Addresses are held as integers in network order of
/// significance, so `127.0.0.1` is `0x7f00_0001`.
#[derive(Debug, Copy, Clone, PartialEq, Eq, Hash, Structural)]
pub enum Endpoint {
    V4 { ip: u32, port: u16 },
    V6 { ip6: u128, port: u16, flowinfo: u32, scope_id: u32 },
}

/// The pair of a remote endpoint and the local socket that talks to it. Two
/// local sockets that talk to one remote are two connections.
#[derive(Debug, Copy, Clone, PartialEq, Eq, Hash, Structural)]
pub struct Connection {
    pub addr: Endpoint,
    pub socket: SocketHandle,
}

} // verus!
