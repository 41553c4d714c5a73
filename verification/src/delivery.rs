//! Delivery guarantees and per-send options.

use vstd::prelude::*;
use crate::handle::SocketHandle;

verus! {

/// How the transport is to deliver one message. The sequenced and ordered
/// classes carry an optional stream, which keeps their ordering apart from
/// that of other streams between the same two sockets.
#[derive(Debug, Copy, Clone, PartialEq)]
pub enum NetworkDelivery {
    UnreliableUnordered,
    UnreliableSequenced(Option<u8>),
    ReliableUnordered,
    ReliableSequenced(Option<u8>),
    ReliableOrdered(Option<u8>),
}

/// Options of one send.
pub struct SendConfig {
    /// The socket to send from; `None` selects the default socket.
    pub socket: Option<SocketHandle>,
}

impl Default for SendConfig {
    fn default() -> (config: Self)
        ensures
            config.socket.is_none(),
    {
        SendConfig { socket: None }
    }
}

} // verus!
