//! What crosses the boundary between the host tick and the transport worker.

use vstd::prelude::*;
use bytes::Bytes;
use crate::delivery::NetworkDelivery;
use crate::endpoint::{Connection, Endpoint};
use crate::handle::SocketHandle;
use crate::payload::{copy_payload, payload_bytes, payload_to_vec};

verus! {

/// What the worker reports to the host.
#[derive(Debug)]
pub enum NetworkEvent {
    Connected(Connection),
    Disconnected(Connection),
    Message(Connection, Bytes),
}

/// One outbound datagram on its way from the host to the worker.
#[derive(Debug)]
pub struct Message {
    pub message: Bytes,
    pub delivery: NetworkDelivery,
    pub socket_handle: SocketHandle,
    pub destination: Endpoint,
}

impl Message {
    /// Builds the message that carries a copy of `payload`.
    pub fn new(
        destination: Endpoint,
        payload: &[u8],
        delivery: NetworkDelivery,
        socket_handle: SocketHandle,
    ) -> (msg: Self)
        ensures
            msg.destination == destination,
            msg.delivery == delivery,
            msg.socket_handle == socket_handle,
            payload_bytes(msg.message) == payload@,
    {
        Message { message: copy_payload(payload), delivery, socket_handle, destination }
    }

    /// What the message says, without the identity of its buffer.
    pub open spec fn content(self) -> (Endpoint, NetworkDelivery, SocketHandle, Seq<u8>) {
        (self.destination, self.delivery, self.socket_handle, payload_bytes(self.message))
    }

    /// A copy of the payload.
    pub fn payload(&self) -> (data: Vec<u8>)
        ensures
            data@ == payload_bytes(self.message),
    {
        payload_to_vec(&self.message)
    }
}

} // verus!
