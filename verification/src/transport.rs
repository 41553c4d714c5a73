//! What the library knows of the reliable-UDP transport: the settings that
//! sockets are bound with and the events that a socket reports.

use vstd::prelude::*;
use crate::endpoint::Endpoint;

verus! {

/// The settings of a transport socket that this library fixes. Times are in
/// milliseconds.
#[derive(Debug, Copy, Clone, PartialEq, Eq)]
pub struct TransportConfig {
    /// A peer that stays silent for this long is taken for gone.
    pub idle_connection_timeout_ms: u64,
    /// A heartbeat goes out when nothing else was sent for this long.
    pub heartbeat_interval_ms: Option<u64>,
    /// How many reliable packets may await their acknowledgement.
    pub max_packets_in_flight: u16,
}

impl Default for TransportConfig {
    /// The settings that every socket is bound with.
    fn default() -> (config: Self)
        ensures
            config.idle_connection_timeout_ms == 2000,
            config.heartbeat_interval_ms == Some(1000u64),
            config.max_packets_in_flight == 2048,
    {
        TransportConfig {
            idle_connection_timeout_ms: 2000,
            heartbeat_interval_ms: Some(1000),
            max_packets_in_flight: 2048,
        }
    }
}

/// What a transport socket reports when it is polled.
#[derive(Debug)]
pub enum TransportEvent {
    /// A datagram arrived from the endpoint.
    Packet(Endpoint, Vec<u8>),
    /// A connection with the endpoint is established.
    Connect(Endpoint),
    /// The endpoint has been silent for longer than the idle timeout.
    Timeout(Endpoint),
    /// The connection with the endpoint has ended.
    Disconnect(Endpoint),
}

impl TransportEvent {
    /// The endpoint that the event is about.
    pub open spec fn remote(self) -> Endpoint {
        match self {
            TransportEvent::Packet(addr, _) => addr,
            TransportEvent::Connect(addr) => addr,
            TransportEvent::Timeout(addr) => addr,
            TransportEvent::Disconnect(addr) => addr,
        }
    }
}

} // verus!
