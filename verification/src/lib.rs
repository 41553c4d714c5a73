//! Reliable-UDP networking for a bevy host: the host-side network resource,
//! the per-tick event pump and the decisions of the transport worker, with
//! their contracts proved by Verus.
//!
//! The library holds no socket, channel or thread. What the transport or a
//! channel delivered comes in as an argument, and what has to go to the
//! worker comes back as a value, so that the surrounding program only moves
//! values. The one thing the library writes to itself is the host's event
//! queue, which the pump fills.
//!
//! - [`resource`]: bound sockets, the default socket, live connections, and
//!   the messages that a send or a broadcast makes.
//! - [`pump`]: what a tick publishes for the events that the worker
//!   delivered, and how the connections move with them.
//! - [`worker`]: what the worker does with instructions, outbound messages
//!   and the events of its sockets.
//! - [`laws`]: what holds across these parts.
//! - [`handle`], [`endpoint`], [`delivery`], [`event`], [`transport`]: the
//!   values that the parts exchange.
//! - [`payload`], [`queue`]: the buffers of `bytes` and the event queue of
//!   `bevy`, as far as the verifier knows them.
//! - [`seqs`]: facts about sequences that the proofs share.

pub mod handle;
pub mod endpoint;
pub mod payload;
pub mod delivery;
pub mod event;
pub mod queue;
pub mod seqs;
pub mod resource;
pub mod pump;
pub mod transport;
pub mod worker;
pub mod laws;

pub use crate::delivery::{NetworkDelivery, SendConfig};
pub use crate::endpoint::{Connection, Endpoint};
pub use crate::event::{Message, NetworkEvent};
pub use crate::handle::SocketHandle;
pub use crate::pump::process_network_events;
pub use crate::resource::{BindError, NetworkResource, NetworkView};
pub use crate::transport::{TransportConfig, TransportEvent};
pub use crate::worker::{NextStep, SocketInstruction, Worker, IDLE_SLEEP_MICROS};
