//! The host's event queue.
//!
//! The host keeps its typed events in a `bevy::app::Events`. The verifier
//! sees such a queue only through [`queued`].

use vstd::prelude::*;
use bevy::app::Events;
use crate::event::NetworkEvent;

verus! {

/// Makes `bevy::app::Events` known to the verifier as a type whose inside
/// it does not see.
#[verifier::external_type_specification]
#[verifier::external_body]
#[verifier::reject_recursive_types(T)]
pub struct ExEvents<T>(bevy::app::Events<T>);

/// The events that a queue holds, oldest first.
pub uninterp spec fn queued(queue: Events<NetworkEvent>) -> Seq<NetworkEvent>;

/// Calls `Events::send`, which writes the event to the end of the queue's
/// current buffer. Trusted: the queue then holds what it held, followed by
/// the event. (The queue also counts its events in a `usize`; that this
/// counter does not run over is not part of the contract.)
#[verifier::external_body]
pub(crate) fn publish(queue: &mut Events<NetworkEvent>, event: NetworkEvent)
    ensures
        queued(*final(queue)) == queued(*old(queue)).push(event),
{
    queue.send(event)
}

} // verus!
