//! Laws that hold across the parts of the library.

use vstd::prelude::*;
use crate::endpoint::{Connection, Endpoint};
use crate::event::{Message, NetworkEvent};
use crate::handle::SocketHandle;
use crate::payload::payload_bytes;
use crate::pump::{
    announced, connected, disconnected, lemma_published_was_delivered, passes_through, published,
    withdrawn,
};
use crate::resource::NetworkView;
use crate::seqs::{lemma_concat_contains, lemma_filter_membership};
use crate::transport::TransportEvent;
use crate::worker::{reports, sent_from};

verus! {

/// Once a socket is bound there is a default socket, it is bound, and a send
/// that chooses no socket leaves from it.
pub proof fn lemma_default_socket_is_bound(net: NetworkView)
    requires
        net.wf(),
        net.bound_sockets.len() > 0,
    ensures
        net.default_socket is Some,
        net.bound_sockets.contains(net.default_socket->0),
        net.resolve(None) == net.default_socket,
{
    assert(net.bound_sockets[0] == net.default_socket->0);
}

/// Binding keeps what was bound, and a default socket, once set, stays.
pub proof fn lemma_bind_keeps_sockets(net: NetworkView, handle: SocketHandle)
    requires
        net.wf(),
    ensures
        net.with_socket(handle).wf(),
        net.with_socket(handle).bound_sockets.contains(handle),
        forall|h: SocketHandle| #[trigger]
            net.bound_sockets.contains(h) ==> net.with_socket(handle).bound_sockets.contains(h),
        net.default_socket is Some ==> net.with_socket(handle).default_socket
            == net.default_socket,
        net.default_socket is None ==> net.with_socket(handle).default_socket == Some(handle),
{
    let after = net.with_socket(handle).bound_sockets;
    if !net.bound_sockets.contains(handle) {
        assert(after[after.len() - 1] == handle);
        assert forall|h: SocketHandle| #[trigger] net.bound_sockets.contains(h) implies after.contains(
            h,
        ) by {
            let k = choose|k: int| 0 <= k < net.bound_sockets.len() && net.bound_sockets[k] == h;
            assert(after[k] == h);
        }
    }
}

/// Whatever a tick publishes is what a worker reports for something that the
/// transport saw: a message for a packet from that endpoint on that socket,
/// a connect for a connect, a disconnect for a disconnect or a timeout. The
/// tick is given the reports `told` of the transport events `observed`, each
/// with the handle of the socket that saw it.
pub proof fn lemma_published_was_observed(
    observed: Seq<(SocketHandle, TransportEvent)>,
    told: Seq<NetworkEvent>,
    known: Seq<Connection>,
)
    requires
        told.len() == observed.len(),
        forall|i: int| 0 <= i < told.len() ==> reports(observed[i].0, observed[i].1, #[trigger] told[i]),
    ensures
        forall|k: int|
            0 <= k < published(told, known).len() ==> exists|i: int|
                0 <= i < observed.len() && reports(
                    observed[i].0,
                    observed[i].1,
                    #[trigger] published(told, known)[k],
                ),
{
    lemma_published_was_delivered(told, known);
    assert forall|k: int| 0 <= k < published(told, known).len() implies exists|i: int|
        0 <= i < observed.len() && reports(
            observed[i].0,
            observed[i].1,
            #[trigger] published(told, known)[k],
        ) by {
        let e = published(told, known)[k];
        assert(told.contains(e));
        let i = choose|i: int| 0 <= i < told.len() && told[i] == e;
        assert(reports(observed[i].0, observed[i].1, told[i]));
    }
}

/// The bytes handed to a send are the bytes of the message that the peer's
/// host publishes, as long as the transport delivers the bytes it was given:
/// a message that the worker routes to the transport carries them unchanged,
/// and what the peer's worker reports for the datagram is published by the
/// peer's pump as it is, tagged with the sender's endpoint and the receiving
/// socket.
pub proof fn lemma_payload_is_preserved(
    msg: Message,
    outbound: Seq<Message>,
    sockets: Seq<SocketHandle>,
    receiver: SocketHandle,
    sender: Endpoint,
    delivered: Vec<u8>,
    told: NetworkEvent,
    events: Seq<NetworkEvent>,
    known: Seq<Connection>,
)
    requires
        outbound.filter(sent_from(sockets)).contains(msg),
        delivered@ == payload_bytes(msg.message),
        reports(receiver, TransportEvent::Packet(sender, delivered), told),
        events.contains(told),
    ensures
        outbound.contains(msg),
        published(events, known).contains(told),
        told matches NetworkEvent::Message(c, buffer) && c == (Connection {
            addr: sender,
            socket: receiver,
        }) && payload_bytes(buffer) == payload_bytes(msg.message),
{
    lemma_filter_membership(outbound, sent_from(sockets));
    lemma_filter_membership(events, passes_through());
    let through = events.filter(passes_through());
    assert(through.contains(told));
    let up = announced(events, known).map_values(connected());
    let down = withdrawn(events, known).map_values(disconnected());
    lemma_concat_contains(through, up, told);
    lemma_concat_contains(through + up, down, told);
}

} // verus!
