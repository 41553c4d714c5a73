//! The per-tick event pump: what the host publishes for the events that the
//! worker delivered since the last tick, and how the set of live connections
//! moves with them.
//!
//! Messages pass through at once. Connects and disconnects are held back
//! until all events of the tick are read, cleared of repetitions and of what
//! the connection set already says, and published after the messages:
//! first the connects, then the disconnects.

use vstd::prelude::*;
use crate::endpoint::Connection;
use bevy::app::Events;
use crate::event::NetworkEvent;
use crate::queue::{publish, queued};
use crate::resource::{position_of_connection, NetworkResource, NetworkView};
use crate::seqs::{
    lemma_concat_contains, lemma_filter_keeps_all, lemma_filter_membership,
    lemma_filter_no_duplicates, lemma_filter_twice, lemma_push_contains, not_among, other_than,
};

verus! {

/// The predicate that holds of the events that pass through unchanged:
/// everything but connects and disconnects.
pub open spec fn passes_through() -> spec_fn(NetworkEvent) -> bool {
    |e: NetworkEvent| !(e is Connected) && !(e is Disconnected)
}

/// Wraps a connection into the event that announces it.
pub open spec fn connected() -> spec_fn(Connection) -> NetworkEvent {
    |c: Connection| NetworkEvent::Connected(c)
}

/// Wraps a connection into the event that reports its end.
pub open spec fn disconnected() -> spec_fn(Connection) -> NetworkEvent {
    |c: Connection| NetworkEvent::Disconnected(c)
}

/// The connections that `events` bring up: those with a connect among the
/// events that are not live in `known`, each once, in the order of their
/// first connect.
pub open spec fn announced(events: Seq<NetworkEvent>, known: Seq<Connection>) -> Seq<Connection>
    decreases events.len(),
{
    if events.len() == 0 {
        Seq::empty()
    } else {
        let earlier = announced(events.drop_last(), known);
        match events.last() {
            NetworkEvent::Connected(c) => if !known.contains(c) && !earlier.contains(c) {
                earlier.push(c)
            } else {
                earlier
            },
            _ => earlier,
        }
    }
}

/// The connections that `events` take down: those with a disconnect among
/// the events that are live in `known`, each once, in the order of their
/// first disconnect.
pub open spec fn withdrawn(events: Seq<NetworkEvent>, known: Seq<Connection>) -> Seq<Connection>
    decreases events.len(),
{
    if events.len() == 0 {
        Seq::empty()
    } else {
        let earlier = withdrawn(events.drop_last(), known);
        match events.last() {
            NetworkEvent::Disconnected(c) => if known.contains(c) && !earlier.contains(c) {
                earlier.push(c)
            } else {
                earlier
            },
            _ => earlier,
        }
    }
}

/// What one tick publishes for `events` when `known` is live at its start.
pub open spec fn published(events: Seq<NetworkEvent>, known: Seq<Connection>) -> Seq<
    NetworkEvent,
> {
    events.filter(passes_through()) + announced(events, known).map_values(connected())
        + withdrawn(events, known).map_values(disconnected())
}

/// The connections that are live after the tick.
pub open spec fn connections_after(events: Seq<NetworkEvent>, known: Seq<Connection>) -> Seq<
    Connection,
> {
    (known + announced(events, known)).filter(not_among(withdrawn(events, known)))
}

/// What is announced was not live and is announced once.
pub proof fn lemma_announced_is_new(events: Seq<NetworkEvent>, known: Seq<Connection>)
    ensures
        announced(events, known).no_duplicates(),
        forall|c: Connection| #[trigger]
            announced(events, known).contains(c) ==> !known.contains(c),
    decreases events.len(),
{
    if events.len() > 0 {
        lemma_announced_is_new(events.drop_last(), known);
        let earlier = announced(events.drop_last(), known);
        assert forall|c: Connection| #[trigger]
            announced(events, known).contains(c) implies !known.contains(c) by {
            if !earlier.contains(c) {
                let j = choose|j: int|
                    0 <= j < announced(events, known).len() && announced(events, known)[j] == c;
                if j < earlier.len() {
                    assert(earlier[j] == c);
                }
            }
        }
    }
}

/// What is withdrawn was live and is withdrawn once.
pub proof fn lemma_withdrawn_was_live(events: Seq<NetworkEvent>, known: Seq<Connection>)
    ensures
        withdrawn(events, known).no_duplicates(),
        forall|c: Connection| #[trigger]
            withdrawn(events, known).contains(c) ==> known.contains(c),
    decreases events.len(),
{
    if events.len() > 0 {
        lemma_withdrawn_was_live(events.drop_last(), known);
        let earlier = withdrawn(events.drop_last(), known);
        assert forall|c: Connection| #[trigger]
            withdrawn(events, known).contains(c) implies known.contains(c) by {
            if !earlier.contains(c) {
                let j = choose|j: int|
                    0 <= j < withdrawn(events, known).len() && withdrawn(events, known)[j] == c;
                if j < earlier.len() {
                    assert(earlier[j] == c);
                }
            }
        }
    }
}

/// A connection is announced exactly if the events hold a connect for it
/// and it was not live.
pub proof fn lemma_announced_membership(events: Seq<NetworkEvent>, known: Seq<Connection>)
    ensures
        forall|c: Connection| #[trigger]
            announced(events, known).contains(c) <==> events.contains(NetworkEvent::Connected(c))
                && !known.contains(c),
    decreases events.len(),
{
    if events.len() > 0 {
        let init = events.drop_last();
        let earlier = announced(init, known);
        lemma_announced_membership(init, known);
        assert(init.push(events.last()) =~= events);
        assert forall|c: Connection| #[trigger]
            announced(events, known).contains(c) <==> events.contains(NetworkEvent::Connected(c))
                && !known.contains(c) by {
            lemma_push_contains(init, events.last(), NetworkEvent::Connected(c));
            if let NetworkEvent::Connected(d) = events.last() {
                lemma_push_contains(earlier, d, c);
            }
        }
    } else {
        assert forall|c: Connection| !events.contains(NetworkEvent::Connected(c)) by {}
        assert forall|c: Connection| !(#[trigger] announced(events, known).contains(c)) by {}
    }
}

/// A connection is withdrawn exactly if the events hold a disconnect for it
/// and it was live.
pub proof fn lemma_withdrawn_membership(events: Seq<NetworkEvent>, known: Seq<Connection>)
    ensures
        forall|c: Connection| #[trigger]
            withdrawn(events, known).contains(c) <==> events.contains(
                NetworkEvent::Disconnected(c),
            ) && known.contains(c),
    decreases events.len(),
{
    if events.len() > 0 {
        let init = events.drop_last();
        let earlier = withdrawn(init, known);
        lemma_withdrawn_membership(init, known);
        assert(init.push(events.last()) =~= events);
        assert forall|c: Connection| #[trigger]
            withdrawn(events, known).contains(c) <==> events.contains(
                NetworkEvent::Disconnected(c),
            ) && known.contains(c) by {
            lemma_push_contains(init, events.last(), NetworkEvent::Disconnected(c));
            if let NetworkEvent::Disconnected(d) = events.last() {
                lemma_push_contains(earlier, d, c);
            }
        }
    } else {
        assert forall|c: Connection| !events.contains(NetworkEvent::Disconnected(c)) by {}
        assert forall|c: Connection| !(#[trigger] withdrawn(events, known).contains(c)) by {}
    }
}

/// After a tick a connection is live exactly if it was live and the events
/// hold no disconnect for it, or it was not live and the events hold a
/// connect for it; and no connection is live twice.
pub proof fn lemma_connections_after_membership(events: Seq<NetworkEvent>, known: Seq<Connection>)
    requires
        known.no_duplicates(),
    ensures
        connections_after(events, known).no_duplicates(),
        forall|c: Connection| #[trigger]
            connections_after(events, known).contains(c) <==> if known.contains(c) {
                !events.contains(NetworkEvent::Disconnected(c))
            } else {
                events.contains(NetworkEvent::Connected(c))
            },
{
    let up = announced(events, known);
    let down = withdrawn(events, known);
    lemma_announced_is_new(events, known);
    lemma_announced_membership(events, known);
    lemma_withdrawn_membership(events, known);
    lemma_filter_membership(known + up, not_among(down));
    assert forall|c: Connection| #[trigger]
        connections_after(events, known).contains(c) <==> if known.contains(c) {
            !events.contains(NetworkEvent::Disconnected(c))
        } else {
            events.contains(NetworkEvent::Connected(c))
        } by {
        lemma_concat_contains(known, up, c);
    }
    assert((known + up).no_duplicates()) by {
        assert forall|i: int, j: int|
            0 <= i < known.len() && 0 <= j < up.len() implies known[i] != up[j] by {
            assert(up.contains(up[j]));
        }
        vstd::seq_lib::lemma_no_dup_in_concat(known, up);
    }
    lemma_filter_no_duplicates(known + up, not_among(down));
}

/// Where an event stands in what a tick publishes: among the events that
/// passed through, among the connects, or among the disconnects.
proof fn lemma_published_parts(events: Seq<NetworkEvent>, known: Seq<Connection>, i: int)
    requires
        0 <= i < published(events, known).len(),
    ensures
        ({
            let through = events.filter(passes_through());
            let up = announced(events, known);
            let down = withdrawn(events, known);
            let e = published(events, known)[i];
            &&& published(events, known).len() == through.len() + up.len() + down.len()
            &&& i < through.len() ==> e == through[i] && passes_through()(e) && events.contains(e)
            &&& through.len() <= i < through.len() + up.len() ==> e == NetworkEvent::Connected(
                up[i - through.len()],
            )
            &&& through.len() + up.len() <= i ==> e == NetworkEvent::Disconnected(
                down[i - through.len() - up.len()],
            )
        }),
{
    let through = events.filter(passes_through());
    if i < through.len() {
        lemma_filter_membership(events, passes_through());
        assert(through.contains(through[i]));
    }
}

/// Every connect that a tick publishes is of a connection that was not
/// live before the tick and is live after it, and every disconnect is of
/// one that was live and is not any more.
pub proof fn lemma_lifecycle_matches_connections(events: Seq<NetworkEvent>, known: Seq<Connection>)
    ensures
        forall|c: Connection| #[trigger]
            published(events, known).contains(NetworkEvent::Connected(c)) ==> !known.contains(c)
                && connections_after(events, known).contains(c),
        forall|c: Connection| #[trigger]
            published(events, known).contains(NetworkEvent::Disconnected(c)) ==> known.contains(c)
                && !connections_after(events, known).contains(c),
{
    let all = published(events, known);
    let up = announced(events, known);
    let down = withdrawn(events, known);
    lemma_announced_is_new(events, known);
    lemma_withdrawn_was_live(events, known);
    lemma_filter_membership(known + up, not_among(down));
    assert forall|c: Connection| #[trigger] all.contains(NetworkEvent::Connected(c)) implies
        !known.contains(c) && connections_after(events, known).contains(c) by {
        let i = choose|i: int| 0 <= i < all.len() && all[i] == NetworkEvent::Connected(c);
        lemma_published_parts(events, known, i);
        let k = i - events.filter(passes_through()).len();
        assert(up[k] == c);
        assert(up.contains(c));
        lemma_concat_contains(known, up, c);
    }
    assert forall|c: Connection| #[trigger] all.contains(NetworkEvent::Disconnected(c)) implies
        known.contains(c) && !connections_after(events, known).contains(c) by {
        let i = choose|i: int| 0 <= i < all.len() && all[i] == NetworkEvent::Disconnected(c);
        lemma_published_parts(events, known, i);
        let k = i - events.filter(passes_through()).len() - up.len();
        assert(down[k] == c);
        assert(down.contains(c));
    }
}

/// A tick publishes no connect and no disconnect twice: two equal events at
/// different places of what it publishes are events that passed through.
pub proof fn lemma_lifecycle_published_once(events: Seq<NetworkEvent>, known: Seq<Connection>)
    ensures
        forall|i: int, j: int|
            0 <= i < j < published(events, known).len() && #[trigger] published(events, known)[i]
                == #[trigger] published(events, known)[j] ==> passes_through()(
                published(events, known)[i],
            ),
{
    let all = published(events, known);
    lemma_announced_is_new(events, known);
    lemma_withdrawn_was_live(events, known);
    assert forall|i: int, j: int|
        0 <= i < j < all.len() && #[trigger] all[i] == #[trigger] all[j] implies passes_through()(
        all[i],
    ) by {
        lemma_published_parts(events, known, i);
        lemma_published_parts(events, known, j);
    }
}

/// A tick publishes nothing that was not delivered to it, and it publishes
/// the events that pass through before anything else, all of them, in the
/// order of their delivery.
pub proof fn lemma_published_was_delivered(events: Seq<NetworkEvent>, known: Seq<Connection>)
    ensures
        forall|i: int|
            0 <= i < published(events, known).len() ==> events.contains(
                #[trigger] published(events, known)[i],
            ),
        published(events, known).take(events.filter(passes_through()).len() as int)
            == events.filter(passes_through()),
{
    let all = published(events, known);
    let through = events.filter(passes_through());
    let up = announced(events, known);
    let down = withdrawn(events, known);
    lemma_announced_membership(events, known);
    lemma_withdrawn_membership(events, known);
    assert forall|i: int| 0 <= i < all.len() implies events.contains(#[trigger] all[i]) by {
        lemma_published_parts(events, known, i);
        if through.len() <= i < through.len() + up.len() {
            assert(up.contains(up[i - through.len()]));
        } else if through.len() + up.len() <= i {
            assert(down.contains(down[i - through.len() - up.len()]));
        }
    }
    assert(all.take(through.len() as int) =~= through);
}

/// How the three parts of a tick's outcome grow when one more event is read.
proof fn lemma_read_one(seen: Seq<NetworkEvent>, event: NetworkEvent, known: Seq<Connection>)
    ensures
        announced(seen.push(event), known) == match event {
            NetworkEvent::Connected(c) => if !known.contains(c) && !announced(
                seen,
                known,
            ).contains(c) {
                announced(seen, known).push(c)
            } else {
                announced(seen, known)
            },
            _ => announced(seen, known),
        },
        withdrawn(seen.push(event), known) == match event {
            NetworkEvent::Disconnected(c) => if known.contains(c) && !withdrawn(
                seen,
                known,
            ).contains(c) {
                withdrawn(seen, known).push(c)
            } else {
                withdrawn(seen, known)
            },
            _ => withdrawn(seen, known),
        },
        seen.push(event).filter(passes_through()) == if passes_through()(event) {
            seen.filter(passes_through()).push(event)
        } else {
            seen.filter(passes_through())
        },
{
    assert(seen.push(event).drop_last() =~= seen);
    seen.lemma_filter_push(event, passes_through());
}

/// Nothing is read before the first event.
proof fn lemma_read_none(known: Seq<Connection>)
    ensures
        announced(Seq::empty(), known) == Seq::<Connection>::empty(),
        withdrawn(Seq::empty(), known) == Seq::<Connection>::empty(),
        Seq::<NetworkEvent>::empty().filter(passes_through()) == Seq::<NetworkEvent>::empty(),
{
    reveal(Seq::filter);
}

/// The next announced connection is not live yet, and recording it extends
/// the connection set and the published events by one element each.
proof fn lemma_announce_one(known: Seq<Connection>, added: Seq<Connection>, i: int)
    requires
        0 <= i < added.len(),
        added.no_duplicates(),
        forall|c: Connection| #[trigger] added.contains(c) ==> !known.contains(c),
    ensures
        !(known + added.take(i)).contains(added[i]),
        known + added.take(i + 1) == (known + added.take(i)).push(added[i]),
        added.take(i + 1).map_values(connected()) == added.take(i).map_values(connected()).push(
            NetworkEvent::Connected(added[i]),
        ),
{
    let before = known + added.take(i);
    let conn = added[i];
    assert(added.contains(conn));
    if before.contains(conn) {
        let j = choose|j: int| 0 <= j < before.len() && before[j] == conn;
        if j < known.len() {
            assert(known[j] == conn);
        } else {
            assert(added[j - known.len()] == conn);
        }
    }
    assert(added.take(i + 1) =~= added.take(i).push(conn));
    assert(known + added.take(i + 1) =~= before.push(conn));
    assert(added.take(i + 1).map_values(connected()) =~= added.take(i).map_values(
        connected(),
    ).push(NetworkEvent::Connected(conn)));
}

/// Forgetting the next withdrawn connection is filtering by one more
/// element, and extends the published events by one.
proof fn lemma_withdraw_one(grown: Seq<Connection>, removed: Seq<Connection>, j: int)
    requires
        0 <= j < removed.len(),
    ensures
        grown.filter(not_among(removed.take(j))).filter(other_than(removed[j])) == grown.filter(
            not_among(removed.take(j + 1)),
        ),
        removed.take(j + 1).map_values(disconnected()) == removed.take(j).map_values(
            disconnected(),
        ).push(NetworkEvent::Disconnected(removed[j])),
{
    let conn = removed[j];
    let gone = removed.take(j);
    let next = removed.take(j + 1);
    assert(next =~= gone.push(conn));
    assert forall|x: Connection| #[trigger]
        not_among(next)(x) == (not_among(gone)(x) && other_than(conn)(x)) by {
        if gone.contains(x) {
            let k = choose|k: int| 0 <= k < gone.len() && gone[k] == x;
            assert(next[k] == x);
        }
        if x == conn {
            assert(next[j] == x);
        }
        if next.contains(x) && x != conn {
            let k = choose|k: int| 0 <= k < next.len() && next[k] == x;
            assert(gone[k] == x);
        }
    }
    lemma_filter_twice(grown, not_among(gone), other_than(conn), not_among(next));
    assert(next.map_values(disconnected()) =~= gone.map_values(disconnected()).push(
        NetworkEvent::Disconnected(conn),
    ));
}

/// Reads the events of a tick: publishes those that pass through, and
/// returns the connections that the others announce and withdraw.
fn read_events(
    net: &NetworkResource,
    events: Vec<NetworkEvent>,
    network_events: &mut Events<NetworkEvent>,
) -> (read: (Vec<Connection>, Vec<Connection>))
    ensures
        read.0@ == announced(events@, net@.connections),
        read.1@ == withdrawn(events@, net@.connections),
        queued(*final(network_events)) == queued(*old(network_events)) + events@.filter(
            passes_through(),
        ),
{
    let ghost all = events@;
    let ghost known = net@.connections;
    let ghost held = queued(*network_events);
    let mut added: Vec<Connection> = Vec::new();
    let mut removed: Vec<Connection> = Vec::new();

    proof {
        lemma_read_none(known);
        assert(all.take(0) =~= Seq::empty());
        assert(held + Seq::<NetworkEvent>::empty() =~= held);
    }
    for event in it: events
        invariant
            it.seq() == all,
            known == net@.connections,
            added@ == announced(all.take(it.index()), known),
            removed@ == withdrawn(all.take(it.index()), known),
            queued(*network_events) == held + all.take(it.index()).filter(passes_through()),
    {
        proof {
            let through = all.take(it.index()).filter(passes_through());
            lemma_read_one(all.take(it.index()), event, known);
            assert(all.take(it.index() + 1) =~= all.take(it.index()).push(event));
            assert((held + through).push(event) =~= held + through.push(event));
        }
        match event {
            NetworkEvent::Connected(conn) => {
                if !net.has_connection(conn) && position_of_connection(&added, conn).is_none() {
                    added.push(conn);
                }
            },
            NetworkEvent::Disconnected(conn) => {
                if net.has_connection(conn) && position_of_connection(&removed, conn).is_none() {
                    removed.push(conn);
                }
            },
            other => {
                publish(network_events, other);
            },
        }
    }
    proof {
        assert(all.take(all.len() as int) =~= all);
    }
    (added, removed)
}

/// Records each of `added` as live, in order, and publishes its connect.
fn bring_up(
    net: &mut NetworkResource,
    added: &Vec<Connection>,
    network_events: &mut Events<NetworkEvent>,
)
    requires
        old(net).wf(),
        added@.no_duplicates(),
        forall|c: Connection| #[trigger] added@.contains(c) ==> !old(net)@.connections.contains(c),
    ensures
        final(net).wf(),
        final(net)@ == (NetworkView {
            connections: old(net)@.connections + added@,
            ..old(net)@
        }),
        queued(*final(network_events)) == queued(*old(network_events)) + added@.map_values(
            connected(),
        ),
{
    let ghost start = net@;
    let ghost known = net@.connections;
    let ghost held = queued(*network_events);
    proof {
        assert(added@.take(0) =~= Seq::empty());
        assert(known + added@.take(0) =~= known);
        assert(held + added@.take(0).map_values(connected()) =~= held);
    }
    let mut i: usize = 0;
    while i < added.len()
        invariant
            i <= added@.len(),
            net.wf(),
            net@ == (NetworkView { connections: known + added@.take(i as int), ..start }),
            queued(*network_events) == held + added@.take(i as int).map_values(connected()),
            added@.no_duplicates(),
            forall|c: Connection| #[trigger] added@.contains(c) ==> !known.contains(c),
        decreases added@.len() - i,
    {
        let conn = added[i];
        proof {
            lemma_announce_one(known, added@, i as int);
            let up = added@.take(i as int).map_values(connected());
            assert((held + up).push(NetworkEvent::Connected(conn)) =~= held + up.push(
                NetworkEvent::Connected(conn),
            ));
        }
        net.add_connection(conn);
        publish(network_events, NetworkEvent::Connected(conn));
        i += 1;
    }
    proof {
        assert(added@.take(added@.len() as int) =~= added@);
    }
}

/// Forgets each of `removed`, in order, and publishes its disconnect.
fn take_down(
    net: &mut NetworkResource,
    removed: &Vec<Connection>,
    network_events: &mut Events<NetworkEvent>,
)
    requires
        old(net).wf(),
    ensures
        final(net).wf(),
        final(net)@ == (NetworkView {
            connections: old(net)@.connections.filter(not_among(removed@)),
            ..old(net)@
        }),
        queued(*final(network_events)) == queued(*old(network_events)) + removed@.map_values(
            disconnected(),
        ),
{
    let ghost start = net@;
    let ghost grown = net@.connections;
    let ghost held = queued(*network_events);
    proof {
        assert(removed@.take(0) =~= Seq::empty());
        lemma_filter_keeps_all(grown, not_among(removed@.take(0)));
        assert(held + removed@.take(0).map_values(disconnected()) =~= held);
    }
    let mut j: usize = 0;
    while j < removed.len()
        invariant
            j <= removed@.len(),
            net.wf(),
            net@ == (NetworkView {
                connections: grown.filter(not_among(removed@.take(j as int))),
                ..start
            }),
            queued(*network_events) == held + removed@.take(j as int).map_values(disconnected()),
        decreases removed@.len() - j,
    {
        let conn = removed[j];
        proof {
            lemma_withdraw_one(grown, removed@, j as int);
            let down = removed@.take(j as int).map_values(disconnected());
            assert((held + down).push(NetworkEvent::Disconnected(conn)) =~= held + down.push(
                NetworkEvent::Disconnected(conn),
            ));
        }
        net.remove_connection(conn);
        publish(network_events, NetworkEvent::Disconnected(conn));
        j += 1;
    }
    proof {
        assert(removed@.take(removed@.len() as int) =~= removed@);
    }
}

/// Runs one tick of the pump over the events that the worker delivered,
/// oldest first. Publishes on the host's queue what [`published`] says, in
/// that order, and brings the connection set up to date: what is announced
/// becomes live, what is withdrawn is forgotten.
pub fn process_network_events(
    net: &mut NetworkResource,
    events: Vec<NetworkEvent>,
    network_events: &mut Events<NetworkEvent>,
)
    requires
        old(net).wf(),
    ensures
        final(net).wf(),
        final(net)@.default_socket == old(net)@.default_socket,
        final(net)@.bound_sockets == old(net)@.bound_sockets,
        final(net)@.connections == connections_after(events@, old(net)@.connections),
        queued(*final(network_events)) == queued(*old(network_events)) + published(
            events@,
            old(net)@.connections,
        ),
        forall|c: Connection| #[trigger]
            published(events@, old(net)@.connections).contains(NetworkEvent::Connected(c))
                ==> !old(net)@.connections.contains(c) && final(net)@.connections.contains(c),
        forall|c: Connection| #[trigger]
            published(events@, old(net)@.connections).contains(NetworkEvent::Disconnected(c))
                ==> old(net)@.connections.contains(c) && !final(net)@.connections.contains(c),
{
    let ghost all = events@;
    let ghost known = net@.connections;
    let ghost held = queued(*network_events);

    let (added, removed) = read_events(net, events, network_events);
    proof {
        lemma_announced_is_new(all, known);
    }
    bring_up(net, &added, network_events);
    take_down(net, &removed, network_events);

    proof {
        let through = all.filter(passes_through());
        let up = added@.map_values(connected());
        let down = removed@.map_values(disconnected());
        assert(held + through + up + down =~= held + (through + up + down));
        lemma_lifecycle_matches_connections(all, known);
    }
}

} // verus!
