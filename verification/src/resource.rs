//! The host-side network resource: which sockets are bound, which
//! connections are live, and what a send or a broadcast hands to the worker.

use vstd::prelude::*;
use crate::delivery::{NetworkDelivery, SendConfig};
use crate::endpoint::{Connection, Endpoint};
use crate::event::Message;
use crate::handle::SocketHandle;
use crate::seqs::{lemma_filter_keeps_all, lemma_remove_is_filter, other_than};

verus! {

/// Why a socket could not be bound.
#[derive(Debug, Copy, Clone, PartialEq, Eq, Structural)]
pub enum BindError {
    /// The local endpoint is taken.
    AddressInUse,
    /// The address names no endpoint that a socket can bind to.
    InvalidAddress,
    /// The process may not bind to the endpoint.
    PermissionDenied,
    /// The transport refused for another reason.
    Transport,
}

/// The predicate that holds of the connections of one local socket.
pub open spec fn on_socket(socket: SocketHandle) -> spec_fn(Connection) -> bool {
    |c: Connection| c.socket == socket
}

/// The first element of a sequence, if it has one.
pub open spec fn first_of(handles: Seq<SocketHandle>) -> Option<SocketHandle> {
    if handles.len() == 0 {
        None
    } else {
        Some(handles[0])
    }
}

/// What a [`NetworkResource`] holds, as mathematics.
pub struct NetworkView {
    /// The socket that a send without a choice of socket leaves from.
    pub default_socket: Option<SocketHandle>,
    /// Every handle that `bind` has handed out, oldest first.
    pub bound_sockets: Seq<SocketHandle>,
    /// The live connections, in the order in which they came up.
    pub connections: Seq<Connection>,
}

impl NetworkView {
    /// The state before any socket was bound.
    pub open spec fn empty() -> Self {
        NetworkView {
            default_socket: None,
            bound_sockets: Seq::empty(),
            connections: Seq::empty(),
        }
    }

    /// No handle and no connection is recorded twice, and the default socket
    /// is the socket that was bound first.
    pub open spec fn wf(self) -> bool {
        &&& self.connections.no_duplicates()
        &&& self.bound_sockets.no_duplicates()
        &&& self.default_socket == first_of(self.bound_sockets)
    }

    /// The socket that a send with this choice leaves from: the chosen one,
    /// else the default, and only if that socket is bound.
    pub open spec fn resolve(self, choice: Option<SocketHandle>) -> Option<SocketHandle> {
        let wanted = if choice is Some {
            choice
        } else {
            self.default_socket
        };
        if wanted is Some && self.bound_sockets.contains(wanted->0) {
            wanted
        } else {
            None
        }
    }

    /// The connections of one local socket, in order.
    pub open spec fn targets(self, socket: SocketHandle) -> Seq<Connection> {
        self.connections.filter(on_socket(socket))
    }

    /// The state with `connection` live.
    pub open spec fn with_connection(self, connection: Connection) -> Self {
        NetworkView {
            connections: if self.connections.contains(connection) {
                self.connections
            } else {
                self.connections.push(connection)
            },
            ..self
        }
    }

    /// The state with `connection` gone.
    pub open spec fn without_connection(self, connection: Connection) -> Self {
        NetworkView { connections: self.connections.filter(other_than(connection)), ..self }
    }

    /// The state after `handle` was bound.
    pub open spec fn with_socket(self, handle: SocketHandle) -> Self {
        NetworkView {
            default_socket: if self.default_socket is None {
                Some(handle)
            } else {
                self.default_socket
            },
            bound_sockets: if self.bound_sockets.contains(handle) {
                self.bound_sockets
            } else {
                self.bound_sockets.push(handle)
            },
            connections: self.connections,
        }
    }
}

/// The host's view of the network: bound sockets, the default socket and the
/// live connections.
pub struct NetworkResource {
    default_socket: Option<SocketHandle>,
    bound_sockets: Vec<SocketHandle>,
    connections: Vec<Connection>,
}

impl View for NetworkResource {
    type V = NetworkView;

    closed spec fn view(&self) -> NetworkView {
        NetworkView {
            default_socket: self.default_socket,
            bound_sockets: self.bound_sockets@,
            connections: self.connections@,
        }
    }
}

/// The index at which `value` stands in `items`, if it occurs.
fn position_of_handle(items: &Vec<SocketHandle>, value: SocketHandle) -> (found: Option<usize>)
    ensures
        match found {
            Some(i) => i < items@.len() && items@[i as int] == value,
            None => !items@.contains(value),
        },
{
    let mut i: usize = 0;
    while i < items.len()
        invariant
            i <= items@.len(),
            forall|k: int| 0 <= k < i ==> items@[k] != value,
        decreases items@.len() - i,
    {
        if items[i] == value {
            return Some(i);
        }
        i += 1;
    }
    None
}

/// The index at which `value` stands in `items`, if it occurs.
pub(crate) fn position_of_connection(items: &Vec<Connection>, value: Connection) -> (found: Option<usize>)
    ensures
        match found {
            Some(i) => i < items@.len() && items@[i as int] == value,
            None => !items@.contains(value),
        },
{
    let mut i: usize = 0;
    while i < items.len()
        invariant
            i <= items@.len(),
            forall|k: int| 0 <= k < i ==> items@[k] != value,
        decreases items@.len() - i,
    {
        if items[i] == value {
            return Some(i);
        }
        i += 1;
    }
    None
}

impl NetworkResource {
    /// The invariant of the resource; see [`NetworkView::wf`].
    pub open spec fn wf(&self) -> bool {
        self@.wf()
    }

    /// A resource with no socket bound and no connection live.
    pub fn new() -> (net: Self)
        ensures
            net.wf(),
            net@ == NetworkView::empty(),
    {
        NetworkResource { default_socket: None, bound_sockets: Vec::new(), connections: Vec::new() }
    }

    /// The socket that sends leave from when they choose none.
    pub fn default_socket(&self) -> (socket: Option<SocketHandle>)
        ensures
            socket == self@.default_socket,
    {
        self.default_socket
    }

    /// The handles handed out so far, oldest first.
    pub fn bound_sockets(&self) -> (handles: &Vec<SocketHandle>)
        ensures
            handles@ == self@.bound_sockets,
    {
        &self.bound_sockets
    }

    /// The live connections.
    pub fn connections(&self) -> (all: &Vec<Connection>)
        ensures
            all@ == self@.connections,
    {
        &self.connections
    }

    /// The live connections of one local socket, in the order of
    /// [`connections`](Self::connections).
    pub fn connections_for_socket(&self, socket: SocketHandle) -> (found: Vec<Connection>)
        ensures
            found@ == self@.targets(socket),
    {
        let mut found: Vec<Connection> = Vec::new();
        let mut i: usize = 0;
        proof {
            reveal(Seq::filter);
            assert(self.connections@.take(0) =~= Seq::empty());
            assert(self.connections@.take(0).filter(on_socket(socket)) =~= Seq::empty());
        }
        while i < self.connections.len()
            invariant
                i <= self.connections@.len(),
                found@ == self.connections@.take(i as int).filter(on_socket(socket)),
            decreases self.connections@.len() - i,
        {
            let c = self.connections[i];
            proof {
                let seen = self.connections@.take(i as int);
                assert(self.connections@.take(i + 1) =~= seen.push(c));
                seen.lemma_filter_push(c, on_socket(socket));
            }
            if c.socket == socket {
                found.push(c);
            }
            i += 1;
        }
        proof {
            assert(self.connections@.take(i as int) =~= self.connections@);
        }
        found
    }

    /// Whether `connection` is live.
    pub fn has_connection(&self, connection: Connection) -> (live: bool)
        ensures
            live == self@.connections.contains(connection),
    {
        position_of_connection(&self.connections, connection).is_some()
    }

    /// Records `connection` as live. Recording a live connection again
    /// changes nothing.
    pub fn add_connection(&mut self, connection: Connection)
        requires
            old(self).wf(),
        ensures
            final(self).wf(),
            final(self)@ == old(self)@.with_connection(connection),
    {
        if self.has_connection(connection) {
            return ;
        }
        self.connections.push(connection);
    }

    /// Forgets `connection`. Forgetting a connection that is not live changes
    /// nothing; the others keep their order.
    pub fn remove_connection(&mut self, connection: Connection)
        requires
            old(self).wf(),
        ensures
            final(self).wf(),
            final(self)@ == old(self)@.without_connection(connection),
    {
        match position_of_connection(&self.connections, connection) {
            Some(index) => {
                proof {
                    lemma_remove_is_filter(self.connections@, index as int);
                }
                self.connections.remove(index);
            },
            None => {
                proof {
                    lemma_filter_keeps_all(self.connections@, other_than(connection));
                }
            },
        }
    }

    /// Records a socket that the transport has tried to bind. `transport` is
    /// the outcome of that attempt. On success a new handle is drawn and
    /// recorded, and becomes the default socket if there was none; on failure
    /// the error is handed on and nothing is recorded.
    pub fn bind(&mut self, transport: Result<(), BindError>) -> (result: Result<
        SocketHandle,
        BindError,
    >)
        requires
            old(self).wf(),
        ensures
            final(self).wf(),
            match transport {
                Ok(_) => result is Ok && final(self)@ == old(self)@.with_socket(result->Ok_0),
                Err(e) => result == Err::<SocketHandle, BindError>(e) && final(self)@ == old(
                    self,
                )@,
            },
            result is Ok ==> final(self)@.bound_sockets.contains(result->Ok_0),
            result is Ok && old(self)@.default_socket is None ==> final(self)@.default_socket
                == Some(result->Ok_0),
            old(self)@.default_socket is Some ==> final(self)@.default_socket == old(
                self,
            )@.default_socket,
    {
        match transport {
            Err(e) => Err(e),
            Ok(_) => {
                let handle = SocketHandle::new();
                if position_of_handle(&self.bound_sockets, handle).is_none() {
                    self.bound_sockets.push(handle);
                    proof {
                        assert(self.bound_sockets@[self.bound_sockets@.len() - 1] == handle);
                    }
                }
                if self.default_socket.is_none() {
                    self.default_socket = Some(handle);
                }
                Ok(handle)
            },
        }
    }

    /// The socket that a send with this choice would leave from, or `None`
    /// where no socket was chosen and none is bound, or the chosen handle is
    /// not one of this resource.
    pub fn resolve_socket(&self, choice: Option<SocketHandle>) -> (socket: Option<SocketHandle>)
        ensures
            socket == self@.resolve(choice),
    {
        let wanted = if choice.is_some() {
            choice
        } else {
            self.default_socket
        };
        match wanted {
            Some(handle) => {
                if position_of_handle(&self.bound_sockets, handle).is_some() {
                    Some(handle)
                } else {
                    None
                }
            },
            None => None,
        }
    }

    /// The chosen socket, or the default one. The caller has made sure that
    /// there is such a socket and that it is bound.
    pub fn get_socket_or_default(&self, choice: Option<SocketHandle>) -> (socket: SocketHandle)
        requires
            self@.resolve(choice) is Some,
        ensures
            self@.resolve(choice) == Some(socket),
    {
        let wanted = if choice.is_some() {
            choice
        } else {
            self.default_socket
        };
        wanted.unwrap()
    }

    /// The message that sends `message` to `addr` from the default socket.
    pub fn send(&self, addr: Endpoint, message: &[u8], delivery: NetworkDelivery) -> (msg: Message)
        requires
            self@.resolve(None) is Some,
        ensures
            msg.content() == (addr, delivery, self@.resolve(None)->0, message@),
    {
        self.send_with_config(addr, message, delivery, SendConfig::default())
    }

    /// One message for every live connection of the default socket.
    pub fn broadcast(&self, message: &[u8], delivery: NetworkDelivery) -> (msgs: Vec<Message>)
        requires
            self@.resolve(None) is Some,
        ensures
            msgs@.len() == self@.targets(self@.resolve(None)->0).len(),
            forall|i: int|
                0 <= i < msgs@.len() ==> (#[trigger] msgs@[i]).content() == (
                    self@.targets(self@.resolve(None)->0)[i].addr,
                    delivery,
                    self@.resolve(None)->0,
                    message@,
                ),
    {
        self.broadcast_with_config(message, delivery, SendConfig::default())
    }

    /// The message that sends a copy of `message` to `addr` from the socket
    /// that `config` chooses, or from the default socket.
    pub fn send_with_config(
        &self,
        addr: Endpoint,
        message: &[u8],
        delivery: NetworkDelivery,
        config: SendConfig,
    ) -> (msg: Message)
        requires
            self@.resolve(config.socket) is Some,
        ensures
            msg.content() == (addr, delivery, self@.resolve(config.socket)->0, message@),
    {
        let socket = self.get_socket_or_default(config.socket);
        Message::new(addr, message, delivery, socket)
    }

    /// One message for every connection that is live on the chosen socket
    /// now, in the order of [`connections`](Self::connections), each with a
    /// copy of `message`. Connections that come up later get none.
    pub fn broadcast_with_config(
        &self,
        message: &[u8],
        delivery: NetworkDelivery,
        config: SendConfig,
    ) -> (msgs: Vec<Message>)
        requires
            self@.resolve(config.socket) is Some,
        ensures
            msgs@.len() == self@.targets(self@.resolve(config.socket)->0).len(),
            forall|i: int|
                0 <= i < msgs@.len() ==> (#[trigger] msgs@[i]).content() == (
                    self@.targets(self@.resolve(config.socket)->0)[i].addr,
                    delivery,
                    self@.resolve(config.socket)->0,
                    message@,
                ),
    {
        let socket = self.get_socket_or_default(config.socket);
        let broadcast_to = self.connections_for_socket(socket);
        let mut msgs: Vec<Message> = Vec::new();
        let mut i: usize = 0;
        while i < broadcast_to.len()
            invariant
                i <= broadcast_to@.len(),
                msgs@.len() == i,
                forall|k: int|
                    0 <= k < i ==> (#[trigger] msgs@[k]).content() == (
                        broadcast_to@[k].addr,
                        delivery,
                        socket,
                        message@,
                    ),
            decreases broadcast_to@.len() - i,
        {
            let conn = broadcast_to[i];
            msgs.push(Message::new(conn.addr, message, delivery, socket));
            i += 1;
        }
        msgs
    }
}

} // verus!
