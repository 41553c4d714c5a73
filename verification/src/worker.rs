//! The decisions of the transport worker.
//!
//! The worker owns the transport sockets and runs in passes. In each pass it
//! first takes in the instructions that the host has queued, then the
//! outbound messages, and then polls every socket it owns and reports what
//! the transport saw. This module decides, for each of these steps, what
//! becomes of the values; moving them is left to the thread that owns the
//! sockets.

use vstd::prelude::*;
use crate::endpoint::Connection;
use crate::event::{Message, NetworkEvent};
use crate::handle::SocketHandle;
use crate::payload::{copy_payload, payload_bytes};
use crate::seqs::{lemma_filter_membership, lemma_push_contains};
use crate::transport::TransportEvent;

verus! {

/// What the host asks of the worker.
#[derive(Debug, Copy, Clone, PartialEq, Eq, Structural)]
pub enum SocketInstruction {
    /// Take over the socket that was bound under this handle.
    AddSocket(SocketHandle),
}

/// What the worker does when a pass is over.
#[derive(Debug, Copy, Clone, PartialEq, Eq, Structural)]
pub enum NextStep {
    /// Start the next pass at once.
    Continue,
    /// Sleep for so many microseconds, then start the next pass.
    Sleep(u64),
    /// Leave the loop: no host is left to work for.
    Exit,
}

/// The longest that an idle worker sleeps between two passes, in
/// microseconds.
pub const IDLE_SLEEP_MICROS: u64 = 1000;

/// The sockets that are owned after one instruction was carried out, when
/// `sockets` were owned before.
pub open spec fn carried_out(sockets: Seq<SocketHandle>, instruction: SocketInstruction) -> Seq<
    SocketHandle,
> {
    match instruction {
        SocketInstruction::AddSocket(handle) => if sockets.contains(handle) {
            sockets
        } else {
            sockets.push(handle)
        },
    }
}

/// The sockets that are owned after `instructions` were carried out, oldest
/// first.
pub open spec fn registered(sockets: Seq<SocketHandle>, instructions: Seq<SocketInstruction>) -> Seq<
    SocketHandle,
>
    decreases instructions.len(),
{
    if instructions.len() == 0 {
        sockets
    } else {
        carried_out(registered(sockets, instructions.drop_last()), instructions.last())
    }
}

/// The predicate that holds of the messages that leave from one of
/// `sockets`.
pub open spec fn sent_from(sockets: Seq<SocketHandle>) -> spec_fn(Message) -> bool {
    |m: Message| sockets.contains(m.socket_handle)
}

/// Carrying out instructions loses no socket and adds exactly those that
/// the instructions name, none of them twice.
pub proof fn lemma_registered_membership(
    sockets: Seq<SocketHandle>,
    instructions: Seq<SocketInstruction>,
)
    ensures
        forall|handle: SocketHandle| #[trigger]
            registered(sockets, instructions).contains(handle) <==> sockets.contains(handle)
                || instructions.contains(SocketInstruction::AddSocket(handle)),
        sockets.no_duplicates() ==> registered(sockets, instructions).no_duplicates(),
    decreases instructions.len(),
{
    if instructions.len() > 0 {
        let init = instructions.drop_last();
        let earlier = registered(sockets, init);
        lemma_registered_membership(sockets, init);
        assert(init.push(instructions.last()) =~= instructions);
        assert forall|handle: SocketHandle| #[trigger]
            registered(sockets, instructions).contains(handle) <==> sockets.contains(handle)
                || instructions.contains(SocketInstruction::AddSocket(handle)) by {
            lemma_push_contains(init, instructions.last(), SocketInstruction::AddSocket(handle));
            match instructions.last() {
                SocketInstruction::AddSocket(added) => {
                    lemma_push_contains(earlier, added, handle);
                },
            }
        }
    } else {
        assert forall|handle: SocketHandle|
            !instructions.contains(SocketInstruction::AddSocket(handle)) by {}
    }
}

/// A message goes to the transport exactly if its socket was owned before
/// the pass or is handed over by an instruction of the same pass: the
/// instructions of a pass are carried out before its messages are routed.
pub proof fn lemma_instructions_come_first(
    sockets: Seq<SocketHandle>,
    instructions: Seq<SocketInstruction>,
    messages: Seq<Message>,
)
    ensures
        forall|m: Message| #[trigger]
            messages.filter(sent_from(registered(sockets, instructions))).contains(m)
                <==> messages.contains(m) && (sockets.contains(m.socket_handle)
                || instructions.contains(SocketInstruction::AddSocket(m.socket_handle))),
{
    lemma_registered_membership(sockets, instructions);
    lemma_filter_membership(messages, sent_from(registered(sockets, instructions)));
}

/// What the host is told of a transport event on the socket `handle`, apart
/// from the identity of a payload's buffer.
pub open spec fn reports(handle: SocketHandle, event: TransportEvent, told: NetworkEvent) -> bool {
    let connection = Connection { addr: event.remote(), socket: handle };
    match event {
        TransportEvent::Packet(_, data) => told matches NetworkEvent::Message(c, buffer)
            && c == connection && payload_bytes(buffer) == data@,
        TransportEvent::Connect(_) => told == NetworkEvent::Connected(connection),
        TransportEvent::Timeout(_) => told == NetworkEvent::Disconnected(connection),
        TransportEvent::Disconnect(_) => told == NetworkEvent::Disconnected(connection),
    }
}

/// The host-independent state of the worker: the handles of the sockets it
/// owns.
pub struct Worker {
    sockets: Vec<SocketHandle>,
}

impl View for Worker {
    type V = Seq<SocketHandle>;

    closed spec fn view(&self) -> Seq<SocketHandle> {
        self.sockets@
    }
}

impl Worker {
    /// No socket is owned twice.
    pub open spec fn wf(&self) -> bool {
        self@.no_duplicates()
    }

    /// A worker that owns no socket.
    pub fn new() -> (worker: Self)
        ensures
            worker.wf(),
            worker@ == Seq::<SocketHandle>::empty(),
    {
        Worker { sockets: Vec::new() }
    }

    /// The handles of the owned sockets, oldest first.
    pub fn sockets(&self) -> (handles: &Vec<SocketHandle>)
        ensures
            handles@ == self@,
    {
        &self.sockets
    }

    /// Whether the worker owns the socket of this handle.
    pub fn owns(&self, handle: SocketHandle) -> (owned: bool)
        ensures
            owned == self@.contains(handle),
    {
        let mut i: usize = 0;
        while i < self.sockets.len()
            invariant
                i <= self.sockets@.len(),
                forall|k: int| 0 <= k < i ==> self.sockets@[k] != handle,
            decreases self.sockets@.len() - i,
        {
            if self.sockets[i] == handle {
                return true;
            }
            i += 1;
        }
        false
    }

    /// Carries out one instruction.
    pub fn apply(&mut self, instruction: SocketInstruction)
        requires
            old(self).wf(),
        ensures
            final(self).wf(),
            final(self)@ == carried_out(old(self)@, instruction),
    {
        match instruction {
            SocketInstruction::AddSocket(handle) => {
                if !self.owns(handle) {
                    self.sockets.push(handle);
                }
            },
        }
    }

    /// The first two steps of a pass: carries out the instructions, oldest
    /// first, and then decides which of the outbound messages go to the
    /// transport. A message whose socket is not owned once the instructions
    /// are carried out is dropped; the others keep their order.
    pub fn take_in(&mut self, instructions: Vec<SocketInstruction>, messages: Vec<Message>) -> (out:
        Vec<Message>)
        requires
            old(self).wf(),
        ensures
            final(self).wf(),
            final(self)@ == registered(old(self)@, instructions@),
            out@ == messages@.filter(sent_from(final(self)@)),
    {
        let ghost owned = self@;
        let mut i: usize = 0;
        proof {
            assert(instructions@.take(0) =~= Seq::empty());
        }
        while i < instructions.len()
            invariant
                i <= instructions@.len(),
                self.wf(),
                self@ == registered(owned, instructions@.take(i as int)),
            decreases instructions@.len() - i,
        {
            let instruction = instructions[i];
            proof {
                let done = instructions@.take(i as int);
                assert(instructions@.take(i + 1) =~= done.push(instruction));
                assert(done.push(instruction).drop_last() =~= done);
            }
            self.apply(instruction);
            i += 1;
        }
        proof {
            assert(instructions@.take(i as int) =~= instructions@);
        }
        self.route(messages)
    }

    /// Decides which outbound messages go to the transport: those whose
    /// socket is owned, in their order.
    pub fn route(&self, messages: Vec<Message>) -> (out: Vec<Message>)
        ensures
            out@ == messages@.filter(sent_from(self@)),
    {
        let ghost all = messages@;
        let mut out: Vec<Message> = Vec::new();
        proof {
            reveal(Seq::filter);
            assert(all.take(0) =~= Seq::empty());
            assert(all.take(0).filter(sent_from(self@)) =~= Seq::empty());
        }
        for message in it: messages
            invariant
                it.seq() == all,
                out@ == all.take(it.index()).filter(sent_from(self@)),
        {
            proof {
                all.take(it.index()).lemma_filter_push(message, sent_from(self@));
                assert(all.take(it.index() + 1) =~= all.take(it.index()).push(message));
            }
            if self.owns(message.socket_handle) {
                out.push(message);
            }
        }
        proof {
            assert(all.take(all.len() as int) =~= all);
        }
        out
    }

    /// What the host is told of one transport event on the socket `handle`:
    /// a connect brings the connection up, a disconnect or a timeout takes
    /// it down, and a packet becomes a message with the same bytes.
    pub fn translate(handle: SocketHandle, event: TransportEvent) -> (told: NetworkEvent)
        ensures
            reports(handle, event, told),
    {
        match event {
            TransportEvent::Packet(addr, data) => NetworkEvent::Message(
                Connection { addr, socket: handle },
                copy_payload(data.as_slice()),
            ),
            TransportEvent::Connect(addr) => NetworkEvent::Connected(
                Connection { addr, socket: handle },
            ),
            TransportEvent::Timeout(addr) => NetworkEvent::Disconnected(
                Connection { addr, socket: handle },
            ),
            TransportEvent::Disconnect(addr) => NetworkEvent::Disconnected(
                Connection { addr, socket: handle },
            ),
        }
    }

    /// The third step of a pass, for one socket: what the host is told of
    /// the events that the socket reported, in their order.
    pub fn report(handle: SocketHandle, events: Vec<TransportEvent>) -> (told: Vec<NetworkEvent>)
        ensures
            told@.len() == events@.len(),
            forall|i: int| 0 <= i < told@.len() ==> reports(handle, events@[i], #[trigger] told@[i]),
    {
        let ghost all = events@;
        let mut told: Vec<NetworkEvent> = Vec::new();
        for event in it: events
            invariant
                it.seq() == all,
                told@.len() == it.index(),
                forall|i: int| 0 <= i < told@.len() ==> reports(handle, all[i], #[trigger] told@[i]),
        {
            told.push(Self::translate(handle, event));
        }
        told
    }

    /// What follows a pass. The worker leaves its loop when a channel to the
    /// host is closed, goes on at once when the pass did any work (an
    /// instruction, a message or a transport event), and sleeps for
    /// [`IDLE_SLEEP_MICROS`] otherwise.
    pub fn after_pass(host_is_gone: bool, work_done: usize) -> (next: NextStep)
        ensures
            next == if host_is_gone {
                NextStep::Exit
            } else if work_done > 0 {
                NextStep::Continue
            } else {
                NextStep::Sleep(IDLE_SLEEP_MICROS)
            },
    {
        if host_is_gone {
            NextStep::Exit
        } else if work_done > 0 {
            NextStep::Continue
        } else {
            NextStep::Sleep(IDLE_SLEEP_MICROS)
        }
    }
}

} // verus!
