//! The processing unit of one worker thread: its identity, its local run
//! queue, its inbox of control messages, and the capabilities other
//! parties hold onto it.
//!
//! Natively, a processing unit runs on its own operating-system thread
//! and resumes stackful coroutines by context switch.  Neither threads
//! nor context switches can appear in verified code, so here the
//! processor is a value inside a [`crate::world::World`], and the driver
//! and scheduling loop are functions of the world; everything either one
//! decides is stated in contracts and proved.

use vstd::prelude::*;
use crate::coroutine::{CoState, Coroutine, ParkOp};
use crate::runqueue::RunQueue;
use crate::runqueue::run_queue_items;

verus! {

/// A non-owning, upgradeable back-reference to a processor: coroutines
/// carry one to remember their preferred home.
#[derive(Clone, Copy, PartialEq, Eq, Structural, Debug)]
pub struct WeakProcessor {
    pub pid: usize,
}

/// A peer-side capability to steal from a processor's run queue,
/// published in that processor's construction-time descriptor.
#[derive(Clone, Copy, PartialEq, Eq, Structural, Debug)]
pub struct PeerStealer {
    pub target: usize,
}

/// A control message delivered to one processor's inbox.
pub enum ProcMessage {
    /// A new peer appeared: remember a stealer onto its run queue.
    NewNeighbor(PeerStealer),
    /// A coroutine became runnable: absorb it into the local run queue.
    Ready(Coroutine),
    /// Terminate the scheduling loop and drain all pending work.
    Shutdown,
}

/// Returned when a message could not be delivered; carries the message
/// back to the sender.
pub struct SendError(pub ProcMessage);

/// A clonable send-capability onto one processor's inbox.  In a
/// threaded executor it would also pin the processor alive; here
/// processors live in the world for its whole life, so the capability
/// is the target's identity alone.
#[derive(Clone, Copy, PartialEq, Eq, Structural, Debug)]
pub struct ProcMessageSender {
    pub target: usize,
}

/// The multi-producer, single-consumer command channel feeding one
/// processor, modelled as the first-in-first-out sequence of messages
/// sent and not yet received.
pub struct Inbox {
    msgs: Vec<ProcMessage>,
}

impl View for Inbox {
    type V = Seq<ProcMessage>;

    closed spec fn view(&self) -> Seq<ProcMessage> {
        self.msgs@
    }
}

impl Inbox {
    /// An empty channel.
    pub fn new() -> (r: Inbox)
        ensures
            r@ == Seq::<ProcMessage>::empty(),
    {
        Inbox { msgs: Vec::new() }
    }

    /// Producer side: append a message.
    pub fn send(&mut self, msg: ProcMessage)
        ensures
            final(self)@ == old(self)@.push(msg),
    {
        self.msgs.push(msg);
    }

    /// Consumer side: take the oldest message, without blocking.
    pub fn try_recv(&mut self) -> (r: Option<ProcMessage>)
        ensures
            old(self)@.len() == 0 ==> r is None && *final(self) == *old(self),
            old(self)@.len() > 0 ==> {
                &&& r == Some(old(self)@.first())
                &&& final(self)@ == old(self)@.drop_first()
            },
    {
        if self.msgs.len() == 0 {
            None
        } else {
            Some(self.msgs.remove(0))
        }
    }

    /// Whether a blocking receive would have to wait.
    pub fn is_empty(&self) -> (r: bool)
        ensures
            r == (self@.len() == 0),
    {
        self.msgs.len() == 0
    }
}

/// Options for spawning a coroutine.  The stack size steers the stack
/// allocation of the coroutine primitive, which has no counterpart in
/// this model; the field is carried for interface fidelity.
#[derive(Clone, Copy, PartialEq, Eq, Structural, Debug)]
pub struct Options {
    pub stack_size: usize,
}

impl Options {
    pub fn new() -> (r: Options)
        ensures
            r == (Options { stack_size: 0 }),
    {
        Options { stack_size: 0 }
    }
}

/// The construction-time descriptor surfaced when a processor is
/// spawned: a send-capability onto its inbox and a stealer onto its run
/// queue.  A threaded executor would also carry the worker thread's
/// join handle; the model has no threads, so the processor's identity
/// stands in.
pub struct Machine {
    pub processor_id: usize,
    pub processor_handle: ProcMessageSender,
    pub stealer: PeerStealer,
}

/// Control handle for the processor a coroutine is currently running on.
///
/// It is ephemeral on purpose: `sched` and `park_with` consume it,
/// because after either one the coroutine may resume on a different
/// processor, and the caller must re-acquire a fresh handle.  The type
/// has no `Clone` for the same reason.  Two handles are equal when they
/// stand for the same processor: identity in the model is the
/// processor's index, where the threaded design compares allocations.
#[derive(PartialEq, Eq, Structural)]
pub struct ProcessorHandle {
    pub pid: usize,
}

impl ProcessorHandle {
    /// Identity of the processor this handle was acquired on.
    pub fn id(&self) -> (r: usize)
        ensures
            r == self.pid,
    {
        self.pid
    }

    /// A fresh send-capability onto this processor's inbox.
    pub fn handle(&self) -> (r: ProcMessageSender)
        ensures
            r == (ProcMessageSender { target: self.pid }),
    {
        ProcMessageSender { target: self.pid }
    }
}

/// Processing unit of a thread.
pub struct Processor {
    /// Stable unique identity; equals this processor's index in the world.
    pub id: usize,
    /// Back-reference handed to newly owned coroutines.
    pub weak_self: WeakProcessor,
    /// The coroutine currently executing on this processor, if any.
    /// Non-empty only while the driver is running on its behalf.
    pub current_coro: Option<Coroutine>,
    /// The carrier passed through the most recent yield: the park
    /// continuation descriptor, or nothing for a zero carrier.  Empty
    /// outside the driver.
    pub carrier: Option<ParkOp>,
    /// The local run queue: owner end and own stealer of the deque.
    pub queue: RunQueue,
    /// Stealers onto peer processors' run queues, grown by `NewNeighbor`.
    pub neighbor_stealers: Vec<PeerStealer>,
    /// The command channel this processor consumes.
    pub inbox: Inbox,
    /// Whether this processor has parked itself with the scheduler.
    pub parked: bool,
    /// False once the processor has shut down and been dropped by the
    /// scheduler; weak back-references then fail to upgrade.
    pub alive: bool,
}

impl PartialEq for Processor {
    /// Two processor values are the same processor exactly when their
    /// identities agree, as the world holds each identity once.
    fn eq(&self, other: &Processor) -> (r: bool)
    {
        self.id == other.id
    }
}

impl Eq for Processor {

}

impl vstd::std_specs::cmp::PartialEqSpecImpl for Processor {
    open spec fn obeys_eq_spec() -> bool {
        true
    }

    open spec fn eq_spec(&self, other: &Processor) -> bool {
        self.id == other.id
    }
}

impl Processor {
    /// This processor's identity.
    pub fn id(&self) -> (r: usize)
        ensures
            r == self.id,
    {
        self.id
    }

    /// The back-reference handed to coroutines that prefer this home.
    pub fn weak_self(&self) -> (r: &WeakProcessor)
        ensures
            *r == self.weak_self,
    {
        &self.weak_self
    }

    /// A stealer onto this processor's run queue, for publication to peers.
    pub fn stealer(&self) -> (r: PeerStealer)
        ensures
            r == (PeerStealer { target: self.id }),
    {
        PeerStealer { target: self.id }
    }

    /// A fresh send-capability onto this processor's inbox.
    pub fn handle(&self) -> (r: ProcMessageSender)
        ensures
            r == (ProcMessageSender { target: self.id }),
    {
        ProcMessageSender { target: self.id }
    }

    /// Whether this processor's inbox holds no message.
    pub fn inbox_empty(&self) -> (r: bool)
        ensures
            r == (self.inbox@.len() == 0),
    {
        self.inbox.is_empty()
    }

    /// The coroutine currently executing on this processor, for
    /// inspection.
    pub fn current_coroutine(&self) -> (r: &Option<Coroutine>)
        ensures
            *r == self.current_coro,
    {
        &self.current_coro
    }

    /// Enqueue a coroutine to be resumed as soon as possible: it becomes
    /// the head of the local queue, so the next pop returns it.
    pub fn ready(&mut self, coroutine: Coroutine)
        ensures
            run_queue_items(final(self).queue) == run_queue_items(old(self).queue).push(coroutine),
            *final(self) == (Processor { queue: final(self).queue, ..*old(self) }),
    {
        self.queue.push(coroutine);
    }

    /// Suspend the currently running coroutine: yield it with state
    /// `Suspended`.
    pub fn sched(&mut self)
        ensures
            old(self).current_coro matches Some(c) ==> *final(self) == (Processor {
                current_coro: Some(Coroutine { state: CoState::Suspended, ..c }),
                carrier: None,
                ..*old(self)
            }),
            old(self).current_coro is None ==> *final(self) == *old(self),
    {
        self.yield_with(CoState::Suspended)
    }

    /// Yield the currently running coroutine with the given state and a
    /// zero carrier.
    pub fn yield_with(&mut self, r: CoState)
        ensures
            old(self).current_coro matches Some(c) ==> *final(self) == (Processor {
                current_coro: Some(Coroutine { state: r, ..c }),
                carrier: None,
                ..*old(self)
            }),
            old(self).current_coro is None ==> *final(self) == *old(self),
    {
        match &mut self.current_coro {
            Some(c) => {
                c.state = r;
                self.carrier = None;
            },
            None => {},
        }
    }
}

} // verus!
