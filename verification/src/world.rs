//! The world: the shared state a set of processors lives in.
//!
//! One world stands for one run of the executor: a fixed table of
//! programs (the coroutine bodies), the processors, the global scheduler's
//! park registry, the external park slots, a shared effect log, and the
//! bookkeeping of every coroutine ever created.  In a threaded executor
//! the workers run concurrently; their interleaving here is whatever
//! order the world's owner calls `schedule` in, and the driver's
//! contracts hold for every choice.

use vstd::prelude::*;
use crate::coroutine::{CoState, Coroutine, LogEntry, ParkOp, Step};
use crate::processor::{
    Inbox, Machine, Options, ProcMessage, ProcMessageSender, Processor, ProcessorHandle,
    PeerStealer, SendError, WeakProcessor,
};
use crate::runqueue::{run_queue_items, RunQueue};

verus! {

broadcast use vstd::seq_lib::group_seq_properties;

/// The part of the global scheduler a processor talks to: the registry
/// of parked processors, each recorded with a send-capability the
/// scheduler can wake it through.
pub struct Scheduler {
    pub parked: Vec<Option<ProcMessageSender>>,
}

impl Scheduler {
    /// Record a processor as idle, with a capability to wake it.
    pub fn park_processor(&mut self, id: usize, handle: ProcMessageSender)
        ensures
            id < old(self).parked@.len() ==> final(self).parked@ == old(self).parked@.update(
                id as int,
                Some(handle),
            ),
            id >= old(self).parked@.len() ==> *final(self) == *old(self),
    {
        if id < self.parked.len() {
            self.parked.set(id, Some(handle));
        }
    }

    /// Clear a processor's idle record.
    pub fn unpark_processor(&mut self, id: usize)
        ensures
            id < old(self).parked@.len() ==> final(self).parked@ == old(self).parked@.update(
                id as int,
                None,
            ),
            id >= old(self).parked@.len() ==> *final(self) == *old(self),
    {
        if id < self.parked.len() {
            self.parked.set(id, None);
        }
    }
}

/// All state of one executor run.
pub struct World {
    /// The coroutine bodies: a coroutine's `program` field indexes here.
    pub programs: Vec<Vec<Step>>,
    /// The processors, each at the index equal to its identity.
    pub procs: Vec<Processor>,
    /// The global scheduler's park registry.
    pub scheduler: Scheduler,
    /// External slots a park continuation may store a handle into,
    /// standing for third-party synchronization objects: a handle parked
    /// there waits for an external event before it is re-delivered.
    pub slots: Vec<Option<Coroutine>>,
    /// The shared effect log all coroutines emit into.
    pub log: Vec<LogEntry>,
    /// Identities of coroutines that ran to completion, in completion order.
    pub finished: Vec<usize>,
    /// Identities of coroutines whose handle was dropped without
    /// completion: shutdown drain, zero-carrier parks, discarding
    /// continuations.
    pub dropped: Vec<usize>,
    /// Next fresh coroutine identity.
    pub next_id: usize,
    /// The processor whose driver is currently executing a coroutine,
    /// if any: the model of the per-thread processor slot.
    pub running: Option<usize>,
}

/// No coroutine held in a run queue is finished: a finished handle is
/// destroyed, never enqueued.
pub open spec fn coros_ok(s: Seq<Coroutine>) -> bool {
    forall|i: int| 0 <= i < s.len() ==> (#[trigger] s[i]).state != CoState::Finished
}

/// No `Ready` message in an inbox carries a finished coroutine.
pub open spec fn msgs_ok(s: Seq<ProcMessage>) -> bool {
    forall|i: int|
        0 <= i < s.len() ==> ((#[trigger] s[i]) matches ProcMessage::Ready(c) ==> c.state
            != CoState::Finished)
}

/// Well-formedness of one processor at its index: identity fields agree
/// with the index, the driver is not mid-resume, and held coroutines are
/// drivable.
pub open spec fn proc_wf(p: Processor, i: int) -> bool {
    &&& p.id == i
    &&& p.weak_self.pid == p.id
    &&& p.current_coro is None
    &&& p.carrier is None
    &&& coros_ok(run_queue_items(p.queue))
    &&& msgs_ok(p.inbox@)
}

impl World {
    /// Well-formedness between driver operations.
    pub open spec fn wf(self) -> bool {
        &&& self.running is None
        &&& forall|i: int| 0 <= i < self.procs@.len() ==> proc_wf(#[trigger] self.procs@[i], i)
    }

    /// A fresh world: no processors, no coroutines, `slot_count` empty
    /// park slots.
    pub fn new(programs: Vec<Vec<Step>>, slot_count: usize) -> (r: World)
        ensures
            r.wf(),
            r.programs@ == programs@,
            r.procs@.len() == 0,
            r.scheduler.parked@.len() == 0,
            r.slots@.len() == slot_count as int,
            forall|i: int| 0 <= i < slot_count as int ==> r.slots@[i] is None,
            r.log@.len() == 0,
            r.finished@.len() == 0,
            r.dropped@.len() == 0,
            r.next_id == 0,
            r.running is None,
    {
        let mut slots: Vec<Option<Coroutine>> = Vec::new();
        let mut i: usize = 0;
        while i < slot_count
            invariant
                i <= slot_count,
                slots@.len() == i as int,
                forall|j: int| 0 <= j < i as int ==> slots@[j] is None,
            decreases slot_count - i,
        {
            slots.push(None);
            i += 1;
        }
        World {
            programs,
            procs: Vec::new(),
            scheduler: Scheduler { parked: Vec::new() },
            slots,
            log: Vec::new(),
            finished: Vec::new(),
            dropped: Vec::new(),
            next_id: 0,
            running: None,
        }
    }

    /// Create a fresh suspended coroutine running the given program, not
    /// yet owned by any processor.  Returns nothing when the program
    /// index is out of range or the identity space is exhausted.
    pub fn new_coroutine(&mut self, program: usize) -> (r: Option<Coroutine>)
        ensures
            program < old(self).programs@.len() && old(self).next_id < usize::MAX ==> {
                &&& r == Some(
                    (Coroutine {
                        id: old(self).next_id,
                        program: program,
                        pc: 0,
                        state: CoState::Suspended,
                        preferred: None,
                    }),
                )
                &&& *final(self) == (World { next_id: (old(self).next_id + 1) as usize, ..*old(self) })
            },
            !(program < old(self).programs@.len() && old(self).next_id < usize::MAX) ==> {
                &&& r is None
                &&& *final(self) == *old(self)
            },
    {
        if program < self.programs.len() && self.next_id < usize::MAX {
            let id = self.next_id;
            self.next_id = self.next_id + 1;
            Some(
                Coroutine {
                    id,
                    program,
                    pc: 0,
                    state: CoState::Suspended,
                    preferred: None,
                },
            )
        } else {
            None
        }
    }

    /// Take the coroutine out of an external park slot, as the third
    /// party owning that slot does when its event fires.
    pub fn take_slot(&mut self, s: usize) -> (r: Option<Coroutine>)
        ensures
            s < old(self).slots@.len() ==> {
                &&& r == old(self).slots@[s as int]
                &&& *final(self) == (World { slots: final(self).slots, ..*old(self) })
                &&& final(self).slots@ == old(self).slots@.update(s as int, None)
            },
            s >= old(self).slots@.len() ==> r is None && *final(self) == *old(self),
    {
        if s < self.slots.len() {
            let mut taken: Option<Coroutine> = None;
            self.slots.set_and_swap(s, &mut taken);
            taken
        } else {
            None
        }
    }

    /// The values of the shared effect log, in emission order.
    pub fn log_values(&self) -> (r: Vec<u64>)
        ensures
            r@.len() == self.log@.len(),
            forall|i: int| 0 <= i < r@.len() ==> r@[i] == self.log@[i].value,
    {
        let mut r: Vec<u64> = Vec::new();
        let mut i: usize = 0;
        while i < self.log.len()
            invariant
                i <= self.log@.len(),
                r@.len() == i as int,
                forall|j: int| 0 <= j < i as int ==> r@[j] == self.log@[j].value,
            decreases self.log@.len() - i,
        {
            r.push(self.log[i].value);
            i += 1;
        }
        r
    }
}

impl ProcMessageSender {
    /// Deliver a message to the target processor's inbox.  The receiver
    /// of a live processor never goes away, so delivery fails only for a
    /// capability onto a processor the world never held; the message is
    /// then handed back.
    pub fn send(&self, w: &mut World, proc_msg: ProcMessage) -> (r: Result<(), SendError>)
        ensures
            self.target < old(w).procs@.len() ==> {
                &&& r is Ok
                &&& final(w).procs@.len() == old(w).procs@.len()
                &&& final(w).procs@[self.target as int].inbox@ == old(w).procs@[self.target as int].inbox@.push(proc_msg)
                &&& final(w).procs@[self.target as int] == (Processor {
                    inbox: final(w).procs@[self.target as int].inbox,
                    ..old(w).procs@[self.target as int]
                })
                &&& forall|j: int|
                    0 <= j < old(w).procs@.len() && j != self.target as int
                        ==> final(w).procs@[j] == old(w).procs@[j]
                &&& *final(w) == (World { procs: final(w).procs, ..*old(w) })
            },
            self.target >= old(w).procs@.len() ==> {
                &&& r matches Err(e) && e.0 == proc_msg
                &&& *final(w) == *old(w)
            },
    {
        if self.target < w.procs.len() {
            let pr = &mut w.procs[self.target];
            pr.inbox.send(proc_msg);
            Ok(())
        } else {
            Err(SendError(proc_msg))
        }
    }
}

impl WeakProcessor {
    /// Upgrade the back-reference: succeeds exactly while the processor
    /// is still alive, and then yields the same processor for the
    /// world's whole life.
    pub fn upgrade<'a>(&self, w: &'a World) -> (r: Option<&'a Processor>)
        ensures
            (r is Some) == (self.pid < w.procs@.len() && w.procs@[self.pid as int].alive),
            r matches Some(p) ==> *p == w.procs@[self.pid as int],
    {
        if self.pid < w.procs.len() {
            let p = &w.procs[self.pid];
            if p.alive {
                Some(p)
            } else {
                None
            }
        } else {
            None
        }
    }
}

impl Processor {
    /// Construct a new processor in the world and surface its
    /// construction-time descriptor.  A threaded executor would also
    /// start the worker thread here; this model's worker loop is
    /// `World::schedule`, run by the world's owner.
    pub fn spawn(w: &mut World) -> (r: Machine)
        requires
            old(w).wf(),
        ensures
            final(w).wf(),
            old(w).procs@.len() < usize::MAX ==> {
                &&& final(w).procs@.len() == old(w).procs@.len() + 1
                &&& r.processor_id == old(w).procs@.len()
                &&& r.processor_handle == (ProcMessageSender { target: r.processor_id })
                &&& r.stealer == (PeerStealer { target: r.processor_id })
                &&& {
                    let p = final(w).procs@[old(w).procs@.len() as int];
                    &&& p.id == r.processor_id
                    &&& p.alive
                    &&& !p.parked
                    &&& run_queue_items(p.queue).len() == 0
                    &&& p.inbox@.len() == 0
                    &&& p.neighbor_stealers@.len() == 0
                }
                &&& forall|j: int|
                    0 <= j < old(w).procs@.len() ==> final(w).procs@[j] == old(w).procs@[j]
                &&& final(w).scheduler.parked@ == old(w).scheduler.parked@.push(None)
                &&& *final(w) == (World {
                    procs: final(w).procs,
                    scheduler: final(w).scheduler,
                    ..*old(w)
                })
            },
            old(w).procs@.len() >= usize::MAX ==> *final(w) == *old(w),
    {
        if w.procs.len() < usize::MAX {
            let id = w.procs.len();
            let p = Processor {
                id,
                weak_self: WeakProcessor { pid: id },
                current_coro: None,
                carrier: None,
                queue: RunQueue::new(),
                neighbor_stealers: Vec::new(),
                inbox: Inbox::new(),
                parked: false,
                alive: true,
            };
            let processor_handle = p.handle();
            let stealer = p.stealer();
            w.procs.push(p);
            w.scheduler.parked.push(None);
            Machine { processor_id: id, processor_handle, stealer }
        } else {
            Machine {
                processor_id: usize::MAX,
                processor_handle: ProcMessageSender { target: usize::MAX },
                stealer: PeerStealer { target: usize::MAX },
            }
        }
    }

    /// Borrow the global scheduler, valid for the processor's entire
    /// lifetime.
    pub fn scheduler<'a>(&self, w: &'a World) -> (r: &'a Scheduler)
        ensures
            *r == w.scheduler,
    {
        &w.scheduler
    }

    /// The processor of the executing thread: the model of consulting
    /// the thread-local processor slot, meaningful only from inside a
    /// running coroutine.
    pub fn current(w: &World) -> (r: Option<ProcessorHandle>)
        ensures
            (r is Some) == (w.running is Some),
            r matches Some(h) ==> w.running == Some(h.pid),
    {
        match w.running {
            Some(pid) => Some(ProcessorHandle { pid }),
            None => None,
        }
    }
}

impl ProcessorHandle {
    /// Borrow the global scheduler.
    pub fn scheduler<'a>(&self, w: &'a World) -> (r: &'a Scheduler)
        ensures
            *r == w.scheduler,
    {
        &w.scheduler
    }

    /// Borrow the coroutine currently running on this handle's
    /// processor, for inspection.
    pub fn current<'a>(&self, w: &'a World) -> (r: Option<&'a Coroutine>)
        ensures
            (r is Some) == (self.pid < w.procs@.len() && w.procs@[self.pid as int].current_coro is Some),
            r matches Some(c) ==> Some(*c) == w.procs@[self.pid as int].current_coro,
    {
        if self.pid < w.procs.len() {
            w.procs[self.pid].current_coroutine().as_ref()
        } else {
            None
        }
    }

    /// Push a coroutine onto this processor's local run queue, making it
    /// the head: the next pop returns it.  A capability onto a processor
    /// the world never held drops the handle instead.
    pub fn ready(&self, w: &mut World, coroutine: Coroutine)
        ensures
            self.pid < old(w).procs@.len() ==> {
                &&& final(w).procs@.len() == old(w).procs@.len()
                &&& run_queue_items(final(w).procs@[self.pid as int].queue) == run_queue_items(
                    old(w).procs@[self.pid as int].queue,
                ).push(coroutine)
                &&& final(w).procs@[self.pid as int] == (Processor {
                    queue: final(w).procs@[self.pid as int].queue,
                    ..old(w).procs@[self.pid as int]
                })
                &&& forall|j: int|
                    0 <= j < old(w).procs@.len() && j != self.pid as int
                        ==> final(w).procs@[j] == old(w).procs@[j]
                &&& *final(w) == (World { procs: final(w).procs, ..*old(w) })
            },
            self.pid >= old(w).procs@.len() ==> {
                &&& final(w).dropped@ == old(w).dropped@.push(coroutine.id)
                &&& *final(w) == (World { dropped: final(w).dropped, ..*old(w) })
            },
    {
        if self.pid < w.procs.len() {
            let pr = &mut w.procs[self.pid];
            pr.ready(coroutine);
        } else {
            w.dropped.push(coroutine.id);
        }
    }

    /// Spawn a fresh coroutine running program `f`, tag it with this
    /// processor as its preferred home, and ready it locally.  A program
    /// index out of range, or an exhausted identity space, spawns
    /// nothing.
    pub fn spawn_opts(&self, w: &mut World, f: usize, opts: Options)
        ensures
            self.pid < old(w).procs@.len() && f < old(w).programs@.len() && old(w).next_id
                < usize::MAX ==> {
                &&& final(w).next_id == old(w).next_id + 1
                &&& final(w).procs@.len() == old(w).procs@.len()
                &&& run_queue_items(final(w).procs@[self.pid as int].queue) == run_queue_items(
                    old(w).procs@[self.pid as int].queue,
                ).push(
                    (Coroutine {
                        id: old(w).next_id,
                        program: f,
                        pc: 0,
                        state: CoState::Suspended,
                        preferred: Some((WeakProcessor { pid: self.pid })),
                    }),
                )
                &&& final(w).procs@[self.pid as int] == (Processor {
                    queue: final(w).procs@[self.pid as int].queue,
                    ..old(w).procs@[self.pid as int]
                })
                &&& forall|j: int|
                    0 <= j < old(w).procs@.len() && j != self.pid as int
                        ==> final(w).procs@[j] == old(w).procs@[j]
                &&& *final(w) == (World {
                    procs: final(w).procs,
                    next_id: final(w).next_id,
                    ..*old(w)
                })
            },
            !(f < old(w).programs@.len() && old(w).next_id < usize::MAX) ==> *final(w) == *old(w),
            self.pid >= old(w).procs@.len() && f < old(w).programs@.len() && old(w).next_id
                < usize::MAX ==> {
                &&& final(w).dropped@ == old(w).dropped@.push(old(w).next_id)
                &&& final(w).next_id == old(w).next_id + 1
                &&& *final(w) == (World {
                    dropped: final(w).dropped,
                    next_id: final(w).next_id,
                    ..*old(w)
                })
            },
    {
        let _ = opts;
        match w.new_coroutine(f) {
            Some(mut new_coro) => {
                new_coro.set_preferred_processor(Some(WeakProcessor { pid: self.pid }));
                self.ready(w, new_coro);
            },
            None => {},
        }
    }

    /// Suspend the current coroutine of this handle's processor: yield
    /// it with state `Suspended`.  Consumes the handle: on resume the
    /// coroutine may be on a different processor.
    pub fn sched(self, w: &mut World)
        ensures
            self.pid < old(w).procs@.len() ==> {
                &&& final(w).procs@.len() == old(w).procs@.len()
                &&& (old(w).procs@[self.pid as int].current_coro matches Some(c) ==> final(w).procs@[self.pid as int] == (Processor {
                    current_coro: Some((Coroutine { state: CoState::Suspended, ..c })),
                    carrier: None,
                    ..old(w).procs@[self.pid as int]
                }))
                &&& (old(w).procs@[self.pid as int].current_coro is None ==> final(w).procs@[self.pid as int]
                    == old(w).procs@[self.pid as int])
                &&& forall|j: int|
                    0 <= j < old(w).procs@.len() && j != self.pid as int
                        ==> final(w).procs@[j] == old(w).procs@[j]
                &&& *final(w) == (World { procs: final(w).procs, ..*old(w) })
            },
            self.pid >= old(w).procs@.len() ==> *final(w) == *old(w),
    {
        if self.pid < w.procs.len() {
            let pr = &mut w.procs[self.pid];
            pr.sched();
        }
    }

    /// Park the current coroutine of this handle's processor: yield it
    /// with state `Parked`, passing the continuation as the carrier for
    /// the driver to run.  Consumes the handle.
    pub fn park_with(self, w: &mut World, f: ParkOp)
        ensures
            self.pid < old(w).procs@.len() ==> {
                &&& final(w).procs@.len() == old(w).procs@.len()
                &&& (old(w).procs@[self.pid as int].current_coro matches Some(c) ==> final(w).procs@[self.pid as int] == (Processor {
                    current_coro: Some((Coroutine { state: CoState::Parked, ..c })),
                    carrier: Some(f),
                    ..old(w).procs@[self.pid as int]
                }))
                &&& (old(w).procs@[self.pid as int].current_coro is None ==> final(w).procs@[self.pid as int]
                    == old(w).procs@[self.pid as int])
                &&& forall|j: int|
                    0 <= j < old(w).procs@.len() && j != self.pid as int
                        ==> final(w).procs@[j] == old(w).procs@[j]
                &&& *final(w) == (World { procs: final(w).procs, ..*old(w) })
            },
            self.pid >= old(w).procs@.len() ==> *final(w) == *old(w),
    {
        if self.pid < w.procs.len() {
            let pr = &mut w.procs[self.pid];
            match &mut pr.current_coro {
                Some(c) => {
                    c.state = CoState::Parked;
                    pr.carrier = Some(f);
                },
                None => {},
            }
        }
    }
}

} // verus!
