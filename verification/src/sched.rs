//! The coroutine driver and the scheduling loop.
//!
//! `resume` drives one round of a coroutine's execution and interprets
//! its yield; `schedule_step` makes one decision of the scheduling loop
//! (local queue, then inbox, then steal, then park); `schedule` is the
//! worker loop itself, bounded by fuel so that every run terminates.

use vstd::prelude::*;
use vstd::pervasive::unreached;
use crate::coroutine::{
    interp_end_pc, interp_log, interp_next_id, interp_park, interp_spawned, interp_state, CoState,
    Coroutine, LogEntry, ParkOp, Step,
};
use crate::processor::{Options, PeerStealer, ProcMessage, ProcMessageSender, Processor, WeakProcessor};
use crate::runqueue::{run_queue_items, Stolen};
use crate::world::{coros_ok, msgs_ok, proc_wf, World};

verus! {

broadcast use vstd::seq_lib::group_seq_properties;

/// One resume never leaves a coroutine in the `Running` sentinel state:
/// it ends suspended, parked or finished.
pub proof fn lemma_interp_state_not_running(prog: Seq<Step>, pc: int)
    ensures
        interp_state(prog, pc) != CoState::Running,
    decreases prog.len() - pc,
{
    if pc < 0 || pc >= prog.len() {
    } else {
        match prog[pc] {
            Step::Emit(_) => lemma_interp_state_not_running(prog, pc + 1),
            Step::Spawn(_) => lemma_interp_state_not_running(prog, pc + 1),
            _ => {},
        }
    }
}

/// Every coroutine spawned during a resume starts suspended, runs a
/// program of the world, and prefers the processor it was spawned on.
pub proof fn lemma_interp_spawned_ok(prog: Seq<Step>, pc: int, nprogs: int, next: usize, pid: usize)
    ensures
        ({
            let sp = interp_spawned(prog, pc, nprogs, next, pid);
            forall|i: int|
                0 <= i < sp.len() ==> {
                    &&& (#[trigger] sp[i]).state == CoState::Suspended
                    &&& sp[i].program < nprogs
                    &&& sp[i].preferred == Some((WeakProcessor { pid: pid }))
                    &&& sp[i].id >= next
                    &&& sp[i].pc == 0
                }
        }),
    decreases prog.len() - pc,
{
    if pc < 0 || pc >= prog.len() {
    } else {
        match prog[pc] {
            Step::Spawn(k) => {
                if k < nprogs && next < usize::MAX {
                    lemma_interp_spawned_ok(prog, pc + 1, nprogs, (next + 1) as usize, pid);
                } else {
                    lemma_interp_spawned_ok(prog, pc + 1, nprogs, next, pid);
                }
            },
            Step::Emit(_) => lemma_interp_spawned_ok(prog, pc + 1, nprogs, next, pid),
            _ => {},
        }
    }
}

/// A resume never reuses an identity: the fresh-identity counter only
/// grows.
pub proof fn lemma_interp_next_id_monotonic(prog: Seq<Step>, pc: int, nprogs: int, next: usize)
    ensures
        interp_next_id(prog, pc, nprogs, next) >= next,
    decreases prog.len() - pc,
{
    if pc < 0 || pc >= prog.len() {
    } else {
        match prog[pc] {
            Step::Spawn(k) => {
                if k < nprogs && next < usize::MAX {
                    lemma_interp_next_id_monotonic(prog, pc + 1, nprogs, (next + 1) as usize);
                } else {
                    lemma_interp_next_id_monotonic(prog, pc + 1, nprogs, next);
                }
            },
            Step::Emit(_) => lemma_interp_next_id_monotonic(prog, pc + 1, nprogs, next),
            _ => {},
        }
    }
}

/// What the driver leaves untouched in one round: everything but the
/// resumed processor's queue and inbox, the log, and the coroutine
/// bookkeeping.
pub open spec fn driver_frame(a: World, b: World, pid: int) -> bool {
    &&& b.programs@ == a.programs@
    &&& b.scheduler == a.scheduler
    &&& b.running == a.running
    &&& b.procs@.len() == a.procs@.len()
    &&& forall|j: int| 0 <= j < a.procs@.len() && j != pid ==> b.procs@[j] == a.procs@[j]
    &&& ({
        let p = a.procs@[pid];
        let q = b.procs@[pid];
        &&& q.id == p.id
        &&& q.weak_self == p.weak_self
        &&& q.neighbor_stealers@ == p.neighbor_stealers@
        &&& q.parked == p.parked
        &&& q.alive == p.alive
        &&& q.current_coro is None
        &&& q.carrier is None
    })
}

/// Full effect of driving one round of coroutine `c` on processor `pid`,
/// relating the world before (`a`, with `c` already taken out of
/// whatever place held it, the processor's queue then holding `qbase`)
/// to the world after (`b`).
pub open spec fn resume_rel(a: World, b: World, pid: int, c: Coroutine, qbase: Seq<Coroutine>) -> bool {
    &&& driver_frame(a, b, pid)
    &&& if c.program >= a.programs@.len() {
        // An undrivable handle: no program of this world; it is dropped.
        &&& b.log@ == a.log@
        &&& b.next_id == a.next_id
        &&& b.finished@ == a.finished@
        &&& b.dropped@ == a.dropped@.push(c.id)
        &&& b.slots@ == a.slots@
        &&& run_queue_items(b.procs@[pid].queue) == qbase
        &&& b.procs@[pid].inbox@ == a.procs@[pid].inbox@
    } else {
        let prog = a.programs@[c.program as int]@;
        let pc = c.pc as int;
        let nprogs = a.programs@.len() as int;
        let st = interp_state(prog, pc);
        let after = (Coroutine {
            pc: interp_end_pc(prog, pc) as usize,
            state: st,
            ..c
        });
        &&& b.log@ == a.log@ + interp_log(prog, pc, c.id)
        &&& b.next_id == interp_next_id(prog, pc, nprogs, a.next_id)
        &&& run_queue_items(b.procs@[pid].queue) == qbase + interp_spawned(
            prog,
            pc,
            nprogs,
            a.next_id,
            pid as usize,
        )
        &&& (st == CoState::Finished ==> {
            // Terminal transition: the handle is destroyed.
            &&& b.finished@ == a.finished@.push(c.id)
            &&& b.dropped@ == a.dropped@
            &&& b.slots@ == a.slots@
            &&& b.procs@[pid].inbox@ == a.procs@[pid].inbox@
        })
        &&& (st == CoState::Suspended ==> {
            // A voluntary yield re-enters through the processor's own
            // inbox, not the run queue.
            &&& b.procs@[pid].inbox@ == a.procs@[pid].inbox@.push(ProcMessage::Ready(after))
            &&& b.finished@ == a.finished@
            &&& b.dropped@ == a.dropped@
            &&& b.slots@ == a.slots@
        })
        &&& (st == CoState::Parked ==> {
            &&& b.procs@[pid].inbox@ == a.procs@[pid].inbox@
            &&& b.finished@ == a.finished@
            &&& match interp_park(prog, pc) {
                Some(ParkOp::Store(s)) => {
                    if s < a.slots@.len() {
                        // The continuation stores the handle into the
                        // external slot; a previous occupant is dropped.
                        &&& b.slots@ == a.slots@.update(s as int, Some(after))
                        &&& b.dropped@ == (match a.slots@[s as int] {
                            Some(prev) => a.dropped@.push(prev.id),
                            None => a.dropped@,
                        })
                    } else {
                        &&& b.slots@ == a.slots@
                        &&& b.dropped@ == a.dropped@.push(c.id)
                    }
                },
                _ => {
                    // Zero carrier or a discarding continuation: dropped.
                    &&& b.slots@ == a.slots@
                    &&& b.dropped@ == a.dropped@.push(c.id)
                },
            }
        })
    }
}

fn advance_current_pc(pr: &mut Processor, newpc: usize)
    ensures
        old(pr).current_coro matches Some(c) ==> *final(pr) == (Processor {
            current_coro: Some((Coroutine { pc: newpc, ..c })),
            ..*old(pr)
        }),
        old(pr).current_coro is None ==> *final(pr) == *old(pr),
{
    match &mut pr.current_coro {
        Some(c) => {
            c.pc = newpc;
        },
        None => {},
    }
}

impl World {
    /// Transfer control to the installed coroutine and run it to its
    /// next yield: the model of the context switch plus the user code it
    /// lands in.  Emitted values go to the log; spawns go through the
    /// control handle onto the local queue; the yield's state and
    /// carrier are left on the processor for `resume` to interpret.
    pub fn run_coroutine(&mut self, pid: usize)
        requires
            pid < old(self).procs@.len(),
            old(self).running == Some(pid),
            old(self).procs@[pid as int].current_coro is Some,
            old(self).procs@[pid as int].current_coro->Some_0.state == CoState::Running,
            old(self).procs@[pid as int].current_coro->Some_0.program < old(self).programs@.len(),
            old(self).procs@[pid as int].carrier is None,
        ensures
            ({
                let c = old(self).procs@[pid as int].current_coro->Some_0;
                let prog = old(self).programs@[c.program as int]@;
                let pc = c.pc as int;
                let nprogs = old(self).programs@.len() as int;
                &&& final(self).log@ == old(self).log@ + interp_log(prog, pc, c.id)
                &&& final(self).next_id == interp_next_id(prog, pc, nprogs, old(self).next_id)
                &&& run_queue_items(final(self).procs@[pid as int].queue) == run_queue_items(
                    old(self).procs@[pid as int].queue,
                ) + interp_spawned(prog, pc, nprogs, old(self).next_id, pid)
                &&& final(self).procs@[pid as int].current_coro == Some(
                    (Coroutine {
                        pc: interp_end_pc(prog, pc) as usize,
                        state: interp_state(prog, pc),
                        ..c
                    }),
                )
                &&& final(self).procs@[pid as int].carrier == interp_park(prog, pc)
                &&& final(self).procs@[pid as int].inbox@ == old(self).procs@[pid as int].inbox@
                &&& final(self).procs@[pid as int].id == old(self).procs@[pid as int].id
                &&& final(self).procs@[pid as int].weak_self == old(self).procs@[pid as int].weak_self
                &&& final(self).procs@[pid as int].neighbor_stealers@ == old(self).procs@[pid as int].neighbor_stealers@
                &&& final(self).procs@[pid as int].parked == old(self).procs@[pid as int].parked
                &&& final(self).procs@[pid as int].alive == old(self).procs@[pid as int].alive
                &&& final(self).procs@.len() == old(self).procs@.len()
                &&& forall|j: int|
                    0 <= j < old(self).procs@.len() && j != pid as int ==> final(self).procs@[j]
                        == old(self).procs@[j]
                &&& final(self).programs@ == old(self).programs@
                &&& final(self).scheduler == old(self).scheduler
                &&& final(self).slots@ == old(self).slots@
                &&& final(self).finished@ == old(self).finished@
                &&& final(self).dropped@ == old(self).dropped@
                &&& final(self).running == old(self).running
            }),
        decreases
            old(self).programs@[old(self).procs@[pid as int].current_coro->Some_0.program as int]@.len()
                - old(self).procs@[pid as int].current_coro->Some_0.pc,
    {
        let ghost a = *self;
        let (cid, cprog, cpc): (usize, usize, usize) = {
            let pr = &self.procs[pid];
            match &pr.current_coro {
                Some(c) => (c.id, c.program, c.pc),
                None => unreached(),
            }
        };
        let ghost prog = a.programs@[cprog as int]@;
        let ghost nprogs = a.programs@.len() as int;
        let prog_len = self.programs[cprog].len();
        if cpc >= prog_len {
            // The program ran to its end: the coroutine finishes.
            {
                let pr = &mut self.procs[pid];
                match &mut pr.current_coro {
                    Some(c) => {
                        c.state = CoState::Finished;
                    },
                    None => {},
                }
            }
            proof {
                assert(self.log@ =~= a.log@ + interp_log(prog, cpc as int, cid));
                assert(run_queue_items(self.procs@[pid as int].queue) =~= run_queue_items(
                    a.procs@[pid as int].queue,
                ) + interp_spawned(prog, cpc as int, nprogs, a.next_id, pid));
            }
            return;
        }
        let step = self.programs[cprog][cpc];
        match step {
            Step::Emit(v) => {
                self.log.push(LogEntry { by: cid, value: v });
                {
                    let pr = &mut self.procs[pid];
                    advance_current_pc(pr, cpc + 1);
                }
                self.run_coroutine(pid);
                proof {
                    assert(self.log@ =~= a.log@ + interp_log(prog, cpc as int, cid));
                    assert(run_queue_items(self.procs@[pid as int].queue) =~= run_queue_items(
                        a.procs@[pid as int].queue,
                    ) + interp_spawned(prog, cpc as int, nprogs, a.next_id, pid));
                }
            },
            Step::Spawn(k) => {
                let ph = match Processor::current(self) {
                    Some(h) => h,
                    None => unreached(),
                };
                ph.spawn_opts(self, k, Options::new());
                {
                    let pr = &mut self.procs[pid];
                    advance_current_pc(pr, cpc + 1);
                }
                let ghost mid = *self;
                self.run_coroutine(pid);
                proof {
                    assert(self.log@ =~= a.log@ + interp_log(prog, cpc as int, cid));
                    if k < a.programs@.len() && a.next_id < usize::MAX {
                        assert(run_queue_items(mid.procs@[pid as int].queue) =~= run_queue_items(
                            a.procs@[pid as int].queue,
                        ).push(
                            (Coroutine {
                                id: a.next_id,
                                program: k,
                                pc: 0,
                                state: CoState::Suspended,
                                preferred: Some((WeakProcessor { pid: pid })),
                            }),
                        ));
                        assert(run_queue_items(self.procs@[pid as int].queue) =~= run_queue_items(
                            a.procs@[pid as int].queue,
                        ) + interp_spawned(prog, cpc as int, nprogs, a.next_id, pid));
                    } else {
                        assert(run_queue_items(self.procs@[pid as int].queue) =~= run_queue_items(
                            a.procs@[pid as int].queue,
                        ) + interp_spawned(prog, cpc as int, nprogs, a.next_id, pid));
                    }
                }
            },
            Step::Sched => {
                let ph = match Processor::current(self) {
                    Some(h) => h,
                    None => unreached(),
                };
                ph.sched(self);
                {
                    let pr = &mut self.procs[pid];
                    advance_current_pc(pr, cpc + 1);
                }
                proof {
                    assert(self.log@ =~= a.log@ + interp_log(prog, cpc as int, cid));
                    assert(run_queue_items(self.procs@[pid as int].queue) =~= run_queue_items(
                        a.procs@[pid as int].queue,
                    ) + interp_spawned(prog, cpc as int, nprogs, a.next_id, pid));
                }
            },
            Step::Park(op) => {
                let ph = match Processor::current(self) {
                    Some(h) => h,
                    None => unreached(),
                };
                ph.park_with(self, op);
                {
                    let pr = &mut self.procs[pid];
                    advance_current_pc(pr, cpc + 1);
                }
                proof {
                    assert(self.log@ =~= a.log@ + interp_log(prog, cpc as int, cid));
                    assert(run_queue_items(self.procs@[pid as int].queue) =~= run_queue_items(
                        a.procs@[pid as int].queue,
                    ) + interp_spawned(prog, cpc as int, nprogs, a.next_id, pid));
                }
            },
            Step::Abandon => {
                {
                    let pr = &mut self.procs[pid];
                    pr.yield_with(CoState::Parked);
                    advance_current_pc(pr, cpc + 1);
                }
                proof {
                    assert(self.log@ =~= a.log@ + interp_log(prog, cpc as int, cid));
                    assert(run_queue_items(self.procs@[pid as int].queue) =~= run_queue_items(
                        a.procs@[pid as int].queue,
                    ) + interp_spawned(prog, cpc as int, nprogs, a.next_id, pid));
                }
            },
        }
    }

    /// Drive one round of execution of an owned, unfinished coroutine:
    /// install it as current, run it to its yield, then interpret the
    /// yield: a finished coroutine is destroyed; a suspended one is
    /// re-posted to this processor's own inbox as `Ready`; a parked one
    /// is handed to its park continuation, or dropped on a zero carrier.
    pub fn resume(&mut self, pid: usize, coroutine: Coroutine)
        requires
            pid < old(self).procs@.len(),
            old(self).procs@[pid as int].id == pid,
            coroutine.state != CoState::Finished,
            old(self).procs@[pid as int].current_coro is None,
            old(self).procs@[pid as int].carrier is None,
            old(self).running is None,
        ensures
            resume_rel(
                *old(self),
                *final(self),
                pid as int,
                coroutine,
                run_queue_items(old(self).procs@[pid as int].queue),
            ),
    {
        let ghost a = *self;
        let ghost c0 = coroutine;
        if coroutine.program >= self.programs.len() {
            self.dropped.push(coroutine.id);
            return;
        }
        let ghost prog = a.programs@[c0.program as int]@;
        let mut c = coroutine;
        c.state = CoState::Running;
        self.running = Some(pid);
        {
            let pr = &mut self.procs[pid];
            pr.current_coro = Some(c);
        }
        self.run_coroutine(pid);
        self.running = None;
        let co = {
            let pr = &mut self.procs[pid];
            pr.current_coro.take()
        };
        let k = {
            let pr = &mut self.procs[pid];
            let kk = pr.carrier;
            pr.carrier = None;
            kk
        };
        match co {
            Some(c2) => {
                if c2.is_finished() {
                    let id2 = c2.id;
                    self.finished.push(id2);
                } else {
                    match c2.state() {
                        CoState::Suspended => {
                            let h = {
                                let pr = &self.procs[pid];
                                pr.handle()
                            };
                            match h.send(self, ProcMessage::Ready(c2)) {
                                Ok(_) => {},
                                Err(_) => {
                                    proof {
                                        assert(false);
                                    }
                                },
                            }
                        },
                        CoState::Parked => {
                            match k {
                                Some(ParkOp::Store(s)) => {
                                    if s < self.slots.len() {
                                        let mut prev: Option<Coroutine> = Some(c2);
                                        self.slots.set_and_swap(s, &mut prev);
                                        match prev {
                                            Some(p) => {
                                                let pi = p.id;
                                                self.dropped.push(pi);
                                            },
                                            None => {},
                                        }
                                    } else {
                                        let id2 = c2.id;
                                        self.dropped.push(id2);
                                    }
                                },
                                Some(ParkOp::Discard) => {
                                    let id2 = c2.id;
                                    self.dropped.push(id2);
                                },
                                None => {
                                    let id2 = c2.id;
                                    self.dropped.push(id2);
                                },
                            }
                        },
                        _ => {
                            proof {
                                lemma_interp_state_not_running(prog, c0.pc as int);
                                assert(false);
                            }
                        },
                    }
                }
            },
            None => {
                proof {
                    assert(false);
                }
            },
        }
    }
}

/// Relies on rand::random: a pseudo-random value, used to pick the
/// starting point of the steal walk.  Nothing is promised of it; the
/// walk is verified for every value that comes back.
#[verifier::external_body]
fn random_usize() -> usize {
    rand::random()
}

/// The coroutines a drained batch of messages adds to the local queue of
/// processor `pid`: the payloads of its `Ready` messages in message
/// order, each tagged with `pid` as its new preferred home.
pub open spec fn msgs_ready_coros(s: Seq<ProcMessage>, pid: usize) -> Seq<Coroutine>
    decreases s.len(),
{
    if s.len() == 0 {
        Seq::empty()
    } else {
        msgs_ready_coros(s.drop_last(), pid) + (match s.last() {
            ProcMessage::Ready(c) => seq![
                (Coroutine { preferred: Some((WeakProcessor { pid: pid })), ..c }),
            ],
            _ => Seq::<Coroutine>::empty(),
        })
    }
}

/// The stealers a drained batch of messages appends to the neighbor
/// list: the payloads of its `NewNeighbor` messages in message order.
pub open spec fn msgs_neighbors(s: Seq<ProcMessage>) -> Seq<PeerStealer>
    decreases s.len(),
{
    if s.len() == 0 {
        Seq::empty()
    } else {
        msgs_neighbors(s.drop_last()) + (match s.last() {
            ProcMessage::NewNeighbor(ns) => seq![ns],
            _ => Seq::<PeerStealer>::empty(),
        })
    }
}

/// Whether a batch of messages contains a shutdown signal.
pub open spec fn has_shutdown(s: Seq<ProcMessage>) -> bool {
    exists|i: int| 0 <= i < s.len() && (s[i] is Shutdown)
}

/// Absorbing well-formed messages yields drivable coroutines.
pub proof fn lemma_msgs_ready_coros_ok(s: Seq<ProcMessage>, pid: usize)
    requires
        msgs_ok(s),
    ensures
        coros_ok(msgs_ready_coros(s, pid)),
    decreases s.len(),
{
    if s.len() == 0 {
    } else {
        assert(msgs_ok(s.drop_last())) by {
            assert forall|i: int| 0 <= i < s.drop_last().len() implies ((#[trigger] s.drop_last()[i])
                matches ProcMessage::Ready(c) ==> c.state != CoState::Finished) by {
                assert(s.drop_last()[i] == s[i]);
            }
        };
        lemma_msgs_ready_coros_ok(s.drop_last(), pid);
        let r = msgs_ready_coros(s, pid);
        let rp = msgs_ready_coros(s.drop_last(), pid);
        assert forall|i: int| 0 <= i < r.len() implies (#[trigger] r[i]).state
            != CoState::Finished by {
            if i < rp.len() {
                assert(r[i] == rp[i]);
            } else {
                assert(s[s.len() - 1] == s.last());
            }
        }
    }
}

/// One round of the driver preserves well-formedness of the world.
pub proof fn lemma_rel_preserves_wf(a: World, b: World, pid: int, c: Coroutine, qbase: Seq<Coroutine>)
    requires
        0 <= pid < a.procs@.len(),
        a.wf(),
        qbase == run_queue_items(a.procs@[pid].queue),
        resume_rel(a, b, pid, c, qbase),
    ensures
        b.wf(),
{
    if c.program >= a.programs@.len() {
        assert forall|i: int| 0 <= i < b.procs@.len() implies proc_wf(#[trigger] b.procs@[i], i) by {
            if i != pid {
                assert(b.procs@[i] == a.procs@[i]);
            }
        }
    } else {
        let prog = a.programs@[c.program as int]@;
        let pc = c.pc as int;
        let nprogs = a.programs@.len() as int;
        lemma_interp_spawned_ok(prog, pc, nprogs, a.next_id, pid as usize);
        lemma_interp_state_not_running(prog, pc);
        let sp = interp_spawned(prog, pc, nprogs, a.next_id, pid as usize);
        let st = interp_state(prog, pc);
        assert forall|i: int| 0 <= i < b.procs@.len() implies proc_wf(#[trigger] b.procs@[i], i) by {
            if i == pid {
                let qb = run_queue_items(b.procs@[pid].queue);
                assert forall|x: int| 0 <= x < qb.len() implies (#[trigger] qb[x]).state
                    != CoState::Finished by {
                    if x < qbase.len() {
                        assert(qb[x] == qbase[x]);
                    } else {
                        assert(qb[x] == sp[x - qbase.len()]);
                    }
                };
                let ib = b.procs@[pid].inbox@;
                let ia = a.procs@[pid].inbox@;
                assert forall|y: int| 0 <= y < ib.len() implies ((#[trigger] ib[y])
                    matches ProcMessage::Ready(cc) ==> cc.state != CoState::Finished) by {
                    if st == CoState::Suspended {
                        if y < ia.len() {
                            assert(ib[y] == ia[y]);
                        }
                    } else {
                        assert(ib[y] == ia[y]);
                    }
                };
            } else {
                assert(b.procs@[i] == a.procs@[i]);
            }
        }
    }
}

/// The identities of the `Ready` payloads in a batch of messages, in
/// message order: what the shutdown drain drops out of the inbox.
pub open spec fn ready_ids(s: Seq<ProcMessage>) -> Seq<usize>
    decreases s.len(),
{
    if s.len() == 0 {
        Seq::empty()
    } else {
        ready_ids(s.drop_last()) + (match s.last() {
            ProcMessage::Ready(c) => seq![c.id],
            _ => Seq::<usize>::empty(),
        })
    }
}

/// The identities of queued coroutines in pop order (most recent
/// first): what the shutdown drain drops out of the local queue.
pub open spec fn rev_ids(s: Seq<Coroutine>) -> Seq<usize>
    decreases s.len(),
{
    if s.len() == 0 {
        Seq::empty()
    } else {
        seq![s.last().id] + rev_ids(s.drop_last())
    }
}

/// The action one pass of the scheduling loop took.
#[derive(Clone, Copy, PartialEq, Eq, Structural, Debug)]
pub enum StepAction {
    /// Popped the head of the local queue and resumed it.
    Resumed,
    /// Drained the inbox and absorbed at least one ready coroutine.
    Absorbed,
    /// Stole a coroutine from a peer and resumed it.
    Stole,
    /// Nothing to do: parked with the scheduler.
    ParkedNow,
    /// A shutdown signal arrived: drained all pending work.
    ShutdownNow,
}

/// Why `schedule` returned.
#[derive(Clone, Copy, PartialEq, Eq, Structural, Debug)]
pub enum ScheduleExit {
    /// A shutdown signal arrived and the drain completed.
    Shutdown,
    /// The processor parked itself: its inbox is empty and the owner
    /// must deliver a message before calling `schedule` again.
    Parked,
    /// The fuel bound was reached with work still pending.
    OutOfFuel,
}

/// Effect of one successful steal: the scheduler drained its inbox
/// (absorbing no ready work), walked its neighbor ring, took the head
/// of victim `v`'s queue, and drove it directly on processor `pid`,
/// bypassing the local queue.  `mid` is the world at the moment of the
/// steal; `resume_rel` fixes the rest of the round.
pub open spec fn steal_rel(a: World, mid: World, b: World, pid: int, v: int) -> bool {
    let neighbors1 = a.procs@[pid].neighbor_stealers@ + msgs_neighbors(a.procs@[pid].inbox@);
    &&& 0 <= v < neighbors1.len()
    &&& ({
        let t = neighbors1[v].target as int;
        let vq = run_queue_items(a.procs@[t].queue);
        &&& 0 <= t < a.procs@.len()
        &&& t != pid
        &&& vq.len() > 0
        &&& mid.procs@.len() == a.procs@.len()
        &&& mid.programs@ == a.programs@
        &&& mid.scheduler == a.scheduler
        &&& mid.slots@ == a.slots@
        &&& mid.log@ == a.log@
        &&& mid.finished@ == a.finished@
        &&& mid.dropped@ == a.dropped@
        &&& mid.next_id == a.next_id
        &&& mid.running == a.running
        &&& forall|jj: int|
            0 <= jj < a.procs@.len() && jj != pid && jj != t ==> mid.procs@[jj] == a.procs@[jj]
        &&& mid.procs@[t] == (Processor { queue: mid.procs@[t].queue, ..a.procs@[t] })
        &&& run_queue_items(mid.procs@[t].queue) == vq.drop_first()
        &&& mid.procs@[pid].id == a.procs@[pid].id
        &&& mid.procs@[pid].weak_self == a.procs@[pid].weak_self
        &&& mid.procs@[pid].current_coro == a.procs@[pid].current_coro
        &&& mid.procs@[pid].carrier == a.procs@[pid].carrier
        &&& mid.procs@[pid].parked == a.procs@[pid].parked
        &&& mid.procs@[pid].alive == a.procs@[pid].alive
        &&& run_queue_items(mid.procs@[pid].queue).len() == 0
        &&& mid.procs@[pid].inbox@.len() == 0
        &&& mid.procs@[pid].neighbor_stealers@ == neighbors1
        &&& resume_rel(mid, b, pid, vq.first(), run_queue_items(mid.procs@[pid].queue))
    })
}

/// Full effect of one pass of the scheduling loop that took action
/// `act`, relating the world before (`a`) to the world after (`b`).
pub open spec fn step_rel(a: World, b: World, pid: int, act: StepAction) -> bool {
    &&& b.wf()
    &&& b.procs@.len() == a.procs@.len()
    &&& b.programs@ == a.programs@
    &&& b.scheduler.parked@.len() == a.scheduler.parked@.len()
    &&& (act != StepAction::ParkedNow ==> !b.procs@[pid].parked)
    &&& match act {
        StepAction::Resumed => {
            &&& run_queue_items(a.procs@[pid].queue).len() > 0
            &&& resume_rel(
                a,
                b,
                pid,
                run_queue_items(a.procs@[pid].queue).last(),
                run_queue_items(a.procs@[pid].queue).drop_last(),
            )
        },
        StepAction::Absorbed => {
            &&& run_queue_items(a.procs@[pid].queue).len() == 0
            &&& !has_shutdown(a.procs@[pid].inbox@)
            &&& msgs_ready_coros(a.procs@[pid].inbox@, pid as usize).len() > 0
            &&& b.procs@[pid].inbox@.len() == 0
            &&& run_queue_items(b.procs@[pid].queue) == msgs_ready_coros(
                a.procs@[pid].inbox@,
                pid as usize,
            )
            &&& b.procs@[pid].neighbor_stealers@ == a.procs@[pid].neighbor_stealers@
                + msgs_neighbors(a.procs@[pid].inbox@)
            &&& b.procs@[pid] == (Processor {
                queue: b.procs@[pid].queue,
                inbox: b.procs@[pid].inbox,
                neighbor_stealers: b.procs@[pid].neighbor_stealers,
                ..a.procs@[pid]
            })
            &&& forall|j: int| 0 <= j < a.procs@.len() && j != pid ==> b.procs@[j] == a.procs@[j]
            &&& b == (World { procs: b.procs, ..a })
        },
        StepAction::Stole => {
            &&& run_queue_items(a.procs@[pid].queue).len() == 0
            &&& !has_shutdown(a.procs@[pid].inbox@)
            &&& msgs_ready_coros(a.procs@[pid].inbox@, pid as usize).len() == 0
            &&& b.scheduler == a.scheduler
            &&& exists|v: int, mid: World| #[trigger] steal_rel(a, mid, b, pid, v)
        },
        StepAction::ParkedNow => {
            &&& run_queue_items(a.procs@[pid].queue).len() == 0
            &&& !has_shutdown(a.procs@[pid].inbox@)
            &&& msgs_ready_coros(a.procs@[pid].inbox@, pid as usize).len() == 0
            &&& b.procs@[pid].parked
            &&& b.procs@[pid].inbox@.len() == 0
            &&& run_queue_items(b.procs@[pid].queue).len() == 0
            &&& b.procs@[pid].neighbor_stealers@ == a.procs@[pid].neighbor_stealers@
                + msgs_neighbors(a.procs@[pid].inbox@)
            &&& b.log@ == a.log@
            &&& b.finished@ == a.finished@
            &&& b.dropped@ == a.dropped@
            &&& b.next_id == a.next_id
            &&& b.slots@ == a.slots@
            &&& (pid < a.scheduler.parked@.len() ==> b.scheduler.parked@
                == a.scheduler.parked@.update(
                pid,
                Some((ProcMessageSender { target: pid as usize })),
            ))
            &&& (pid >= a.scheduler.parked@.len() ==> b.scheduler == a.scheduler)
        },
        StepAction::ShutdownNow => {
            &&& run_queue_items(a.procs@[pid].queue).len() == 0
            &&& has_shutdown(a.procs@[pid].inbox@)
            &&& b.procs@[pid].inbox@.len() == 0
            &&& run_queue_items(b.procs@[pid].queue).len() == 0
            &&& !b.procs@[pid].alive
            &&& b.finished@ == a.finished@
            &&& b.log@ == a.log@
            &&& b.slots@ == a.slots@
            &&& b.next_id == a.next_id
            &&& b.scheduler == a.scheduler
            // The drain destroys each pending handle exactly once.
            &&& forall|id2: usize|
                (#[trigger] crate::laws::count_ids(b.dropped@, id2)) == crate::laws::count_ids(
                    a.dropped@,
                    id2,
                ) + crate::laws::count_ready(a.procs@[pid].inbox@, id2)
        },
    }
}

/// Effect of a parked processor's blocking receive returning one
/// non-shutdown message: the message is interpreted as in the inbox
/// drain (a new stealer appended, or a ready coroutine tagged and
/// queued), the scheduler's idle record for the processor is cleared,
/// and the processor unparks.
pub open spec fn wake_rel(a: World, b: World, pid: int) -> bool {
    &&& a.procs@[pid].inbox@.len() > 0
    &&& !(a.procs@[pid].inbox@[0] is Shutdown)
    &&& b.wf()
    &&& b.procs@.len() == a.procs@.len()
    &&& b.programs@ == a.programs@
    &&& !b.procs@[pid].parked
    &&& b.procs@[pid].inbox@ == a.procs@[pid].inbox@.drop_first()
    &&& b.scheduler.parked@.len() == a.scheduler.parked@.len()
    &&& (pid < a.scheduler.parked@.len() ==> b.scheduler.parked@ == a.scheduler.parked@.update(
        pid,
        None,
    ))
    &&& (pid >= a.scheduler.parked@.len() ==> b.scheduler == a.scheduler)
    &&& (match a.procs@[pid].inbox@[0] {
        ProcMessage::NewNeighbor(ns) => {
            &&& b.procs@[pid].neighbor_stealers@ == a.procs@[pid].neighbor_stealers@.push(ns)
            &&& run_queue_items(b.procs@[pid].queue) == run_queue_items(a.procs@[pid].queue)
        },
        ProcMessage::Ready(c) => {
            &&& run_queue_items(b.procs@[pid].queue) == run_queue_items(
                a.procs@[pid].queue,
            ).push((Coroutine { preferred: Some((WeakProcessor { pid: pid as usize })), ..c }))
            &&& b.procs@[pid].neighbor_stealers@ == a.procs@[pid].neighbor_stealers@
        },
        ProcMessage::Shutdown => false,
    })
    &&& b.log@ == a.log@
    &&& b.finished@ == a.finished@
    &&& b.dropped@ == a.dropped@
    &&& b.next_id == a.next_id
    &&& b.slots@ == a.slots@
    &&& b.running == a.running
    &&& forall|j: int| 0 <= j < a.procs@.len() && j != pid ==> b.procs@[j] == a.procs@[j]
    &&& b.procs@[pid].id == a.procs@[pid].id
    &&& b.procs@[pid].weak_self == a.procs@[pid].weak_self
    &&& b.procs@[pid].current_coro == a.procs@[pid].current_coro
    &&& b.procs@[pid].carrier == a.procs@[pid].carrier
    &&& b.procs@[pid].alive == a.procs@[pid].alive
}

/// Effect of a parked processor's blocking receive returning the
/// shutdown signal: the loop exits and the drain destroys all pending
/// work; the idle record is deliberately left in place, as the
/// processor is gone.
pub open spec fn shutdown_wake_rel(a: World, b: World, pid: int) -> bool {
    &&& a.procs@[pid].inbox@.len() > 0
    &&& a.procs@[pid].inbox@[0] is Shutdown
    &&& b.wf()
    &&& b.procs@.len() == a.procs@.len()
    &&& b.programs@ == a.programs@
    &&& b.procs@[pid].inbox@.len() == 0
    &&& run_queue_items(b.procs@[pid].queue).len() == 0
    &&& !b.procs@[pid].alive
    &&& b.finished@ == a.finished@
    &&& b.log@ == a.log@
    &&& b.slots@ == a.slots@
    &&& b.next_id == a.next_id
    &&& b.scheduler == a.scheduler
    &&& b.dropped@ == a.dropped@ + ready_ids(a.procs@[pid].inbox@.drop_first()) + rev_ids(
        run_queue_items(a.procs@[pid].queue),
    )
    &&& forall|j: int| 0 <= j < a.procs@.len() && j != pid ==> b.procs@[j] == a.procs@[j]
}

/// What a parked processor's blocking receive came back with.
#[derive(Clone, Copy, PartialEq, Eq, Structural, Debug)]
pub enum WakeOutcome {
    /// No message yet: the processor stays parked and blocked.
    Blocked,
    /// A non-shutdown message was interpreted; the processor unparked.
    Woken,
    /// The shutdown signal arrived; all pending work was drained.
    ShutdownWake,
}

impl World {
    /// The shutdown drain: destroy every coroutine still held in the
    /// inbox, then every one still held in the local queue, and retire
    /// the processor.
    pub fn shutdown_drain(&mut self, pid: usize)
        requires
            pid < old(self).procs@.len(),
        ensures
            final(self).procs@.len() == old(self).procs@.len(),
            final(self).programs@ == old(self).programs@,
            final(self).scheduler == old(self).scheduler,
            final(self).slots@ == old(self).slots@,
            final(self).log@ == old(self).log@,
            final(self).finished@ == old(self).finished@,
            final(self).next_id == old(self).next_id,
            final(self).running == old(self).running,
            forall|j: int|
                0 <= j < old(self).procs@.len() && j != pid as int ==> final(self).procs@[j]
                    == old(self).procs@[j],
            final(self).procs@[pid as int].id == old(self).procs@[pid as int].id,
            final(self).procs@[pid as int].weak_self == old(self).procs@[pid as int].weak_self,
            final(self).procs@[pid as int].neighbor_stealers@ == old(self).procs@[pid as int].neighbor_stealers@,
            final(self).procs@[pid as int].current_coro == old(self).procs@[pid as int].current_coro,
            final(self).procs@[pid as int].carrier == old(self).procs@[pid as int].carrier,
            final(self).procs@[pid as int].parked == old(self).procs@[pid as int].parked,
            final(self).procs@[pid as int].inbox@.len() == 0,
            run_queue_items(final(self).procs@[pid as int].queue).len() == 0,
            !final(self).procs@[pid as int].alive,
            final(self).dropped@ == old(self).dropped@ + ready_ids(
                old(self).procs@[pid as int].inbox@,
            ) + rev_ids(run_queue_items(old(self).procs@[pid as int].queue)),
    {
        let ghost mut processed: Seq<ProcMessage> = Seq::empty();
        proof {
            assert(old(self).procs@[pid as int].inbox@ =~= processed + self.procs@[pid as int].inbox@);
            assert(self.dropped@ =~= old(self).dropped@ + ready_ids(processed));
        }
        while !self.procs[pid].inbox_empty()
            invariant
                pid < self.procs@.len(),
                self.procs@.len() == old(self).procs@.len(),
                self.programs@ == old(self).programs@,
                self.scheduler == old(self).scheduler,
                self.slots@ == old(self).slots@,
                self.log@ == old(self).log@,
                self.finished@ == old(self).finished@,
                self.next_id == old(self).next_id,
                self.running == old(self).running,
                forall|j: int|
                    0 <= j < old(self).procs@.len() && j != pid as int ==> self.procs@[j] == old(
                        self,
                    ).procs@[j],
                self.procs@[pid as int] == (Processor {
                    inbox: self.procs@[pid as int].inbox,
                    ..old(self).procs@[pid as int]
                }),
                old(self).procs@[pid as int].inbox@ == processed + self.procs@[pid as int].inbox@,
                self.dropped@ == old(self).dropped@ + ready_ids(processed),
            decreases self.procs@[pid as int].inbox@.len(),
        {
            let msg = {
                let pr = &mut self.procs[pid];
                pr.inbox.try_recv()
            };
            match msg {
                Some(m) => {
                    let ghost mg = m;
                    match m {
                        ProcMessage::Ready(c3) => {
                            let i3 = c3.id;
                            self.dropped.push(i3);
                            proof {
                                let p0 = processed;
                                processed = p0.push(mg);
                                assert(processed.drop_last() =~= p0);
                                assert(processed.last() == mg);
                                assert(ready_ids(processed) =~= ready_ids(p0) + seq![i3]);
                                assert(old(self).procs@[pid as int].inbox@ =~= processed
                                    + self.procs@[pid as int].inbox@);
                                assert(self.dropped@ =~= old(self).dropped@ + ready_ids(processed));
                            }
                        },
                        _ => {
                            proof {
                                let p0 = processed;
                                processed = p0.push(mg);
                                assert(processed.drop_last() =~= p0);
                                assert(processed.last() == mg);
                                assert(ready_ids(processed) =~= ready_ids(p0));
                                assert(old(self).procs@[pid as int].inbox@ =~= processed
                                    + self.procs@[pid as int].inbox@);
                            }
                        },
                    }
                },
                None => {},
            }
        }
        let ghost dmid = self.dropped@;
        let ghost qmid = run_queue_items(self.procs@[pid as int].queue);
        proof {
            assert(old(self).procs@[pid as int].inbox@ =~= processed);
            assert(dmid =~= old(self).dropped@ + ready_ids(old(self).procs@[pid as int].inbox@));
            assert(dmid + rev_ids(qmid) =~= self.dropped@ + rev_ids(
                run_queue_items(self.procs@[pid as int].queue),
            ));
        }
        let mut done = false;
        while !done
            invariant
                pid < self.procs@.len(),
                self.procs@.len() == old(self).procs@.len(),
                self.programs@ == old(self).programs@,
                self.scheduler == old(self).scheduler,
                self.slots@ == old(self).slots@,
                self.log@ == old(self).log@,
                self.finished@ == old(self).finished@,
                self.next_id == old(self).next_id,
                self.running == old(self).running,
                forall|j: int|
                    0 <= j < old(self).procs@.len() && j != pid as int ==> self.procs@[j] == old(
                        self,
                    ).procs@[j],
                self.procs@[pid as int] == (Processor {
                    inbox: self.procs@[pid as int].inbox,
                    queue: self.procs@[pid as int].queue,
                    ..old(self).procs@[pid as int]
                }),
                self.procs@[pid as int].inbox@.len() == 0,
                dmid == old(self).dropped@ + ready_ids(old(self).procs@[pid as int].inbox@),
                qmid == run_queue_items(old(self).procs@[pid as int].queue),
                self.dropped@ + rev_ids(run_queue_items(self.procs@[pid as int].queue)) == dmid
                    + rev_ids(qmid),
                done ==> run_queue_items(self.procs@[pid as int].queue).len() == 0,
            decreases 2 * run_queue_items(self.procs@[pid as int].queue).len() + (if done {
                0int
            } else {
                1int
            }),
        {
            let ghost qprev = run_queue_items(self.procs@[pid as int].queue);
            let popped = {
                let pr = &mut self.procs[pid];
                pr.queue.pop()
            };
            match popped {
                Some(c3) => {
                    let i3 = c3.id;
                    self.dropped.push(i3);
                    proof {
                        assert(rev_ids(qprev) =~= seq![i3] + rev_ids(qprev.drop_last()));
                        assert(self.dropped@ + rev_ids(run_queue_items(self.procs@[pid as int].queue))
                            =~= dmid + rev_ids(qmid));
                    }
                },
                None => {
                    done = true;
                },
            }
        }
        proof {
            assert(rev_ids(run_queue_items(self.procs@[pid as int].queue))
                =~= Seq::<usize>::empty());
            assert(self.dropped@ =~= dmid + rev_ids(qmid));
        }
        let pr = &mut self.procs[pid];
        pr.alive = false;
    }
}


impl World {
    /// One decision of the scheduling loop.  The order is the heart of
    /// the design: a non-empty local queue is always served first
    /// (pop-and-resume); only with an empty queue is the inbox drained,
    /// and absorbing any ready coroutine restarts the loop so that local
    /// work runs before stealing; stealing and parking happen only when
    /// both the queue and the inbox were empty.
    pub fn schedule_step(&mut self, pid: usize) -> (r: StepAction)
        requires
            old(self).wf(),
            pid < old(self).procs@.len(),
            !old(self).procs@[pid as int].parked,
        ensures
            run_queue_items(old(self).procs@[pid as int].queue).len() > 0 ==> r
                == StepAction::Resumed,
            step_rel(*old(self), *final(self), pid as int, r),
    {
        // 1. Local queue first.
        let popped = {
            let pr = &mut self.procs[pid];
            pr.queue.pop()
        };
        match popped {
            Some(c) => {
                let ghost q0 = run_queue_items(old(self).procs@[pid as int].queue);
                let ghost mid = *self;
                proof {
                    assert(c == q0[q0.len() - 1]);
                    assert forall|i: int| 0 <= i < mid.procs@.len() implies proc_wf(
                        #[trigger] mid.procs@[i],
                        i,
                    ) by {
                        if i == pid as int {
                            let q1 = run_queue_items(mid.procs@[pid as int].queue);
                            assert forall|x: int| 0 <= x < q1.len() implies (#[trigger] q1[x]).state
                                != CoState::Finished by {
                                assert(q1[x] == q0[x]);
                            }
                        } else {
                            assert(mid.procs@[i] == old(self).procs@[i]);
                        }
                    };
                    assert(mid.wf());
                }
                self.resume(pid, c);
                proof {
                    lemma_rel_preserves_wf(
                        mid,
                        *self,
                        pid as int,
                        c,
                        run_queue_items(mid.procs@[pid as int].queue),
                    );
                    assert(resume_rel(*old(self), *self, pid as int, c, q0.drop_last()));
                }
                StepAction::Resumed
            },
            None => {
                // 2. Drain the inbox, tracking whether the queue got work.
                let mut dirty = false;
                let ghost mut processed: Seq<ProcMessage> = Seq::empty();
                proof {
                    assert(old(self).procs@[pid as int].inbox@ =~= processed + self.procs@[pid as int].inbox@);
                    assert(run_queue_items(self.procs@[pid as int].queue) =~= msgs_ready_coros(
                        processed,
                        pid,
                    ));
                    assert(self.procs@[pid as int].neighbor_stealers@ =~= old(self).procs@[pid as int].neighbor_stealers@
                        + msgs_neighbors(processed));
                }
                while !self.procs[pid].inbox_empty()
                    invariant
                        pid < self.procs@.len(),
                        self.procs@.len() == old(self).procs@.len(),
                        old(self).wf(),
                        !old(self).procs@[pid as int].parked,
                        run_queue_items(old(self).procs@[pid as int].queue).len() == 0,
                        old(self).procs@[pid as int].inbox@ == processed + self.procs@[pid as int].inbox@,
                        forall|ii: int|
                            0 <= ii < processed.len() ==> !((#[trigger] processed[ii]) is Shutdown),
                        run_queue_items(self.procs@[pid as int].queue) == msgs_ready_coros(
                            processed,
                            pid,
                        ),
                        self.procs@[pid as int].neighbor_stealers@ == old(self).procs@[pid as int].neighbor_stealers@
                            + msgs_neighbors(processed),
                        dirty == (msgs_ready_coros(processed, pid).len() > 0),
                        self.procs@[pid as int] == (Processor {
                            queue: self.procs@[pid as int].queue,
                            inbox: self.procs@[pid as int].inbox,
                            neighbor_stealers: self.procs@[pid as int].neighbor_stealers,
                            ..old(self).procs@[pid as int]
                        }),
                        forall|j: int|
                            0 <= j < old(self).procs@.len() && j != pid as int ==> self.procs@[j]
                                == old(self).procs@[j],
                        *self == (World { procs: self.procs, ..*old(self) }),
                    decreases self.procs@[pid as int].inbox@.len(),
                {
                    let ghost ib0 = self.procs@[pid as int].inbox@;
                    let msg = {
                        let pr = &mut self.procs[pid];
                        pr.inbox.try_recv()
                    };
                    match msg {
                        Some(m) => {
                            let ghost mg = m;
                            match m {
                                ProcMessage::NewNeighbor(ns) => {
                                    {
                                        let pr = &mut self.procs[pid];
                                        pr.neighbor_stealers.push(ns);
                                    }
                                    proof {
                                        let p0 = processed;
                                        processed = p0.push(mg);
                                        assert(processed.drop_last() =~= p0);
                                        assert(processed.last() == mg);
                                        assert(msgs_neighbors(processed) =~= msgs_neighbors(p0)
                                            + seq![(PeerStealer { target: ns.target })]);
                                        assert(msgs_ready_coros(processed, pid)
                                            =~= msgs_ready_coros(p0, pid));
                                        assert(old(self).procs@[pid as int].inbox@ =~= processed
                                            + self.procs@[pid as int].inbox@);
                                        assert(self.procs@[pid as int].neighbor_stealers@
                                            =~= old(self).procs@[pid as int].neighbor_stealers@
                                            + msgs_neighbors(processed));
                                    }
                                },
                                ProcMessage::Shutdown => {
                                    let ghost wd = *self;
                                    proof {
                                        assert(old(self).procs@[pid as int].inbox@[processed.len() as int]
                                            is Shutdown);
                                        assert(wd.procs@[pid as int].parked == old(self).procs@[pid as int].parked);
                                    }
                                    self.shutdown_drain(pid);
                                    proof {
                                        assert(self.procs@[pid as int].parked == wd.procs@[pid as int].parked);
                                        assert(!self.procs@[pid as int].parked);
                                        let rest = wd.procs@[pid as int].inbox@;
                                        let wq = run_queue_items(wd.procs@[pid as int].queue);
                                        assert(ib0 =~= seq![ProcMessage::Shutdown] + rest);
                                        assert forall|id2: usize|
                                            (#[trigger] crate::laws::count_ids(
                                                self.dropped@,
                                                id2,
                                            )) == crate::laws::count_ids(old(self).dropped@, id2)
                                                + crate::laws::count_ready(
                                                old(self).procs@[pid as int].inbox@,
                                                id2,
                                            ) by {
                                            crate::laws::lemma_count_ids_concat(
                                                wd.dropped@ + ready_ids(rest),
                                                rev_ids(wq),
                                                id2,
                                            );
                                            crate::laws::lemma_count_ids_concat(
                                                wd.dropped@,
                                                ready_ids(rest),
                                                id2,
                                            );
                                            crate::laws::lemma_ready_ids_count(rest, id2);
                                            crate::laws::lemma_rev_ids_count(wq, id2);
                                            crate::laws::lemma_absorb_conserves_handles(
                                                processed,
                                                pid,
                                                id2,
                                            );
                                            crate::laws::lemma_count_ready_concat(
                                                processed,
                                                ib0,
                                                id2,
                                            );
                                            crate::laws::lemma_count_ready_concat(
                                                seq![ProcMessage::Shutdown],
                                                rest,
                                                id2,
                                            );
                                            assert(crate::laws::count_ready(
                                                Seq::<ProcMessage>::empty(),
                                                id2,
                                            ) == 0);
                                            assert(seq![ProcMessage::Shutdown].drop_last()
                                                =~= Seq::<ProcMessage>::empty());
                                            assert(crate::laws::count_ready(
                                                seq![ProcMessage::Shutdown],
                                                id2,
                                            ) == 0);
                                        };
                                        assert forall|i: int|
                                            0 <= i < self.procs@.len() implies proc_wf(
                                            #[trigger] self.procs@[i],
                                            i,
                                        ) by {
                                            if i != pid as int {
                                                assert(self.procs@[i] == old(self).procs@[i]);
                                            }
                                        };
                                    }
                                    return StepAction::ShutdownNow;
                                },
                                ProcMessage::Ready(c4) => {
                                    let mut c4 = c4;
                                    let wk = {
                                        let pr = &self.procs[pid];
                                        *pr.weak_self()
                                    };
                                    c4.set_preferred_processor(Some(wk));
                                    {
                                        let pr = &mut self.procs[pid];
                                        pr.ready(c4);
                                    }
                                    dirty = true;
                                    proof {
                                        let p0 = processed;
                                        processed = p0.push(mg);
                                        assert(processed.drop_last() =~= p0);
                                        assert(processed.last() == mg);
                                        assert(msgs_ready_coros(processed, pid)
                                            =~= msgs_ready_coros(p0, pid) + seq![
                                            (Coroutine {
                                                preferred: Some((WeakProcessor { pid: pid })),
                                                ..mg->Ready_0
                                            }),
                                        ]);
                                        assert(msgs_neighbors(processed) =~= msgs_neighbors(p0));
                                        assert(old(self).procs@[pid as int].inbox@ =~= processed
                                            + self.procs@[pid as int].inbox@);
                                        assert(run_queue_items(self.procs@[pid as int].queue)
                                            =~= msgs_ready_coros(processed, pid));
                                        assert(self.procs@[pid as int].neighbor_stealers@
                                            =~= old(self).procs@[pid as int].neighbor_stealers@
                                            + msgs_neighbors(processed));
                                    }
                                },
                            }
                        },
                        None => {
                            proof {
                                assert(false);
                            }
                        },
                    }
                }
                proof {
                    assert(old(self).procs@[pid as int].inbox@ =~= processed);
                }
                if dirty {
                    // 3. Restart rule: locally absorbed work runs before
                    // stealing.
                    proof {
                        lemma_msgs_ready_coros_ok(old(self).procs@[pid as int].inbox@, pid);
                        assert forall|i: int| 0 <= i < self.procs@.len() implies proc_wf(
                            #[trigger] self.procs@[i],
                            i,
                        ) by {
                            if i != pid as int {
                                assert(self.procs@[i] == old(self).procs@[i]);
                            }
                        };
                    }
                    return StepAction::Absorbed;
                }
                // 4. Steal from a random neighbor.
                let ghost w1 = *self;
                proof {
                    assert forall|i: int| 0 <= i < w1.procs@.len() implies proc_wf(
                        #[trigger] w1.procs@[i],
                        i,
                    ) by {
                        if i != pid as int {
                            assert(w1.procs@[i] == old(self).procs@[i]);
                        }
                    };
                    assert(w1.wf());
                }
                let n = {
                    let pr = &self.procs[pid];
                    pr.neighbor_stealers.len()
                };
                let mut stole = false;
                if n > 0 {
                    let rnd: usize = random_usize();
                    let base = rnd % n;
                    let mut idx: usize = 0;
                    while idx < n && !stole
                        invariant
                            pid < w1.procs@.len(),
                            w1.wf(),
                            0 < n,
                            base < n,
                            idx <= n,
                            n == w1.procs@[pid as int].neighbor_stealers@.len(),
                            old(self).wf(),
                            !old(self).procs@[pid as int].parked,
                            run_queue_items(old(self).procs@[pid as int].queue).len() == 0,
                            !has_shutdown(old(self).procs@[pid as int].inbox@),
                            msgs_ready_coros(old(self).procs@[pid as int].inbox@, pid).len() == 0,
                            w1.procs@.len() == old(self).procs@.len(),
                            w1.programs@ == old(self).programs@,
                            w1.scheduler == old(self).scheduler,
                            w1.slots@ == old(self).slots@,
                            w1.log@ == old(self).log@,
                            w1.finished@ == old(self).finished@,
                            w1.dropped@ == old(self).dropped@,
                            w1.next_id == old(self).next_id,
                            w1.running == old(self).running,
                            forall|j: int|
                                0 <= j < old(self).procs@.len() && j != pid as int
                                    ==> w1.procs@[j] == old(self).procs@[j],
                            w1.procs@[pid as int].neighbor_stealers@ == old(self).procs@[pid as int].neighbor_stealers@
                                + msgs_neighbors(old(self).procs@[pid as int].inbox@),
                            w1.procs@[pid as int].id == old(self).procs@[pid as int].id,
                            w1.procs@[pid as int].weak_self == old(self).procs@[pid as int].weak_self,
                            w1.procs@[pid as int].current_coro == old(self).procs@[pid as int].current_coro,
                            w1.procs@[pid as int].carrier == old(self).procs@[pid as int].carrier,
                            w1.procs@[pid as int].parked == old(self).procs@[pid as int].parked,
                            w1.procs@[pid as int].alive == old(self).procs@[pid as int].alive,
                            run_queue_items(w1.procs@[pid as int].queue).len() == 0,
                            w1.procs@[pid as int].inbox@.len() == 0,
                            self.wf(),
                            self.procs@.len() == w1.procs@.len(),
                            self.programs@ == w1.programs@,
                            !self.procs@[pid as int].parked,
                            !stole ==> {
                                &&& run_queue_items(self.procs@[pid as int].queue).len() == 0
                                &&& self.procs@[pid as int].inbox@.len() == 0
                                &&& self.procs@[pid as int].neighbor_stealers@
                                    == w1.procs@[pid as int].neighbor_stealers@
                                &&& self.log@ == w1.log@
                                &&& self.finished@ == w1.finished@
                                &&& self.dropped@ == w1.dropped@
                                &&& self.next_id == w1.next_id
                                &&& self.slots@ == w1.slots@
                                &&& self.scheduler == w1.scheduler
                                &&& self.procs@[pid as int].alive == w1.procs@[pid as int].alive
                                &&& forall|j: int|
                                    0 <= j < w1.procs@.len() && j != pid as int
                                        ==> self.procs@[j] == w1.procs@[j]
                            },
                            stole ==> {
                                &&& self.scheduler == w1.scheduler
                                &&& exists|v: int, mid: World|
                                    #[trigger] steal_rel(*old(self), mid, *self, pid as int, v)
                            },
                        decreases n - idx,
                    {
                        let j = if idx < n - base {
                            base + idx
                        } else {
                            idx - (n - base)
                        };
                        let t = {
                            let pr = &self.procs[pid];
                            pr.neighbor_stealers[j].target
                        };
                        if t < self.procs.len() {
                            let ghost pre = *self;
                            proof {
                                if t != pid {
                                    assert(self.procs@[t as int] == w1.procs@[t as int]);
                                    assert(w1.procs@[t as int] == old(self).procs@[t as int]);
                                }
                            }
                            let res = {
                                let prv = &mut self.procs[t];
                                prv.queue.steal()
                            };
                            match res {
                                Stolen::Data(c5) => {
                                    let ghost v0 = run_queue_items(pre.procs@[t as int].queue);
                                    let ghost mid2 = *self;
                                    proof {
                                        assert(c5 == v0[0]);
                                        assert((#[trigger] v0[0]).state != CoState::Finished);
                                        assert forall|i: int|
                                            0 <= i < mid2.procs@.len() implies proc_wf(
                                            #[trigger] mid2.procs@[i],
                                            i,
                                        ) by {
                                            if i == t as int {
                                                let v1 = run_queue_items(
                                                    mid2.procs@[t as int].queue,
                                                );
                                                assert forall|x: int|
                                                    0 <= x < v1.len() implies (#[trigger] v1[x]).state
                                                    != CoState::Finished by {
                                                    assert(v1[x] == v0[x + 1]);
                                                }
                                            } else {
                                                assert(mid2.procs@[i] == pre.procs@[i]);
                                            }
                                        };
                                        assert(mid2.wf());
                                    }
                                    self.resume(pid, c5);
                                    proof {
                                        lemma_rel_preserves_wf(
                                            mid2,
                                            *self,
                                            pid as int,
                                            c5,
                                            run_queue_items(mid2.procs@[pid as int].queue),
                                        );
                                        let a = *old(self);
                                        let neighbors1 = a.procs@[pid as int].neighbor_stealers@
                                            + msgs_neighbors(a.procs@[pid as int].inbox@);
                                        assert(neighbors1
                                            == w1.procs@[pid as int].neighbor_stealers@);
                                        assert(neighbors1[j as int]
                                            == (PeerStealer { target: t }));
                                        assert(t != pid);
                                        assert(pre.procs@[t as int] == a.procs@[t as int]);
                                        assert(run_queue_items(a.procs@[t as int].queue) == v0);
                                        assert(v0.first() == v0[0]);
                                        assert(mid2.procs@[t as int] == (Processor {
                                            queue: mid2.procs@[t as int].queue,
                                            ..pre.procs@[t as int]
                                        }));
                                        assert(mid2.procs@[t as int] == (Processor {
                                            queue: mid2.procs@[t as int].queue,
                                            ..a.procs@[t as int]
                                        }));
                                        assert(mid2.procs@.len() == a.procs@.len());
                                        assert(mid2.programs@ == a.programs@);
                                        assert(mid2.scheduler == a.scheduler);
                                        assert(mid2.slots@ == a.slots@);
                                        assert(mid2.log@ == a.log@);
                                        assert(mid2.finished@ == a.finished@);
                                        assert(mid2.dropped@ == a.dropped@);
                                        assert(mid2.next_id == a.next_id);
                                        assert(mid2.running == a.running);
                                        assert(mid2.procs@[pid as int].id == a.procs@[pid as int].id);
                                        assert(mid2.procs@[pid as int].weak_self
                                            == a.procs@[pid as int].weak_self);
                                        assert(mid2.procs@[pid as int].current_coro
                                            == a.procs@[pid as int].current_coro);
                                        assert(mid2.procs@[pid as int].carrier
                                            == a.procs@[pid as int].carrier);
                                        assert(mid2.procs@[pid as int].parked
                                            == a.procs@[pid as int].parked);
                                        assert(mid2.procs@[pid as int].alive
                                            == a.procs@[pid as int].alive);
                                        assert(run_queue_items(mid2.procs@[pid as int].queue).len()
                                            == 0);
                                        assert(mid2.procs@[pid as int].inbox@.len() == 0);
                                        assert(mid2.procs@[pid as int].neighbor_stealers@
                                            == neighbors1);
                                        assert(run_queue_items(mid2.procs@[t as int].queue)
                                            == v0.drop_first());
                                        assert forall|jj: int|
                                            0 <= jj < a.procs@.len() && jj != pid as int && jj
                                                != t as int implies mid2.procs@[jj]
                                                == a.procs@[jj] by {
                                            assert(w1.procs@[jj] == old(self).procs@[jj]);
                                            assert(pre.procs@[jj] == w1.procs@[jj]);
                                            assert(mid2.procs@[jj] == pre.procs@[jj]);
                                        };
                                        assert(steal_rel(a, mid2, *self, pid as int, j as int));
                                        assert(exists|v: int, mid: World|
                                            #[trigger] steal_rel(a, mid, *self, pid as int, v));
                                    }
                                    stole = true;
                                },
                                Stolen::Empty => {},
                                Stolen::Abort => {},
                            }
                        }
                        idx += 1;
                    }
                }
                if stole {
                    return StepAction::Stole;
                }
                // 5. Nothing anywhere: park with the scheduler and block
                // on the inbox.
                let ghost w2 = *self;
                let h = {
                    let pr = &self.procs[pid];
                    pr.handle()
                };
                proof {
                    assert(h == (ProcMessageSender { target: pid }));
                    assert(w2.scheduler == old(self).scheduler);
                }
                self.scheduler.park_processor(pid, h);
                {
                    let pr = &mut self.procs[pid];
                    pr.parked = true;
                }
                proof {
                    assert forall|i: int| 0 <= i < self.procs@.len() implies proc_wf(
                        #[trigger] self.procs@[i],
                        i,
                    ) by {
                        if i != pid as int {
                            assert(self.procs@[i] == w2.procs@[i]);
                        }
                    };
                }
                StepAction::ParkedNow
            },
        }
    }

    /// The blocking receive of a parked processor: with no message it
    /// stays blocked; the shutdown signal exits into the drain; any
    /// other message is interpreted as in the inbox drain, the
    /// scheduler's idle record is cleared, and the processor unparks.
    pub fn parked_recv(&mut self, pid: usize) -> (r: WakeOutcome)
        requires
            old(self).wf(),
            pid < old(self).procs@.len(),
            old(self).procs@[pid as int].parked,
        ensures
            r == WakeOutcome::Blocked ==> {
                &&& old(self).procs@[pid as int].inbox@.len() == 0
                &&& final(self).procs@ == old(self).procs@
                &&& *final(self) == (World { procs: final(self).procs, ..*old(self) })
            },
            r == WakeOutcome::Woken ==> wake_rel(*old(self), *final(self), pid as int),
            r == WakeOutcome::ShutdownWake ==> shutdown_wake_rel(*old(self), *final(self), pid as int),
    {
        let msg = {
            let pr = &mut self.procs[pid];
            pr.inbox.try_recv()
        };
        match msg {
            None => {
                proof {
                    assert(self.procs@ =~= old(self).procs@);
                }
                WakeOutcome::Blocked
            },
            Some(ProcMessage::Shutdown) => {
                self.shutdown_drain(pid);
                proof {
                    assert forall|i: int| 0 <= i < self.procs@.len() implies proc_wf(
                        #[trigger] self.procs@[i],
                        i,
                    ) by {
                        if i != pid as int {
                            assert(self.procs@[i] == old(self).procs@[i]);
                        }
                    };
                }
                WakeOutcome::ShutdownWake
            },
            Some(ProcMessage::NewNeighbor(ns)) => {
                {
                    let pr = &mut self.procs[pid];
                    pr.neighbor_stealers.push(ns);
                }
                self.scheduler.unpark_processor(pid);
                {
                    let pr = &mut self.procs[pid];
                    pr.parked = false;
                }
                proof {
                    assert forall|i: int| 0 <= i < self.procs@.len() implies proc_wf(
                        #[trigger] self.procs@[i],
                        i,
                    ) by {
                        if i == pid as int {
                            let ib0 = old(self).procs@[pid as int].inbox@;
                            let ib1 = self.procs@[pid as int].inbox@;
                            assert forall|y: int| 0 <= y < ib1.len() implies ((#[trigger] ib1[y])
                                matches ProcMessage::Ready(cc) ==> cc.state != CoState::Finished) by {
                                assert(ib1[y] == ib0[y + 1]);
                            };
                        } else {
                            assert(self.procs@[i] == old(self).procs@[i]);
                        }
                    };
                }
                WakeOutcome::Woken
            },
            Some(ProcMessage::Ready(c6)) => {
                let mut c6 = c6;
                let wk = {
                    let pr = &self.procs[pid];
                    *pr.weak_self()
                };
                c6.set_preferred_processor(Some(wk));
                {
                    let pr = &mut self.procs[pid];
                    pr.ready(c6);
                }
                self.scheduler.unpark_processor(pid);
                {
                    let pr = &mut self.procs[pid];
                    pr.parked = false;
                }
                proof {
                    assert forall|i: int| 0 <= i < self.procs@.len() implies proc_wf(
                        #[trigger] self.procs@[i],
                        i,
                    ) by {
                        if i == pid as int {
                            let q0 = run_queue_items(old(self).procs@[pid as int].queue);
                            let q1 = run_queue_items(self.procs@[pid as int].queue);
                            assert forall|x: int| 0 <= x < q1.len() implies (#[trigger] q1[x]).state
                                != CoState::Finished by {
                                if x < q0.len() {
                                    assert(q1[x] == q0[x]);
                                }
                            };
                            let ib0 = old(self).procs@[pid as int].inbox@;
                            let ib1 = self.procs@[pid as int].inbox@;
                            assert forall|y: int| 0 <= y < ib1.len() implies ((#[trigger] ib1[y])
                                matches ProcMessage::Ready(cc) ==> cc.state != CoState::Finished) by {
                                assert(ib1[y] == ib0[y + 1]);
                            };
                        } else {
                            assert(self.procs@[i] == old(self).procs@[i]);
                        }
                    };
                }
                WakeOutcome::Woken
            },
        }
    }

    /// The worker loop as a relation: `b` is reachable from `a` by a
    /// chain of at most `fuel` scheduling passes, each one a
    /// [`step_rel`] outcome.  The chain ends at a shutdown or a park
    /// with the matching exit; only a chain of exactly `fuel` passes
    /// without either ends out of fuel, and a zero fuel bound does
    /// nothing at all.
    pub open spec fn loop_rel(a: World, b: World, pid: int, fuel: nat, r: ScheduleExit) -> bool
        decreases fuel,
    {
        if fuel == 0 {
            &&& r == ScheduleExit::OutOfFuel
            &&& b == a
        } else {
            ||| (step_rel(a, b, pid, StepAction::ShutdownNow) && r == ScheduleExit::Shutdown)
            ||| (step_rel(a, b, pid, StepAction::ParkedNow) && r == ScheduleExit::Parked)
            ||| (exists|mid: World, act: StepAction|
                #[trigger] step_rel(a, mid, pid, act) && (act == StepAction::Resumed || act
                    == StepAction::Absorbed || act == StepAction::Stole) && Self::loop_rel(
                    mid,
                    b,
                    pid,
                    (fuel - 1) as nat,
                    r,
                ))
        }
    }

    /// `schedule` on an already-parked processor: it stays blocked on an
    /// empty inbox, exits into the drain on a shutdown signal, or wakes
    /// as [`wake_rel`] says and then runs the loop.
    pub open spec fn parked_entry_rel(a: World, b: World, pid: int, fuel: nat, r: ScheduleExit) -> bool {
        ||| {
            &&& a.procs@[pid].inbox@.len() == 0
            &&& r == ScheduleExit::Parked
            &&& b.procs@ == a.procs@
            &&& b == (World { procs: b.procs, ..a })
        }
        ||| (shutdown_wake_rel(a, b, pid) && r == ScheduleExit::Shutdown)
        ||| (exists|mid: World|
            #[trigger] wake_rel(a, mid, pid) && Self::loop_rel(mid, b, pid, fuel, r))
    }

    /// The worker loop, bounded by fuel: serve the local queue, the
    /// inbox, then steal, and park when idle.  A parked processor first
    /// blocks on its inbox: with no message it stays parked, otherwise
    /// it interprets the first message, unparks, and continues.
    pub fn schedule(&mut self, pid: usize, fuel: usize) -> (r: ScheduleExit)
        requires
            old(self).wf(),
            pid < old(self).procs@.len(),
        ensures
            final(self).wf(),
            final(self).procs@.len() == old(self).procs@.len(),
            final(self).programs@ == old(self).programs@,
            r == ScheduleExit::Shutdown ==> {
                &&& run_queue_items(final(self).procs@[pid as int].queue).len() == 0
                &&& final(self).procs@[pid as int].inbox@.len() == 0
                &&& !final(self).procs@[pid as int].alive
            },
            r == ScheduleExit::Parked ==> {
                &&& final(self).procs@[pid as int].parked
                &&& final(self).procs@[pid as int].inbox@.len() == 0
            },
            fuel == 0 && !old(self).procs@[pid as int].parked ==> r == ScheduleExit::OutOfFuel
                && *final(self) == *old(self),
            !old(self).procs@[pid as int].parked ==> Self::loop_rel(
                *old(self),
                *final(self),
                pid as int,
                fuel as nat,
                r,
            ),
            old(self).procs@[pid as int].parked ==> Self::parked_entry_rel(
                *old(self),
                *final(self),
                pid as int,
                fuel as nat,
                r,
            ),
    {
        if self.procs[pid].parked {
            // Blocking receive while parked.
            match self.parked_recv(pid) {
                WakeOutcome::Blocked => {
                    return ScheduleExit::Parked;
                },
                WakeOutcome::ShutdownWake => {
                    return ScheduleExit::Shutdown;
                },
                WakeOutcome::Woken => {},
            }
        }
        let mut fuel_left = fuel;
        proof {
            if old(self).procs@[pid as int].parked {
                assert(wake_rel(*old(self), *self, pid as int));
                assert forall|b2: World, r2: ScheduleExit|
                    #[trigger] Self::loop_rel(*self, b2, pid as int, fuel as nat, r2)
                        implies Self::parked_entry_rel(
                        *old(self),
                        b2,
                        pid as int,
                        fuel as nat,
                        r2,
                    ) by {
                    assert(wake_rel(*old(self), *self, pid as int) && Self::loop_rel(
                        *self,
                        b2,
                        pid as int,
                        fuel as nat,
                        r2,
                    ));
                };
            }
        }
        while fuel_left > 0
            invariant
                self.wf(),
                pid < self.procs@.len(),
                !self.procs@[pid as int].parked,
                self.procs@.len() == old(self).procs@.len(),
                self.programs@ == old(self).programs@,
                fuel_left <= fuel,
                !old(self).procs@[pid as int].parked ==> (forall|b2: World, r2: ScheduleExit|
                    #[trigger] Self::loop_rel(*self, b2, pid as int, fuel_left as nat, r2)
                        ==> Self::loop_rel(*old(self), b2, pid as int, fuel as nat, r2)),
                old(self).procs@[pid as int].parked ==> (forall|b2: World, r2: ScheduleExit|
                    #[trigger] Self::loop_rel(*self, b2, pid as int, fuel_left as nat, r2)
                        ==> Self::parked_entry_rel(*old(self), b2, pid as int, fuel as nat, r2)),
            decreases fuel_left,
        {
            let ghost s_pre = *self;
            let ghost fl0 = fuel_left;
            let act = self.schedule_step(pid);
            proof {
                assert(step_rel(s_pre, *self, pid as int, act));
            }
            match act {
                StepAction::ShutdownNow => {
                    proof {
                        assert(Self::loop_rel(
                            s_pre,
                            *self,
                            pid as int,
                            fl0 as nat,
                            ScheduleExit::Shutdown,
                        ));
                    }
                    return ScheduleExit::Shutdown;
                },
                StepAction::ParkedNow => {
                    proof {
                        assert(Self::loop_rel(
                            s_pre,
                            *self,
                            pid as int,
                            fl0 as nat,
                            ScheduleExit::Parked,
                        ));
                    }
                    return ScheduleExit::Parked;
                },
                _ => {},
            }
            fuel_left -= 1;
            proof {
                assert(act == StepAction::Resumed || act == StepAction::Absorbed || act
                    == StepAction::Stole);
                if !old(self).procs@[pid as int].parked {
                    assert forall|b2: World, r2: ScheduleExit|
                        #[trigger] Self::loop_rel(*self, b2, pid as int, fuel_left as nat, r2)
                            implies Self::loop_rel(*old(self), b2, pid as int, fuel as nat, r2) by {
                        assert(step_rel(s_pre, *self, pid as int, act) && Self::loop_rel(
                            *self,
                            b2,
                            pid as int,
                            (fl0 - 1) as nat,
                            r2,
                        ));
                        assert(Self::loop_rel(s_pre, b2, pid as int, fl0 as nat, r2));
                    };
                } else {
                    assert forall|b2: World, r2: ScheduleExit|
                        #[trigger] Self::loop_rel(*self, b2, pid as int, fuel_left as nat, r2)
                            implies Self::parked_entry_rel(
                        *old(self),
                        b2,
                        pid as int,
                        fuel as nat,
                        r2,
                    ) by {
                        assert(step_rel(s_pre, *self, pid as int, act) && Self::loop_rel(
                            *self,
                            b2,
                            pid as int,
                            (fl0 - 1) as nat,
                            r2,
                        ));
                        assert(Self::loop_rel(s_pre, b2, pid as int, fl0 as nat, r2));
                    };
                }
            }
        }
        proof {
            assert(Self::loop_rel(*self, *self, pid as int, 0nat, ScheduleExit::OutOfFuel));
        }
        ScheduleExit::OutOfFuel
    }
}


} // verus!
