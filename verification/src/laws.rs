//! Laws of the scheduling design, stated and proved over the same spec
//! functions the executable contracts use.

use vstd::prelude::*;
use crate::coroutine::{interp_log, interp_park, interp_state, CoState, Coroutine, ParkOp};
use crate::processor::{ProcMessage, WeakProcessor};
use crate::runqueue::run_queue_items;
use crate::sched::{
    lemma_interp_next_id_monotonic, lemma_interp_spawned_ok, msgs_ready_coros, ready_ids,
    resume_rel, rev_ids, steal_rel, step_rel, ScheduleExit, StepAction,
};
use crate::world::{proc_wf, World};

verus! {

broadcast use vstd::seq_lib::group_seq_properties;

/// Running a freshly spawned coroutine has exactly the effect of
/// invoking its program directly: the shared log grows by the program's
/// emissions from its start, whatever processor the coroutine lands on
/// and whatever else the world holds — other coroutines only interleave
/// around this round.
pub proof fn lemma_spawn_runs_as_direct_invocation(
    a: World,
    b: World,
    pid: int,
    c: Coroutine,
    qbase: Seq<Coroutine>,
)
    requires
        0 <= pid < a.procs@.len(),
        resume_rel(a, b, pid, c, qbase),
        c.pc == 0,
        c.program < a.programs@.len(),
    ensures
        b.log@ == a.log@ + interp_log(a.programs@[c.program as int]@, 0, c.id),
{
}

/// A suspended yield with an empty local queue and an empty inbox is
/// observationally a no-op, up to the intentional inbox round-trip:
/// draining the sole re-posted `Ready` message puts exactly the
/// suspender — same identity, program and resume point — back as the
/// only coroutine in the queue, so the next action of the loop
/// (`schedule_step`'s contract) is to pop and resume it.
pub proof fn lemma_sched_noop_roundtrip(c: Coroutine, pid: usize)
    ensures
        msgs_ready_coros(seq![ProcMessage::Ready(c)], pid) == seq![
            (Coroutine { preferred: Some((WeakProcessor { pid: pid })), ..c }),
        ],
        msgs_ready_coros(seq![ProcMessage::Ready(c)], pid).len() == 1,
        msgs_ready_coros(seq![ProcMessage::Ready(c)], pid)[0].id == c.id,
        msgs_ready_coros(seq![ProcMessage::Ready(c)], pid)[0].pc == c.pc,
        msgs_ready_coros(seq![ProcMessage::Ready(c)], pid)[0].program == c.program,
        msgs_ready_coros(seq![ProcMessage::Ready(c)], pid)[0].state == c.state,
{
    let s = seq![ProcMessage::Ready(c)];
    let tagged = (Coroutine { preferred: Some((WeakProcessor { pid: pid })), ..c });
    assert(s.drop_last() =~= Seq::<ProcMessage>::empty());
    assert(s.last() == ProcMessage::Ready(c));
    assert(msgs_ready_coros(Seq::<ProcMessage>::empty(), pid) =~= Seq::<Coroutine>::empty());
    assert(msgs_ready_coros(s, pid) == msgs_ready_coros(s.drop_last(), pid) + seq![tagged]);
    assert(msgs_ready_coros(s, pid) =~= seq![tagged]);
}

/// Every coroutine delivered through a `Ready` message to processor
/// `pid` comes out of the drain tagged with `pid` as its preferred
/// home; upgrading that back-reference while the processor lives yields
/// the processor itself (`WeakProcessor::upgrade`'s contract).
pub proof fn lemma_ready_delivery_tags_preferred(s: Seq<ProcMessage>, pid: usize)
    ensures
        forall|i: int|
            0 <= i < msgs_ready_coros(s, pid).len() ==> (#[trigger] msgs_ready_coros(s, pid)[i]).preferred
                == Some((WeakProcessor { pid: pid })),
    decreases s.len(),
{
    if s.len() == 0 {
    } else {
        lemma_ready_delivery_tags_preferred(s.drop_last(), pid);
        let r = msgs_ready_coros(s, pid);
        let rp = msgs_ready_coros(s.drop_last(), pid);
        assert forall|i: int| 0 <= i < r.len() implies (#[trigger] r[i]).preferred == Some(
            (WeakProcessor { pid: pid }),
        ) by {
            if i < rp.len() {
                assert(r[i] == rp[i]);
            }
        }
    }
}

/// A park continuation receives the unique live reference to the
/// coroutine: after the driver hands a parked coroutine to a storing
/// continuation, the handle sits in the chosen slot, and no coroutine
/// with its identity remains in the processor's queue or inbox —
/// provided, as ownership guarantees, that the caller's reference was
/// the only one to begin with.
pub proof fn lemma_park_unique_ownership(
    a: World,
    b: World,
    pid: int,
    c: Coroutine,
    qbase: Seq<Coroutine>,
    s: usize,
)
    requires
        0 <= pid < a.procs@.len(),
        resume_rel(a, b, pid, c, qbase),
        c.program < a.programs@.len(),
        interp_state(a.programs@[c.program as int]@, c.pc as int) == CoState::Parked,
        interp_park(a.programs@[c.program as int]@, c.pc as int) == Some(ParkOp::Store(s)),
        s < a.slots@.len(),
        c.id < a.next_id,
        forall|i: int| 0 <= i < qbase.len() ==> (#[trigger] qbase[i]).id != c.id,
        forall|i: int|
            0 <= i < a.procs@[pid].inbox@.len() ==> ((#[trigger] a.procs@[pid].inbox@[i])
                matches ProcMessage::Ready(cc) ==> cc.id != c.id),
    ensures
        b.slots@[s as int] matches Some(cc) && cc.id == c.id && cc.program == c.program,
        forall|i: int|
            0 <= i < run_queue_items(b.procs@[pid].queue).len() ==> (#[trigger] run_queue_items(
                b.procs@[pid].queue,
            )[i]).id != c.id,
        forall|i: int|
            0 <= i < b.procs@[pid].inbox@.len() ==> ((#[trigger] b.procs@[pid].inbox@[i])
                matches ProcMessage::Ready(cc) ==> cc.id != c.id),
{
    let prog = a.programs@[c.program as int]@;
    let pc = c.pc as int;
    let nprogs = a.programs@.len() as int;
    lemma_interp_spawned_ok(prog, pc, nprogs, a.next_id, pid as usize);
    let sp = crate::coroutine::interp_spawned(prog, pc, nprogs, a.next_id, pid as usize);
    let qb = run_queue_items(b.procs@[pid].queue);
    assert forall|i: int| 0 <= i < qb.len() implies (#[trigger] qb[i]).id != c.id by {
        if i < qbase.len() {
            assert(qb[i] == qbase[i]);
        } else {
            assert(qb[i] == sp[i - qbase.len()]);
        }
    }
}

/// Occurrences of an identity in a list of retired identities.
pub open spec fn count_ids(s: Seq<usize>, id: usize) -> nat
    decreases s.len(),
{
    if s.len() == 0 {
        0
    } else {
        count_ids(s.drop_last(), id) + (if s.last() == id {
            1nat
        } else {
            0nat
        })
    }
}

/// Occurrences of an identity among queued coroutines.
pub open spec fn count_coros(s: Seq<Coroutine>, id: usize) -> nat
    decreases s.len(),
{
    if s.len() == 0 {
        0
    } else {
        count_coros(s.drop_last(), id) + (if s.last().id == id {
            1nat
        } else {
            0nat
        })
    }
}

/// Occurrences of an identity among the `Ready` payloads of an inbox.
pub open spec fn count_ready(s: Seq<ProcMessage>, id: usize) -> nat
    decreases s.len(),
{
    if s.len() == 0 {
        0
    } else {
        count_ready(s.drop_last(), id) + (match s.last() {
            ProcMessage::Ready(c) => if c.id == id {
                1nat
            } else {
                0nat
            },
            _ => 0nat,
        })
    }
}

/// Occurrence of an identity in an optional holder.
pub open spec fn count_opt(o: Option<Coroutine>, id: usize) -> nat {
    match o {
        Some(c) => if c.id == id {
            1nat
        } else {
            0nat
        },
        None => 0nat,
    }
}

/// Occurrences of an identity across the external park slots.
pub open spec fn count_slots(s: Seq<Option<Coroutine>>, id: usize) -> nat
    decreases s.len(),
{
    if s.len() == 0 {
        0
    } else {
        count_slots(s.drop_last(), id) + count_opt(s.last(), id)
    }
}

/// How many of the places one driver round can touch hold the identity
/// `id`: processor `pid`'s run queue, inbox and current slot, the
/// external park slots, and the two retirement lists.
pub open spec fn held_count(w: World, pid: int, id: usize) -> nat {
    count_coros(run_queue_items(w.procs@[pid].queue), id) + count_ready(w.procs@[pid].inbox@, id)
        + count_opt(w.procs@[pid].current_coro, id) + count_slots(w.slots@, id) + count_ids(
        w.finished@,
        id,
    ) + count_ids(w.dropped@, id)
}

pub proof fn lemma_count_coros_concat(s1: Seq<Coroutine>, s2: Seq<Coroutine>, id: usize)
    ensures
        count_coros(s1 + s2, id) == count_coros(s1, id) + count_coros(s2, id),
    decreases s2.len(),
{
    if s2.len() == 0 {
        assert(s1 + s2 =~= s1);
    } else {
        assert((s1 + s2).drop_last() =~= s1 + s2.drop_last());
        assert((s1 + s2).last() == s2.last());
        lemma_count_coros_concat(s1, s2.drop_last(), id);
    }
}

pub proof fn lemma_count_coros_zero(s: Seq<Coroutine>, id: usize)
    requires
        forall|i: int| 0 <= i < s.len() ==> (#[trigger] s[i]).id != id,
    ensures
        count_coros(s, id) == 0,
    decreases s.len(),
{
    if s.len() == 0 {
    } else {
        assert forall|i: int| 0 <= i < s.drop_last().len() implies (#[trigger] s.drop_last()[i]).id
            != id by {
            assert(s.drop_last()[i] == s[i]);
        };
        assert(s.last() == s[s.len() - 1]);
        lemma_count_coros_zero(s.drop_last(), id);
    }
}

pub proof fn lemma_count_slots_update(s: Seq<Option<Coroutine>>, i: int, v: Option<Coroutine>, id: usize)
    requires
        0 <= i < s.len(),
    ensures
        count_slots(s.update(i, v), id) + count_opt(s[i], id) == count_slots(s, id) + count_opt(
            v,
            id,
        ),
    decreases s.len(),
{
    let t = s.update(i, v);
    if i == s.len() - 1 {
        assert(t.drop_last() =~= s.drop_last());
        assert(t.last() == v);
    } else {
        assert(t.drop_last() =~= s.drop_last().update(i, v));
        assert(t.last() == s.last());
        lemma_count_slots_update(s.drop_last(), i, v, id);
        assert(s.drop_last()[i] == s[i]);
    }
}

/// Absorbing a drained batch of messages moves each delivered handle
/// from the inbox to the run queue: none is lost, none is duplicated,
/// and tagging the preferred processor does not change identities.
pub proof fn lemma_absorb_conserves_handles(s: Seq<ProcMessage>, pid: usize, id: usize)
    ensures
        count_coros(msgs_ready_coros(s, pid), id) == count_ready(s, id),
    decreases s.len(),
{
    if s.len() == 0 {
    } else {
        lemma_absorb_conserves_handles(s.drop_last(), pid, id);
        let r = msgs_ready_coros(s, pid);
        let rp = msgs_ready_coros(s.drop_last(), pid);
        match s.last() {
            ProcMessage::Ready(c) => {
                let tagged = (Coroutine { preferred: Some((WeakProcessor { pid: pid })), ..c });
                let one = seq![tagged];
                lemma_count_coros_concat(rp, one, id);
                assert(one.drop_last() =~= Seq::<Coroutine>::empty());
                assert(one.last() == tagged);
                assert(count_coros(Seq::<Coroutine>::empty(), id) == 0);
                assert(count_coros(one, id) == if tagged.id == id {
                    1nat
                } else {
                    0nat
                });
            },
            _ => {
                assert(r =~= rp + Seq::<Coroutine>::empty());
                lemma_count_coros_concat(rp, Seq::<Coroutine>::empty(), id);
            },
        }
    }
}

/// One round of the driver neither duplicates nor loses any handle:
/// counting the resumed coroutine `c` among the places of the world
/// before (where the queue then held `qbase`), each existing identity
/// occupies as many places after the round as before.  Together with
/// the absence of `Clone` on handles, this is why a coroutine is never
/// leaked and never double-run.
pub proof fn lemma_resume_conserves_handles(
    a: World,
    b: World,
    pid: int,
    c: Coroutine,
    qbase: Seq<Coroutine>,
    id: usize,
)
    requires
        0 <= pid < a.procs@.len(),
        resume_rel(a, b, pid, c, qbase),
        a.procs@[pid].current_coro is None,
        id < a.next_id,
    ensures
        held_count(b, pid, id) + count_coros(run_queue_items(a.procs@[pid].queue), id)
            == held_count(a, pid, id) + count_coros(qbase, id) + (if id == c.id {
            1nat
        } else {
            0nat
        }),
{
    if c.program >= a.programs@.len() {
        assert(b.dropped@.drop_last() =~= a.dropped@);
        assert(b.dropped@.last() == c.id);
        return;
    }
    let prog = a.programs@[c.program as int]@;
    let pc = c.pc as int;
    let nprogs = a.programs@.len() as int;
    let st = interp_state(prog, pc);
    let after = (Coroutine {
        pc: crate::coroutine::interp_end_pc(prog, pc) as usize,
        state: st,
        ..c
    });
    let sp = crate::coroutine::interp_spawned(prog, pc, nprogs, a.next_id, pid as usize);
    lemma_interp_spawned_ok(prog, pc, nprogs, a.next_id, pid as usize);
    assert forall|i: int| 0 <= i < sp.len() implies (#[trigger] sp[i]).id != id by {
        assert(sp[i].id >= a.next_id);
    };
    lemma_count_coros_concat(qbase, sp, id);
    lemma_count_coros_zero(sp, id);
    crate::sched::lemma_interp_state_not_running(prog, pc);
    if st == CoState::Finished {
        assert(b.finished@.drop_last() =~= a.finished@);
        assert(b.finished@.last() == c.id);
    } else if st == CoState::Suspended {
        assert(b.procs@[pid].inbox@.drop_last() =~= a.procs@[pid].inbox@);
        assert(b.procs@[pid].inbox@.last() == ProcMessage::Ready(after));
    } else {
        match interp_park(prog, pc) {
            Some(ParkOp::Store(s)) => {
                if s < a.slots@.len() {
                    lemma_count_slots_update(a.slots@, s as int, Some(after), id);
                    match a.slots@[s as int] {
                        Some(prev) => {
                            assert(b.dropped@.drop_last() =~= a.dropped@);
                            assert(b.dropped@.last() == prev.id);
                        },
                        None => {},
                    }
                } else {
                    assert(b.dropped@.drop_last() =~= a.dropped@);
                    assert(b.dropped@.last() == c.id);
                }
            },
            _ => {
                assert(b.dropped@.drop_last() =~= a.dropped@);
                assert(b.dropped@.last() == c.id);
            },
        }
    }
}


pub proof fn lemma_count_ready_concat(s1: Seq<ProcMessage>, s2: Seq<ProcMessage>, id: usize)
    ensures
        count_ready(s1 + s2, id) == count_ready(s1, id) + count_ready(s2, id),
    decreases s2.len(),
{
    if s2.len() == 0 {
        assert(s1 + s2 =~= s1);
    } else {
        assert((s1 + s2).drop_last() =~= s1 + s2.drop_last());
        assert((s1 + s2).last() == s2.last());
        lemma_count_ready_concat(s1, s2.drop_last(), id);
    }
}

pub proof fn lemma_count_ids_concat(s1: Seq<usize>, s2: Seq<usize>, id: usize)
    ensures
        count_ids(s1 + s2, id) == count_ids(s1, id) + count_ids(s2, id),
    decreases s2.len(),
{
    if s2.len() == 0 {
        assert(s1 + s2 =~= s1);
    } else {
        assert((s1 + s2).drop_last() =~= s1 + s2.drop_last());
        assert((s1 + s2).last() == s2.last());
        lemma_count_ids_concat(s1, s2.drop_last(), id);
    }
}

pub proof fn lemma_ready_ids_count(s: Seq<ProcMessage>, id: usize)
    ensures
        count_ids(ready_ids(s), id) == count_ready(s, id),
    decreases s.len(),
{
    if s.len() == 0 {
    } else {
        lemma_ready_ids_count(s.drop_last(), id);
        match s.last() {
            ProcMessage::Ready(c) => {
                let one = seq![c.id];
                lemma_count_ids_concat(ready_ids(s.drop_last()), one, id);
                assert(one.drop_last() =~= Seq::<usize>::empty());
                assert(one.last() == c.id);
                assert(count_ids(Seq::<usize>::empty(), id) == 0);
            },
            _ => {
                assert(ready_ids(s) =~= ready_ids(s.drop_last()) + Seq::<usize>::empty());
                lemma_count_ids_concat(ready_ids(s.drop_last()), Seq::<usize>::empty(), id);
            },
        }
    }
}

pub proof fn lemma_rev_ids_count(q: Seq<Coroutine>, id: usize)
    ensures
        count_ids(rev_ids(q), id) == count_coros(q, id),
    decreases q.len(),
{
    if q.len() == 0 {
    } else {
        lemma_rev_ids_count(q.drop_last(), id);
        let one = seq![q.last().id];
        lemma_count_ids_concat(one, rev_ids(q.drop_last()), id);
        assert(one.drop_last() =~= Seq::<usize>::empty());
        assert(one.last() == q.last().id);
        assert(count_ids(Seq::<usize>::empty(), id) == 0);
    }
}

/// A full pop-and-resume pass of the scheduling loop conserves every
/// handle: the popped head of the queue ends in exactly one place —
/// finished, dropped, the inbox, or an external slot — and no other
/// identity moves.  The premise is `schedule_step`'s contract for its
/// `Resumed` action.
pub proof fn lemma_pop_resume_conserves_handles(a: World, b: World, pid: int, id: usize)
    requires
        0 <= pid < a.procs@.len(),
        a.procs@[pid].current_coro is None,
        run_queue_items(a.procs@[pid].queue).len() > 0,
        resume_rel(
            a,
            b,
            pid,
            run_queue_items(a.procs@[pid].queue).last(),
            run_queue_items(a.procs@[pid].queue).drop_last(),
        ),
        id < a.next_id,
    ensures
        held_count(b, pid, id) == held_count(a, pid, id),
{
    let q = run_queue_items(a.procs@[pid].queue);
    lemma_resume_conserves_handles(a, b, pid, q.last(), q.drop_last(), id);
    assert(count_coros(q, id) == count_coros(q.drop_last(), id) + (if q.last().id == id {
        1nat
    } else {
        0nat
    }));
}

/// The shutdown drain destroys every handle still pending — each
/// delivered-but-unrun coroutine of the inbox and each queued one —
/// exactly once: no handle is leaked past the drain and none is
/// destroyed twice.  `shutdown_drain`'s contract supplies the premise.
pub proof fn lemma_shutdown_drain_conserves(
    dropped0: Seq<usize>,
    inbox0: Seq<ProcMessage>,
    q0: Seq<Coroutine>,
    dropped1: Seq<usize>,
    id: usize,
)
    requires
        dropped1 == dropped0 + ready_ids(inbox0) + rev_ids(q0),
    ensures
        count_ids(dropped1, id) == count_ids(dropped0, id) + count_ready(inbox0, id)
            + count_coros(q0, id),
{
    lemma_count_ids_concat(dropped0 + ready_ids(inbox0), rev_ids(q0), id);
    lemma_count_ids_concat(dropped0, ready_ids(inbox0), id);
    lemma_ready_ids_count(inbox0, id);
    lemma_rev_ids_count(q0, id);
}


/// Draining the inbox conserves every handle: each `Ready` payload
/// moves from the inbox to the run queue, and nothing else moves.  The
/// premises are `schedule_step`'s contract for its `Absorbed` action.
pub proof fn lemma_absorb_step_conserves_handles(a: World, b: World, pid: int, id: usize)
    requires
        0 <= pid < a.procs@.len(),
        0 <= pid < b.procs@.len(),
        run_queue_items(a.procs@[pid].queue).len() == 0,
        run_queue_items(b.procs@[pid].queue) == msgs_ready_coros(a.procs@[pid].inbox@, pid as usize),
        b.procs@[pid].inbox@.len() == 0,
        b.procs@[pid].current_coro == a.procs@[pid].current_coro,
        b.slots@ == a.slots@,
        b.finished@ == a.finished@,
        b.dropped@ == a.dropped@,
    ensures
        held_count(b, pid, id) == held_count(a, pid, id),
{
    lemma_absorb_conserves_handles(a.procs@[pid].inbox@, pid as usize, id);
    assert(count_coros(run_queue_items(a.procs@[pid].queue), id) == 0);
    assert(count_ready(b.procs@[pid].inbox@, id) == 0);
}

/// The shutdown drain conserves every handle: each one still pending in
/// the inbox or the queue moves to the dropped list, exactly once.  The
/// premises are `shutdown_drain`'s contract.
pub proof fn lemma_drain_step_conserves_handles(a: World, b: World, pid: int, id: usize)
    requires
        0 <= pid < a.procs@.len(),
        0 <= pid < b.procs@.len(),
        b.dropped@ == a.dropped@ + ready_ids(a.procs@[pid].inbox@) + rev_ids(
            run_queue_items(a.procs@[pid].queue),
        ),
        run_queue_items(b.procs@[pid].queue).len() == 0,
        b.procs@[pid].inbox@.len() == 0,
        b.procs@[pid].current_coro == a.procs@[pid].current_coro,
        b.slots@ == a.slots@,
        b.finished@ == a.finished@,
    ensures
        held_count(b, pid, id) == held_count(a, pid, id),
{
    lemma_shutdown_drain_conserves(
        a.dropped@,
        a.procs@[pid].inbox@,
        run_queue_items(a.procs@[pid].queue),
        b.dropped@,
        id,
    );
    assert(count_coros(run_queue_items(b.procs@[pid].queue), id) == 0);
    assert(count_ready(b.procs@[pid].inbox@, id) == 0);
}


/// Over a whole single-processor run — a lone worker driving its own
/// spawns, scheds and readies, whether or not a shutdown ends it — no
/// handle is duplicated or lost: for every identity that existed when
/// the run began, the number of places holding it (queue, inbox,
/// current slot, park slots, finished, dropped) is the same when the
/// run ends.  `schedule`'s contract supplies the chain; its exit facts
/// add that a parked or shutdown exit leaves the queue and inbox empty,
/// so everything that was runnable is then finished, dropped, or parked
/// in a slot — exactly once.  A steal step cannot arise with one
/// processor: a stealer's victim is never the thief itself.
pub proof fn lemma_single_processor_run_conserves_handles(
    a: World,
    b: World,
    fuel: nat,
    r: ScheduleExit,
    id: usize,
)
    requires
        a.wf(),
        a.procs@.len() == 1,
        World::loop_rel(a, b, 0, fuel, r),
        id < a.next_id,
    ensures
        held_count(b, 0, id) == held_count(a, 0, id),
        b.next_id >= a.next_id,
        b.wf(),
    decreases fuel,
{
    if fuel == 0 {
    } else if exists|mid: World, act: StepAction|
        #[trigger] step_rel(a, mid, 0, act) && (act == StepAction::Resumed || act
            == StepAction::Absorbed || act == StepAction::Stole) && World::loop_rel(
            mid,
            b,
            0,
            (fuel - 1) as nat,
            r,
        ) {
        let (mid, act) = choose|mid: World, act: StepAction|
            #[trigger] step_rel(a, mid, 0, act) && (act == StepAction::Resumed || act
                == StepAction::Absorbed || act == StepAction::Stole) && World::loop_rel(
                mid,
                b,
                0,
                (fuel - 1) as nat,
                r,
            );
        assert(proc_wf(a.procs@[0], 0));
        if act == StepAction::Stole {
            let (v2, mid2) = choose|v2: int, mid2: World| #[trigger] steal_rel(a, mid2, mid, 0, v2);
            assert(false);
        } else if act == StepAction::Resumed {
            let q = run_queue_items(a.procs@[0].queue);
            let c = q.last();
            lemma_pop_resume_conserves_handles(a, mid, 0, id);
            if c.program < a.programs@.len() {
                lemma_interp_next_id_monotonic(
                    a.programs@[c.program as int]@,
                    c.pc as int,
                    a.programs@.len() as int,
                    a.next_id,
                );
            }
            lemma_single_processor_run_conserves_handles(mid, b, (fuel - 1) as nat, r, id);
        } else {
            assert(act == StepAction::Absorbed);
            lemma_absorb_step_conserves_handles(a, mid, 0, id);
            lemma_single_processor_run_conserves_handles(mid, b, (fuel - 1) as nat, r, id);
        }
    } else if step_rel(a, b, 0, StepAction::ParkedNow) && r == ScheduleExit::Parked {
        assert(proc_wf(a.procs@[0], 0));
        assert(proc_wf(b.procs@[0], 0));
        lemma_absorb_conserves_handles(a.procs@[0].inbox@, 0, id);
        assert(count_coros(run_queue_items(a.procs@[0].queue), id) == 0);
        assert(count_ready(a.procs@[0].inbox@, id) == 0);
        assert(count_coros(run_queue_items(b.procs@[0].queue), id) == 0);
        assert(count_ready(b.procs@[0].inbox@, id) == 0);
    } else {
        assert(step_rel(a, b, 0, StepAction::ShutdownNow) && r == ScheduleExit::Shutdown);
        assert(proc_wf(a.procs@[0], 0));
        assert(proc_wf(b.procs@[0], 0));
        assert(count_coros(run_queue_items(a.procs@[0].queue), id) == 0);
        assert(count_coros(run_queue_items(b.procs@[0].queue), id) == 0);
        assert(count_ready(b.procs@[0].inbox@, id) == 0);
        assert(count_ids(b.dropped@, id) == count_ids(a.dropped@, id) + count_ready(
            a.procs@[0].inbox@,
            id,
        ));
    }
}

/// The closure of the sched-is-a-no-op law over the loop itself: when
/// the absorbed re-post left exactly one coroutine queued — per
/// `lemma_sched_noop_roundtrip`, the suspender — then whatever the
/// scheduling loop does next is forced: every other action of
/// `step_rel` demands an empty queue, so the next pass pops and
/// resumes exactly that coroutine, with nothing running in between.
pub proof fn lemma_sched_noop_next_resumed(
    w2: World,
    mid: World,
    pid: int,
    act: StepAction,
    c: Coroutine,
)
    requires
        run_queue_items(w2.procs@[pid].queue) == seq![c],
        step_rel(w2, mid, pid, act),
    ensures
        act == StepAction::Resumed,
        resume_rel(w2, mid, pid, c, Seq::<Coroutine>::empty()),
{
    assert(seq![c].last() == c);
    assert(seq![c].drop_last() =~= Seq::<Coroutine>::empty());
}

} // verus!
