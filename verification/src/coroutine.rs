//! The coroutine model: a handle with a state, a program counter, and a
//! preferred-processor back-reference.
//!
//! A stackful coroutine's body is arbitrary code; here a body is a finite
//! script of [`Step`]s, so that the effect of resuming a coroutine is a
//! mathematical function of its program and program counter.  The spec
//! functions `interp_*` below compute, for a resume starting at `pc`, the
//! values emitted, the coroutines spawned, the final program counter, the
//! yield state, and the park carrier.

use vstd::prelude::*;
use crate::processor::WeakProcessor;

verus! {

/// Execution state of a coroutine, as its processor's driver sees it.
/// `Running` is the in-driver sentinel: a coroutine held in a queue, an
/// inbox or a park slot is never `Running`.
#[derive(Clone, Copy, PartialEq, Eq, Structural, Debug)]
pub enum CoState {
    Suspended,
    Running,
    Parked,
    Finished,
}

/// What a park continuation does with the coroutine handle it receives.
#[derive(Clone, Copy, PartialEq, Eq, Structural, Debug)]
pub enum ParkOp {
    /// Store the handle into the world's external slot with this index,
    /// from where a third party may later re-`ready` it.
    Store(usize),
    /// Drop the handle: the coroutine abandons itself.
    Discard,
}

/// One instruction of a coroutine body.
#[derive(Clone, Copy, PartialEq, Eq, Structural, Debug)]
pub enum Step {
    /// Append a value to the world's shared effect log.
    Emit(u64),
    /// Spawn a child coroutine running the program with this index.
    Spawn(usize),
    /// Yield with state `Suspended` (a voluntary `sched()`).
    Sched,
    /// Yield with state `Parked`, passing a continuation as the carrier.
    Park(ParkOp),
    /// Yield with state `Parked` and a zero carrier: the driver drops the handle.
    Abandon,
}

/// One entry of the world's shared effect log: which coroutine emitted
/// which value.
#[derive(Clone, Copy, PartialEq, Eq, Structural, Debug)]
pub struct LogEntry {
    pub by: usize,
    pub value: u64,
}

/// An owning coroutine handle.  Ownership is exclusive: the type has no
/// `Clone`, so exactly one party holds a given handle at any time, and
/// transferring it is the fundamental unit of scheduling.
pub struct Coroutine {
    /// Stable unique identifier, assigned at creation.
    pub id: usize,
    /// Index of this coroutine's program in the world's program table.
    pub program: usize,
    /// Next step of the program to execute.
    pub pc: usize,
    /// Current state.
    pub state: CoState,
    /// Preferred processor: a non-owning back-reference to the processor
    /// that last owned this coroutine.
    pub preferred: Option<WeakProcessor>,
}

impl Coroutine {
    /// True once the coroutine has run to the end of its program.
    pub fn is_finished(&self) -> (r: bool)
        ensures
            r == (self.state == CoState::Finished),
    {
        self.state == CoState::Finished
    }

    /// The current state.
    pub fn state(&self) -> (r: CoState)
        ensures
            r == self.state,
    {
        self.state
    }

    /// Tag this coroutine with its new preferred home.
    pub fn set_preferred_processor(&mut self, p: Option<WeakProcessor>)
        ensures
            *final(self) == (Coroutine { preferred: p, ..*old(self) }),
    {
        self.preferred = p;
    }
}

/// True of the steps on which a resumed coroutine yields back to its driver.
pub open spec fn step_yields(s: Step) -> bool {
    match s {
        Step::Sched => true,
        Step::Park(_) => true,
        Step::Abandon => true,
        _ => false,
    }
}

/// Program counter after one resume starting at `pc`.
pub open spec fn interp_end_pc(prog: Seq<Step>, pc: int) -> int
    decreases prog.len() - pc,
{
    if pc < 0 || pc >= prog.len() {
        pc
    } else if step_yields(prog[pc]) {
        pc + 1
    } else {
        interp_end_pc(prog, pc + 1)
    }
}

/// State in which one resume starting at `pc` leaves the coroutine: the
/// state of the yield step reached, or `Finished` when the program ends.
pub open spec fn interp_state(prog: Seq<Step>, pc: int) -> CoState
    decreases prog.len() - pc,
{
    if pc < 0 || pc >= prog.len() {
        CoState::Finished
    } else {
        match prog[pc] {
            Step::Sched => CoState::Suspended,
            Step::Park(_) => CoState::Parked,
            Step::Abandon => CoState::Parked,
            _ => interp_state(prog, pc + 1),
        }
    }
}

/// Carrier passed through the yield of one resume starting at `pc`:
/// the park continuation, or `None` for a zero carrier.
pub open spec fn interp_park(prog: Seq<Step>, pc: int) -> Option<ParkOp>
    decreases prog.len() - pc,
{
    if pc < 0 || pc >= prog.len() {
        None
    } else {
        match prog[pc] {
            Step::Park(k) => Some(k),
            Step::Sched => None,
            Step::Abandon => None,
            _ => interp_park(prog, pc + 1),
        }
    }
}

/// Log entries emitted by one resume of coroutine `by` starting at `pc`.
pub open spec fn interp_log(prog: Seq<Step>, pc: int, by: usize) -> Seq<LogEntry>
    decreases prog.len() - pc,
{
    if pc < 0 || pc >= prog.len() {
        Seq::empty()
    } else {
        match prog[pc] {
            Step::Emit(v) => seq![(LogEntry { by: by, value: v })] + interp_log(prog, pc + 1, by),
            Step::Spawn(_) => interp_log(prog, pc + 1, by),
            _ => Seq::empty(),
        }
    }
}

/// Coroutines spawned by one resume starting at `pc`, in spawn order.
/// `nprogs` is the number of programs in the world, `next` the world's next
/// fresh identifier, `pid` the identifier of the processor resumed on.
/// A spawn whose program index is out of range, or that arrives when the
/// identifier space is exhausted, creates nothing.
pub open spec fn interp_spawned(prog: Seq<Step>, pc: int, nprogs: int, next: usize, pid: usize) -> Seq<Coroutine>
    decreases prog.len() - pc,
{
    if pc < 0 || pc >= prog.len() {
        Seq::empty()
    } else {
        match prog[pc] {
            Step::Spawn(k) => {
                if k < nprogs && next < usize::MAX {
                    seq![(Coroutine {
                        id: next,
                        program: k,
                        pc: 0,
                        state: CoState::Suspended,
                        preferred: Some(WeakProcessor { pid: pid }),
                    })] + interp_spawned(prog, pc + 1, nprogs, (next + 1) as usize, pid)
                } else {
                    interp_spawned(prog, pc + 1, nprogs, next, pid)
                }
            },
            Step::Emit(_) => interp_spawned(prog, pc + 1, nprogs, next, pid),
            _ => Seq::empty(),
        }
    }
}

/// The world's next fresh identifier after one resume starting at `pc`.
pub open spec fn interp_next_id(prog: Seq<Step>, pc: int, nprogs: int, next: usize) -> usize
    decreases prog.len() - pc,
{
    if pc < 0 || pc >= prog.len() {
        next
    } else {
        match prog[pc] {
            Step::Spawn(k) => {
                if k < nprogs && next < usize::MAX {
                    interp_next_id(prog, pc + 1, nprogs, (next + 1) as usize)
                } else {
                    interp_next_id(prog, pc + 1, nprogs, next)
                }
            },
            Step::Emit(_) => interp_next_id(prog, pc + 1, nprogs, next),
            _ => next,
        }
    }
}

} // verus!
