//! The local run queue: a Chase-Lev work-stealing deque of coroutine
//! handles, held through the deque crate.
//!
//! The owner pushes and pops at one end; a steal takes from the other end.
//! A `RunQueue` holds both endpoints of one deque, so exclusive access to
//! the `RunQueue` is exclusive access to the deque: no other thread can
//! race an operation made through `&mut RunQueue`.  The contracts below
//! state the deque's uncontended behaviour over the abstract contents
//! [`run_queue_items`], which Verus takes on trust.

use vstd::prelude::*;
use crate::coroutine::Coroutine;

verus! {

#[verifier::external_type_specification]
#[verifier::external_body]
#[verifier::reject_recursive_types(T)]
pub struct ExWorker<T: Send>(deque::Worker<T>);

#[verifier::external_type_specification]
#[verifier::external_body]
#[verifier::reject_recursive_types(T)]
pub struct ExStealer<T: Send>(deque::Stealer<T>);

/// Outcome of a steal attempt, mirroring the deque crate's `Stolen`:
/// the deque was empty, the steal lost a race and may be retried, or an
/// item was taken.
pub enum Stolen {
    Empty,
    Abort,
    Data(Coroutine),
}

/// Both endpoints of one work-stealing deque of coroutine handles: the
/// owner's worker end and a stealer onto the same deque.
pub struct RunQueue {
    worker: deque::Worker<Coroutine>,
    stealer: deque::Stealer<Coroutine>,
}

/// The coroutines held by the deque, oldest first: the owner pushes and
/// pops at the back, a steal takes from the front.
pub uninterp spec fn run_queue_items(q: RunQueue) -> Seq<Coroutine>;

impl RunQueue {
    /// Relies on deque::new: a freshly allocated deque holds nothing.
    #[verifier::external_body]
    pub fn new() -> (r: RunQueue)
        ensures
            run_queue_items(r) == Seq::<Coroutine>::empty(),
    {
        let (worker, stealer) = deque::new();
        RunQueue { worker, stealer }
    }

    /// Relies on deque::Worker::push: appends the value at the worker's
    /// end of the deque.
    #[verifier::external_body]
    pub fn push(&mut self, coroutine: Coroutine)
        ensures
            run_queue_items(*final(self)) == run_queue_items(*old(self)).push(coroutine),
    {
        self.worker.push(coroutine);
    }

    /// Relies on deque::Worker::pop: takes the most recently pushed value,
    /// or reports an empty deque.  Under `&mut self` no stealer can race
    /// the pop, so the last-element race in the deque's pop resolves in
    /// the owner's favour.
    #[verifier::external_body]
    pub fn pop(&mut self) -> (r: Option<Coroutine>)
        ensures
            run_queue_items(*old(self)).len() == 0 ==> {
                &&& r is None
                &&& *final(self) == *old(self)
            },
            run_queue_items(*old(self)).len() > 0 ==> {
                &&& r == Some(run_queue_items(*old(self)).last())
                &&& run_queue_items(*final(self)) == run_queue_items(*old(self)).drop_last()
            },
    {
        self.worker.pop()
    }

    /// Relies on deque::Stealer::steal: takes the oldest value, the one
    /// opposite the worker's end.  Under `&mut self` the steal's
    /// compare-and-swap cannot lose a race, so an abort is never returned
    /// here; the variant is kept because callers of a stealer must treat
    /// it like an empty result.
    #[verifier::external_body]
    pub fn steal(&mut self) -> (r: Stolen)
        ensures
            run_queue_items(*old(self)).len() == 0 ==> {
                &&& r is Empty
                &&& *final(self) == *old(self)
            },
            run_queue_items(*old(self)).len() > 0 ==> {
                &&& r == Stolen::Data(run_queue_items(*old(self)).first())
                &&& run_queue_items(*final(self)) == run_queue_items(*old(self)).drop_first()
            },
    {
        match self.stealer.steal() {
            deque::Stolen::Empty => Stolen::Empty,
            deque::Stolen::Abort => Stolen::Abort,
            deque::Stolen::Data(c) => Stolen::Data(c),
        }
    }
}

} // verus!
