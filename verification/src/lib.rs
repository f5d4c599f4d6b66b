//! Per-thread processing unit of an M:N user-space coroutine scheduler,
//! as a verified executable model.
//!
//! A [`processor::Processor`] owns a double-ended run queue of runnable
//! coroutines, resumes them cooperatively, reacts to control messages
//! (new peers, newly ready coroutines, shutdown), and, when idle, steals
//! work from peers or parks itself until re-awakened.  Coroutine bodies
//! are finite scripts of [`coroutine::Step`]s, so the driver, the
//! scheduling loop and the shutdown drain are ordinary functions of a
//! [`world::World`], each with a proved contract.

pub mod coroutine;
pub mod laws;
pub mod processor;
pub mod runqueue;
pub mod sched;
pub mod world;
