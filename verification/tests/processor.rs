use coio_processor::coroutine::{ParkOp, Step};
use coio_processor::processor::{ProcMessage, ProcMessageSender, Processor};
use coio_processor::sched::ScheduleExit;
use coio_processor::world::World;

fn send_ok(s: &ProcMessageSender, w: &mut World, m: ProcMessage) {
    let r = s.send(w, m);
    assert!(r.is_ok());
}

// Spawn must push the new coroutine at the head of the run queue, so a
// batch of spawns runs in reverse order, and a sched() re-enters through
// the inbox behind them.
#[test]
fn processor_sched_order() {
    let programs = vec![
        vec![Step::Emit(1)],
        vec![Step::Emit(2)],
        vec![Step::Emit(3)],
        vec![
            Step::Spawn(0),
            Step::Spawn(1),
            Step::Spawn(2),
            Step::Emit(0),
            Step::Sched,
            Step::Emit(99),
        ],
    ];
    let mut w = World::new(programs, 0);
    let m = Processor::spawn(&mut w);
    let main = w.new_coroutine(3).unwrap();
    send_ok(&m.processor_handle, &mut w, ProcMessage::Ready(main));
    let exit = w.schedule(m.processor_id, 100);
    assert!(matches!(exit, ScheduleExit::Parked));
    let expected = vec![0, 3, 2, 1, 99];
    assert_eq!(w.log_values(), expected);
}

// Every coroutine spawned inside a single processor with no peers runs
// exactly once to completion once the loop goes idle.
#[test]
fn spawned_coroutines_complete_exactly_once() {
    let programs = vec![
        vec![Step::Emit(10)],
        vec![Step::Emit(20)],
        vec![
            Step::Spawn(0),
            Step::Sched,
            Step::Spawn(1),
            Step::Spawn(0),
            Step::Emit(30),
        ],
    ];
    let mut w = World::new(programs, 0);
    let m = Processor::spawn(&mut w);
    let main = w.new_coroutine(2).unwrap();
    send_ok(&m.processor_handle, &mut w, ProcMessage::Ready(main));
    let exit = w.schedule(m.processor_id, 1000);
    assert!(matches!(exit, ScheduleExit::Parked));
    // Four coroutines ever existed: the main one and three children.
    assert_eq!(w.next_id, 4);
    assert_eq!(w.finished.len(), 4);
    for id in 0..4 {
        let count = w.finished.iter().filter(|&&x| x == id).count();
        assert_eq!(count, 1);
    }
    assert_eq!(w.dropped.len(), 0);
}

// Shutdown drains pending work: coroutines delivered but never run are
// destroyed, not leaked and not run, and the processor retires cleanly.
#[test]
fn shutdown_drains_pending_work() {
    let programs = vec![vec![Step::Emit(5)]];
    let mut w = World::new(programs, 0);
    let m = Processor::spawn(&mut w);
    for _ in 0..100 {
        let c = w.new_coroutine(0).unwrap();
        send_ok(&m.processor_handle, &mut w, ProcMessage::Ready(c));
    }
    send_ok(&m.processor_handle, &mut w, ProcMessage::Shutdown);
    let exit = w.schedule(m.processor_id, 10);
    assert!(matches!(exit, ScheduleExit::Shutdown));
    // Nothing ran; every handle was destroyed exactly once.
    assert_eq!(w.log_values().len(), 0);
    assert_eq!(w.finished.len(), 0);
    assert_eq!(w.dropped.len(), 100);
    for id in 0..100 {
        let count = w.dropped.iter().filter(|&&x| x == id).count();
        assert_eq!(count, 1);
    }
    assert!(!w.procs[m.processor_id].alive);
}

// A park continuation receives the handle exactly once, and the parked
// coroutine is not also in the local queue: woken once, it finishes its
// program exactly once.
#[test]
fn park_continuation_receives_unique_ownership() {
    let programs = vec![vec![Step::Park(ParkOp::Store(0)), Step::Emit(42)]];
    let mut w = World::new(programs, 1);
    let m = Processor::spawn(&mut w);
    let c = w.new_coroutine(0).unwrap();
    send_ok(&m.processor_handle, &mut w, ProcMessage::Ready(c));
    let exit = w.schedule(m.processor_id, 100);
    assert!(matches!(exit, ScheduleExit::Parked));
    assert_eq!(w.log_values().len(), 0);
    // The slot is non-empty exactly once.
    let taken = w.take_slot(0);
    assert!(taken.is_some());
    assert!(w.take_slot(0).is_none());
    // Waking the parked coroutine runs the rest of its program once.
    send_ok(&m.processor_handle, &mut w, ProcMessage::Ready(taken.unwrap()));
    let exit = w.schedule(m.processor_id, 100);
    assert!(matches!(exit, ScheduleExit::Parked));
    assert_eq!(w.log_values(), vec![42]);
    assert_eq!(w.finished.len(), 1);
}

// Work stealing moves coroutines across processors: a parked peer is
// woken, learns of the victim's queue, and runs work the victim never
// touched.
#[test]
fn work_stealing_moves_coroutines() {
    let programs = vec![vec![Step::Emit(1)]];
    let mut w = World::new(programs, 0);
    let ma = Processor::spawn(&mut w);
    let mb = Processor::spawn(&mut w);
    // B has nothing to do and parks itself.
    let exit = w.schedule(mb.processor_id, 10);
    assert!(matches!(exit, ScheduleExit::Parked));
    assert!(w.scheduler.parked[mb.processor_id].is_some());
    // All spawns happen on A; A absorbs them into its queue but does not
    // get to run them.
    let c1 = w.new_coroutine(0).unwrap();
    let c2 = w.new_coroutine(0).unwrap();
    send_ok(&ma.processor_handle, &mut w, ProcMessage::Ready(c1));
    send_ok(&ma.processor_handle, &mut w, ProcMessage::Ready(c2));
    let exit = w.schedule(ma.processor_id, 1);
    assert!(matches!(exit, ScheduleExit::OutOfFuel));
    // B is woken with a stealer onto A's queue and steals both.
    send_ok(&mb.processor_handle, &mut w, ProcMessage::NewNeighbor(ma.stealer));
    let exit = w.schedule(mb.processor_id, 10);
    assert!(matches!(exit, ScheduleExit::Parked));
    assert_eq!(w.log_values(), vec![1, 1]);
    assert_eq!(w.finished.len(), 2);
    // A then finds its queue empty.
    let exit = w.schedule(ma.processor_id, 10);
    assert!(matches!(exit, ScheduleExit::Parked));
    assert_eq!(w.finished.len(), 2);
}

// A suspended yield re-enters through the inbox: after sched() the
// suspender does not continue immediately, and work pending in the
// inbox is absorbed into the queue together with it.
#[test]
fn suspended_yield_routes_through_inbox() {
    let programs = vec![
        vec![Step::Emit(7)],
        vec![Step::Emit(1), Step::Sched, Step::Emit(2)],
    ];
    let mut w = World::new(programs, 0);
    let m = Processor::spawn(&mut w);
    let main = w.new_coroutine(1).unwrap();
    send_ok(&m.processor_handle, &mut w, ProcMessage::Ready(main));
    // Absorb the main coroutine.
    let exit = w.schedule(m.processor_id, 1);
    assert!(matches!(exit, ScheduleExit::OutOfFuel));
    // A peer delivers another ready coroutine while main is about to run.
    let other = w.new_coroutine(0).unwrap();
    send_ok(&m.processor_handle, &mut w, ProcMessage::Ready(other));
    // Main runs and scheds: its continuation is not run in the same step.
    let exit = w.schedule(m.processor_id, 1);
    assert!(matches!(exit, ScheduleExit::OutOfFuel));
    assert_eq!(w.log_values(), vec![1]);
    // Both the pending coroutine and the suspender re-enter via the
    // inbox drain; the local queue is owner-biased, so the most recently
    // absorbed (the suspender) resumes first, then the other runs.
    let exit = w.schedule(m.processor_id, 100);
    assert!(matches!(exit, ScheduleExit::Parked));
    assert_eq!(w.log_values(), vec![1, 2, 7]);
}

// After a coroutine is delivered via Ready to a processor, its
// preferred-processor back-reference upgrades to that processor; after
// the processor shuts down, the upgrade fails.
#[test]
fn preferred_processor_tagging() {
    let programs = vec![vec![Step::Park(ParkOp::Store(0))]];
    let mut w = World::new(programs, 1);
    let m = Processor::spawn(&mut w);
    let c = w.new_coroutine(0).unwrap();
    assert!(c.preferred.is_none());
    send_ok(&m.processor_handle, &mut w, ProcMessage::Ready(c));
    let exit = w.schedule(m.processor_id, 100);
    assert!(matches!(exit, ScheduleExit::Parked));
    let parked = w.take_slot(0).unwrap();
    let wp = parked.preferred.expect("delivery must tag the preferred processor");
    assert_eq!(wp.pid, m.processor_id);
    {
        let p = wp.upgrade(&w).expect("processor is alive");
        assert_eq!(p.id(), m.processor_id);
    }
    send_ok(&m.processor_handle, &mut w, ProcMessage::Shutdown);
    let exit = w.schedule(m.processor_id, 10);
    assert!(matches!(exit, ScheduleExit::Shutdown));
    assert!(wp.upgrade(&w).is_none());
}

// sched() with an empty queue and inbox is a no-op in execution effect:
// the program's emissions are exactly those of running it without the
// yield.
#[test]
fn sched_is_noop_when_idle() {
    let programs = vec![vec![Step::Emit(1), Step::Sched, Step::Emit(2)]];
    let mut w = World::new(programs, 0);
    let m = Processor::spawn(&mut w);
    let c = w.new_coroutine(0).unwrap();
    send_ok(&m.processor_handle, &mut w, ProcMessage::Ready(c));
    let exit = w.schedule(m.processor_id, 100);
    assert!(matches!(exit, ScheduleExit::Parked));
    assert_eq!(w.log_values(), vec![1, 2]);
    assert_eq!(w.finished.len(), 1);
    assert_eq!(w.dropped.len(), 0);
}

// spawn(f) followed by enough scheduling steps has the execution effect
// of invoking f directly.
#[test]
fn spawn_equals_direct_invocation() {
    let programs = vec![
        vec![Step::Emit(4), Step::Emit(5)],
        vec![Step::Spawn(0)],
    ];
    let mut w = World::new(programs, 0);
    let m = Processor::spawn(&mut w);
    let main = w.new_coroutine(1).unwrap();
    send_ok(&m.processor_handle, &mut w, ProcMessage::Ready(main));
    let exit = w.schedule(m.processor_id, 100);
    assert!(matches!(exit, ScheduleExit::Parked));
    assert_eq!(w.log_values(), vec![4, 5]);
}

// A parked yield with a zero carrier, or a discarding continuation,
// drops the handle.
#[test]
fn zero_carrier_and_discard_drop_the_handle() {
    let programs = vec![vec![Step::Abandon], vec![Step::Park(ParkOp::Discard)]];
    let mut w = World::new(programs, 0);
    let m = Processor::spawn(&mut w);
    let a = w.new_coroutine(0).unwrap();
    let b = w.new_coroutine(1).unwrap();
    send_ok(&m.processor_handle, &mut w, ProcMessage::Ready(a));
    send_ok(&m.processor_handle, &mut w, ProcMessage::Ready(b));
    let exit = w.schedule(m.processor_id, 100);
    assert!(matches!(exit, ScheduleExit::Parked));
    assert_eq!(w.finished.len(), 0);
    assert_eq!(w.dropped.len(), 2);
}

// Delivery to a capability onto a processor the world never held fails
// and hands the message back.
#[test]
fn send_to_missing_processor_fails() {
    let programs = vec![vec![Step::Emit(1)]];
    let mut w = World::new(programs, 0);
    let _m = Processor::spawn(&mut w);
    let bogus = ProcMessageSender { target: 7 };
    let r = bogus.send(&mut w, ProcMessage::Shutdown);
    match r {
        Err(e) => assert!(matches!(e.0, ProcMessage::Shutdown)),
        Ok(()) => panic!("delivery to a missing processor must fail"),
    }
}

// Creation guards: a program index out of range creates no coroutine,
// and out-of-range slots hold nothing.
#[test]
fn creation_and_slot_guards() {
    let programs = vec![vec![Step::Emit(1)]];
    let mut w = World::new(programs, 1);
    assert!(w.new_coroutine(3).is_none());
    assert_eq!(w.next_id, 0);
    assert!(w.take_slot(5).is_none());
    let c = w.new_coroutine(0).unwrap();
    assert_eq!(c.id, 0);
    assert_eq!(w.next_id, 1);
    assert!(!c.is_finished());
}

// The thread-local processor slot is empty outside the driver, and the
// construction-time descriptor exposes matching capabilities.
#[test]
fn machine_descriptor_and_current() {
    let programs = vec![vec![Step::Emit(1)]];
    let mut w = World::new(programs, 0);
    let m = Processor::spawn(&mut w);
    assert_eq!(m.processor_id, 0);
    assert_eq!(m.processor_handle.target, 0);
    assert_eq!(m.stealer.target, 0);
    assert!(Processor::current(&w).is_none());
    assert_eq!(w.procs[0].id(), 0);
    assert_eq!(w.procs[0].weak_self().pid, 0);
    assert_eq!(w.procs[0].stealer().target, 0);
    assert_eq!(w.procs[0].handle().target, 0);
    assert!(w.procs[0].current_coroutine().is_none());
    assert!(w.procs[0].inbox_empty());
    let m2 = Processor::spawn(&mut w);
    assert_eq!(m2.processor_id, 1);
    // Processor equality is identity: the processor's index.
    assert!(w.procs[0] == w.procs[0]);
    assert!(w.procs[0] != w.procs[1]);
}

// Parking is recorded with the scheduler and cleared on wake.
#[test]
fn park_and_unpark_are_recorded() {
    let programs = vec![vec![Step::Emit(9)]];
    let mut w = World::new(programs, 0);
    let m = Processor::spawn(&mut w);
    let exit = w.schedule(m.processor_id, 10);
    assert!(matches!(exit, ScheduleExit::Parked));
    assert!(w.scheduler.parked[0].is_some());
    // Still parked with an empty inbox: stays blocked.
    let exit = w.schedule(m.processor_id, 10);
    assert!(matches!(exit, ScheduleExit::Parked));
    // A delivery wakes it; it runs the work and parks again.
    let c = w.new_coroutine(0).unwrap();
    send_ok(&m.processor_handle, &mut w, ProcMessage::Ready(c));
    let exit = w.schedule(m.processor_id, 10);
    assert!(matches!(exit, ScheduleExit::Parked));
    assert_eq!(w.log_values(), vec![9]);
}

// The steal walk visits the whole neighbor ring from a random start:
// with work on several victims, a single hungry processor finds all of
// it, whatever starting index the generator picked.
#[test]
fn steal_walk_visits_all_neighbors() {
    let programs = vec![vec![Step::Emit(1)], vec![Step::Emit(2)]];
    let mut w = World::new(programs, 0);
    let ma = Processor::spawn(&mut w);
    let mb = Processor::spawn(&mut w);
    let mc = Processor::spawn(&mut w);
    for (m, prog) in [(&ma, 0), (&mb, 1)] {
        let c = w.new_coroutine(prog).unwrap();
        send_ok(&m.processor_handle, &mut w, ProcMessage::Ready(c));
        // Absorb into the victim's queue without running it.
        let exit = w.schedule(m.processor_id, 1);
        assert!(matches!(exit, ScheduleExit::OutOfFuel));
    }
    send_ok(&mc.processor_handle, &mut w, ProcMessage::NewNeighbor(ma.stealer));
    send_ok(&mc.processor_handle, &mut w, ProcMessage::NewNeighbor(mb.stealer));
    let exit = w.schedule(mc.processor_id, 20);
    assert!(matches!(exit, ScheduleExit::Parked));
    let mut values = w.log_values();
    values.sort();
    assert_eq!(values, vec![1, 2]);
    assert_eq!(w.finished.len(), 2);
}
