//! Tests for the waker plumbing: waking marks a process ready through the
//! wake-up event queue.

use heph::process::ProcessId;
use heph::scheduler::{Priority, Scheduler};
use heph::waker::{new_waker, WakerEvents, WakerId};
use heph::worker::drain_wake_events;

const PID1: ProcessId = ProcessId(1);
const PID2: ProcessId = ProcessId(2);

#[test]
fn waker() {
    let mut scheduler: Scheduler<usize> = Scheduler::new();
    let mut events = WakerEvents::new();

    let pid = scheduler.add_new_process(Priority::NORMAL, 0);
    assert!(scheduler.has_process());
    assert!(scheduler.has_ready_process());
    let process = scheduler.next_process().unwrap();
    scheduler.add_back_process(process);
    assert!(scheduler.has_process());
    assert!(!scheduler.has_ready_process());

    // Create a new waker.
    let waker = new_waker(WakerId(0), pid);

    // Waking should move the process to the ready queue.
    waker.wake(&mut events);
    drain_wake_events(&mut scheduler, &mut events);
    assert!(scheduler.has_process());
    assert!(scheduler.has_ready_process());
    let process = scheduler.next_process().unwrap();
    assert_eq!(process.id(), pid);

    // Waking a process that isn't in the scheduler should be fine.
    waker.wake(&mut events);
    drain_wake_events(&mut scheduler, &mut events);
    assert!(!scheduler.has_process());
    assert!(!scheduler.has_ready_process());
    scheduler.complete(process);
    assert!(!scheduler.has_process());
    assert!(!scheduler.has_ready_process());
}

#[test]
fn cloned_waker() {
    let mut scheduler: Scheduler<usize> = Scheduler::new();
    let mut events = WakerEvents::new();

    // Add a test process.
    let pid = scheduler.add_new_process(Priority::NORMAL, 0);
    assert!(scheduler.has_process());
    assert!(scheduler.has_ready_process());
    let process = scheduler.next_process().unwrap();
    scheduler.add_back_process(process);
    assert!(scheduler.has_process());
    assert!(!scheduler.has_ready_process());

    // Create a cloned waker.
    let waker1 = new_waker(WakerId(0), pid);
    let waker2 = waker1.clone();
    drop(waker1);

    // Waking should move the process to the ready queue.
    waker2.wake(&mut events);
    drain_wake_events(&mut scheduler, &mut events);
    assert!(scheduler.has_process());
    assert!(scheduler.has_ready_process());
    let process = scheduler.next_process().unwrap();
    assert_eq!(process.id(), pid);
}

#[test]
fn no_internals() {
    // A waker whose scheduler holds nothing: waking is harmless.
    let mut scheduler: Scheduler<usize> = Scheduler::new();
    let mut events = WakerEvents::new();
    let waker = new_waker(WakerId(0), PID1);

    // This shouldn't be a problem.
    waker.wake(&mut events);
    waker.wake(&mut events);
    drain_wake_events(&mut scheduler, &mut events);
    assert!(!scheduler.has_process());
}

#[test]
fn will_wake() {
    let waker1a = new_waker(WakerId(0), PID1);
    let waker1b = new_waker(WakerId(0), PID1);
    let waker2a = new_waker(WakerId(0), PID2);
    let waker2b = waker2a.clone();

    assert!(waker1a.will_wake(&waker1a));
    assert!(waker1a.will_wake(&waker1b));
    assert!(!waker1a.will_wake(&waker2a));
    assert!(!waker1a.will_wake(&waker2b));

    assert!(waker1b.will_wake(&waker1a));
    assert!(waker1b.will_wake(&waker1b));
    assert!(!waker1b.will_wake(&waker2a));
    assert!(!waker1b.will_wake(&waker2b));

    assert!(!waker2a.will_wake(&waker1a));
    assert!(!waker2a.will_wake(&waker1b));
    assert!(waker2a.will_wake(&waker2a));
    assert!(waker2a.will_wake(&waker2b));
}

#[test]
fn will_wake_distinct_schedulers() {
    // The same process id under another scheduler id is another waker.
    let waker1 = new_waker(WakerId(1), PID1);
    let waker2 = new_waker(WakerId(2), PID1);
    assert!(!waker1.will_wake(&waker2));
    assert!(waker1.will_wake(&waker1));
}

#[test]
fn wake_events_are_fifo() {
    let mut events = WakerEvents::new();
    assert!(events.is_empty());
    new_waker(WakerId(0), PID1).wake(&mut events);
    new_waker(WakerId(0), PID2).wake(&mut events);
    assert!(!events.is_empty());
    assert_eq!(events.pop(), Some(PID1.0));
    assert_eq!(events.pop(), Some(PID2.0));
    assert_eq!(events.pop(), None);
    assert!(events.is_empty());
}
