//! Tests for the scheduler.

use std::mem::size_of;

use heph::process::{ActorContext, ActorResult, Poll, ProcessId, Status};
use heph::scheduler::{Priority, ProcessData, Scheduler};

fn assert_size<T>(want: usize) {
    assert_eq!(size_of::<T>(), want);
}

#[test]
fn size_assertions() {
    assert_size::<ProcessData<Box<dyn std::any::Any>>>(40);
}

#[derive(Debug)]
struct NopTestProcess;

#[derive(Debug)]
struct TestActor;

impl heph::process::Actor for TestActor {
    type Message = usize;
    type Error = ();

    fn poll(&mut self, _: &mut ActorContext) -> ActorResult<()> {
        Poll::Ready(Ok(Status::Complete))
    }

    fn handle(&mut self, _: &mut ActorContext, _: usize) -> ActorResult<()> {
        Poll::Ready(Ok(Status::Complete))
    }
}

fn add_test_actor(scheduler: &mut Scheduler<heph::system::ActorProcess<TestActor>>, priority: Priority) -> ProcessId {
    let process = heph::system::ActorProcess::new(ProcessId(0), TestActor);
    scheduler.add_new_process(priority, process)
}

#[test]
fn has_process() {
    let mut scheduler = Scheduler::new();
    assert!(!scheduler.has_process());
    assert!(!scheduler.has_ready_process());

    let _ = scheduler.add_new_process(Priority::NORMAL, NopTestProcess);
    assert!(scheduler.has_process());
    assert!(scheduler.has_ready_process());
}

#[test]
fn add_actor() {
    let mut scheduler = Scheduler::new();
    let process = heph::system::ActorProcess::new(ProcessId(0), TestActor);
    let _ = scheduler.add_new_process(Priority::NORMAL, process);
    assert!(scheduler.has_process());
    assert!(scheduler.has_ready_process());
}

#[test]
fn mark_ready() {
    let mut scheduler = Scheduler::new();

    // Incorrect (outdated) pid should be ok.
    scheduler.mark_ready(ProcessId(100));

    let pid = add_test_actor(&mut scheduler, Priority::NORMAL);

    assert!(scheduler.has_process());
    assert!(scheduler.has_ready_process());

    let process = scheduler.next_process().unwrap();
    scheduler.add_back_process(process);
    scheduler.mark_ready(pid);
}

#[test]
fn mark_ready_before_run() {
    let mut scheduler = Scheduler::new();

    // Incorrect (outdated) pid should be ok.
    scheduler.mark_ready(ProcessId(100));

    let pid = add_test_actor(&mut scheduler, Priority::NORMAL);

    assert!(scheduler.has_process());
    assert!(scheduler.has_ready_process());

    let process = scheduler.next_process().unwrap();
    scheduler.mark_ready(pid);
    scheduler.add_back_process(process);
}

#[test]
fn next_process() {
    let mut scheduler = Scheduler::new();

    let pid = add_test_actor(&mut scheduler, Priority::NORMAL);

    if let Some(process) = scheduler.next_process() {
        assert_eq!(process.id(), pid);
        assert!(!scheduler.has_process());
        assert!(!scheduler.has_ready_process());
    } else {
        panic!("expected a process");
    }
}

#[test]
fn next_process_order() {
    let mut scheduler = Scheduler::new();

    let pid1 = add_test_actor(&mut scheduler, Priority::LOW);
    let pid2 = add_test_actor(&mut scheduler, Priority::HIGH);
    let pid3 = add_test_actor(&mut scheduler, Priority::NORMAL);

    assert!(scheduler.has_process());
    assert!(scheduler.has_ready_process());

    // Process 2 has a higher priority, should be scheduled first.
    let process2 = scheduler.next_process().unwrap();
    assert_eq!(process2.id(), pid2);
    let process3 = scheduler.next_process().unwrap();
    assert_eq!(process3.id(), pid3);
    let process1 = scheduler.next_process().unwrap();
    assert_eq!(process1.id(), pid1);

    assert!(process1 < process2);
    assert!(process1 < process3);
    assert!(process2 > process1);
    assert!(process2 > process3);
    assert!(process3 > process1);
    assert!(process3 < process2);

    assert!(scheduler.next_process().is_none());
}

#[test]
fn add_process() {
    let mut scheduler = Scheduler::new();

    let pid = add_test_actor(&mut scheduler, Priority::NORMAL);

    assert!(scheduler.has_process());
    assert!(scheduler.has_ready_process());

    scheduler.mark_ready(pid);
    assert!(scheduler.has_process());
    assert!(scheduler.has_ready_process());
    let process = scheduler.next_process().unwrap();
    assert_eq!(process.id(), pid);
}

#[test]
fn add_process_marked_ready() {
    let mut scheduler = Scheduler::new();

    let pid = add_test_actor(&mut scheduler, Priority::NORMAL);

    let process = scheduler.next_process().unwrap();
    scheduler.add_back_process(process);
    assert!(scheduler.has_process());
    assert!(!scheduler.has_ready_process());

    scheduler.mark_ready(pid);
    assert!(scheduler.has_process());
    assert!(scheduler.has_ready_process());
    let process = scheduler.next_process().unwrap();
    assert_eq!(process.id(), pid);
}

#[test]
fn scheduler_run_order() {
    let mut scheduler = Scheduler::new();

    // The order in which the processes have been run.
    let mut run_order = Vec::new();

    // Add our processes, with the process order as their bodies.
    let priorities = [Priority::LOW, Priority::NORMAL, Priority::HIGH];
    let mut pids = Vec::new();
    for (id, priority) in priorities.iter().enumerate() {
        let pid = scheduler.add_new_process(*priority, id);
        pids.push(pid);
    }

    assert!(scheduler.has_process());
    assert!(scheduler.has_ready_process());

    // Run all processes, should be in order of priority (since their
    // runtimes are equal).
    for _ in 0..3 {
        let process = scheduler.next_process().unwrap();
        run_order.push(process.body);
        scheduler.complete(process);
    }
    assert!(!scheduler.has_process());
    assert_eq!(run_order, vec![2_usize, 1, 0]);
}

#[test]
fn priority_weights_and_default() {
    assert_eq!(Priority::LOW.weight(), 3);
    assert_eq!(Priority::NORMAL.weight(), 2);
    assert_eq!(Priority::HIGH.weight(), 1);
    assert_eq!(Priority::default(), Priority::NORMAL);
}

#[test]
fn runtime_weighting_overrides_priority() {
    let mut scheduler: Scheduler<usize> = Scheduler::new();
    let high = scheduler.add_new_process(Priority::HIGH, 1);
    let low = scheduler.add_new_process(Priority::LOW, 2);

    // Let the high-priority process accumulate a lot of runtime; the fresh
    // low-priority process then runs first: no priority starves another.
    let mut process = scheduler.next_process().unwrap();
    assert_eq!(process.id(), high);
    process.add_runtime(1_000_000);
    scheduler.add_back_process(process);
    scheduler.mark_ready(high);

    let process = scheduler.next_process().unwrap();
    assert_eq!(process.id(), low);
}
