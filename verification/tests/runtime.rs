//! Tests for the timers, the worker-loop decisions, the actor glue, and the
//! documented end-to-end scenarios of the inbox.

use heph::inbox::{new_small, Manager, RecvError, SendError};
use heph::options::ActorOptions;
use heph::process::{
    check_result, ActorContext, ActorResult, Poll, ProcessId, ProcessResult, Status,
};
use heph::scheduler::{Priority, Scheduler};
use heph::system::ActorProcess;
use heph::timers::Timers;
use heph::waker::{new_waker, WakerEvents, WakerId};
use heph::worker::{determine_timeout, handle_process_result, is_zero, RUN_POLL_RATIO};

fn waker(n: usize) -> heph::waker::Waker {
    new_waker(WakerId(0), ProcessId(n))
}

#[test]
fn timers_expire_in_deadline_order() {
    let mut timers = Timers::new();
    let mut events = WakerEvents::new();

    let _t3 = timers.add(30, waker(3));
    let _t1 = timers.add(10, waker(1));
    let _t2 = timers.add(20, waker(2));
    assert_eq!(timers.len(), 3);
    assert_eq!(timers.next_deadline(), Some(10));

    // A clock before the first deadline expires nothing.
    assert_eq!(timers.expire_timers(5, &mut events), 0);
    assert_eq!(events.pop(), None);

    // Expiring at 20 wakes the timers at 10 and 20, in deadline order.
    assert_eq!(timers.expire_timers(20, &mut events), 2);
    assert_eq!(events.pop(), Some(1));
    assert_eq!(events.pop(), Some(2));
    assert_eq!(events.pop(), None);
    assert_eq!(timers.len(), 1);
    assert_eq!(timers.next_deadline(), Some(30));

    assert_eq!(timers.expire_timers(30, &mut events), 1);
    assert_eq!(events.pop(), Some(3));
    assert_eq!(timers.next_deadline(), None);
}

#[test]
fn timers_remove_cancels() {
    let mut timers = Timers::new();
    let mut events = WakerEvents::new();

    let t1 = timers.add(10, waker(1));
    let t2 = timers.add(10, waker(2));
    timers.remove(10, t1);
    assert_eq!(timers.len(), 1);

    // Removing with the wrong deadline is a no-op.
    timers.remove(99, t2);
    assert_eq!(timers.len(), 1);

    assert_eq!(timers.expire_timers(10, &mut events), 1);
    assert_eq!(events.pop(), Some(2));
    assert_eq!(events.pop(), None);
}

#[test]
fn timers_next_timeout() {
    let mut timers = Timers::new();
    assert_eq!(timers.next_timeout(0, None), None);
    assert_eq!(timers.next_timeout(0, Some(7)), Some(7));

    let _t = timers.add(100, waker(1));
    // The deadline already passed: no blocking.
    assert_eq!(timers.next_timeout(100, None), Some(0));
    assert_eq!(timers.next_timeout(150, Some(7)), Some(0));
    // The current timeout is sooner than the deadline.
    assert_eq!(timers.next_timeout(60, Some(7)), Some(7));
    // The deadline is sooner than the current timeout.
    assert_eq!(timers.next_timeout(60, Some(70)), Some(40));
    assert_eq!(timers.next_timeout(60, None), Some(40));
}

#[test]
fn worker_determine_timeout() {
    // Anything ready or pending: no blocking.
    assert_eq!(determine_timeout(true, false, true, None, 0), Some(0));
    assert_eq!(determine_timeout(false, true, true, None, 0), Some(0));
    assert_eq!(determine_timeout(false, false, false, None, 0), Some(0));
    // Nothing ready: block until the next deadline.
    assert_eq!(determine_timeout(false, false, true, Some(50), 20), Some(30));
    assert_eq!(determine_timeout(false, false, true, Some(20), 50), Some(0));
    // Nothing ready and no timer: block without bound.
    assert_eq!(determine_timeout(false, false, true, None, 20), None);
}

#[test]
fn signal_should_stop() {
    assert!(heph::worker::Signal::Interrupt.should_stop());
    assert!(heph::worker::Signal::Terminate.should_stop());
    assert!(heph::worker::Signal::Quit.should_stop());
    assert!(!heph::worker::Signal::User1.should_stop());
    assert!(!heph::worker::Signal::User2.should_stop());
}

#[test]
fn worker_is_zero() {
    assert!(is_zero(Some(0)));
    assert!(!is_zero(Some(1)));
    assert!(!is_zero(None));
    assert!(RUN_POLL_RATIO > 0);
}

#[test]
fn worker_handle_process_result() {
    let mut scheduler: Scheduler<usize> = Scheduler::new();
    let _pid = scheduler.add_new_process(Priority::NORMAL, 7);

    // A pending process is stored inactive.
    let process = scheduler.next_process().unwrap();
    handle_process_result(&mut scheduler, process, ProcessResult::Pending);
    assert!(scheduler.has_process());
    assert!(!scheduler.has_ready_process());

    // A complete process is discarded.
    let pid = scheduler.add_new_process(Priority::NORMAL, 8);
    let process = scheduler.next_process().unwrap();
    assert_eq!(process.id(), pid);
    handle_process_result(&mut scheduler, process, ProcessResult::Complete);
    assert!(scheduler.has_process()); // The pending one is still stored.
    assert!(!scheduler.has_ready_process());
}

#[test]
fn check_result_mapping() {
    assert_eq!(
        check_result::<()>(Poll::Ready(Ok(Status::Complete))),
        Some(ProcessResult::Complete)
    );
    assert_eq!(check_result::<()>(Poll::Ready(Ok(Status::Ready))), None);
    assert_eq!(check_result::<()>(Poll::Ready(Err(()))), Some(ProcessResult::Complete));
    assert_eq!(check_result::<()>(Poll::Pending), Some(ProcessResult::Pending));
}

/// An actor that sums the messages it receives and completes on 0.
#[derive(Debug)]
struct SumActor {
    total: usize,
}

impl heph::process::Actor for SumActor {
    type Message = usize;
    type Error = ();

    fn poll(&mut self, _: &mut ActorContext) -> ActorResult<()> {
        Poll::Ready(Ok(Status::Ready))
    }

    fn handle(&mut self, _: &mut ActorContext, msg: usize) -> ActorResult<()> {
        self.total += msg;
        if msg == 0 {
            Poll::Ready(Ok(Status::Complete))
        } else {
            Poll::Ready(Ok(Status::Ready))
        }
    }
}

#[test]
fn actor_process_runs_messages() {
    let mut ctx = ActorContext {};
    let mut process = ActorProcess::new(ProcessId(1), SumActor { total: 0 });
    let actor_ref = process.create_ref();

    // Without messages the actor stays pending.
    assert_eq!(process.run(&mut ctx), ProcessResult::Pending);

    actor_ref.send(process.inbox_mut(), 3).unwrap();
    actor_ref.send(process.inbox_mut(), 4).unwrap();
    assert_eq!(process.run(&mut ctx), ProcessResult::Pending);

    // A zero message completes the actor.
    actor_ref.send(process.inbox_mut(), 0).unwrap();
    assert_eq!(process.run(&mut ctx), ProcessResult::Complete);
}

#[test]
fn actor_options() {
    let opts = ActorOptions::default();
    assert_eq!(opts.priority(), Priority::NORMAL);
    assert!(!opts.is_ready());

    let opts = opts.with_priority(Priority::HIGH);
    assert_eq!(opts.priority(), Priority::HIGH);
    assert!(!opts.is_ready());

    let opts = opts.mark_ready();
    assert!(opts.is_ready());
    assert_eq!(opts.priority(), Priority::HIGH);
}

#[test]
fn generic_messages() {
    let start = heph::messages::Start(());
    assert_eq!(start, heph::messages::Start(()));
    let ack = heph::messages::Ack(7_usize);
    assert_eq!(ack.0, 7);
    let done = heph::messages::Done(());
    assert_eq!(done, heph::messages::Done(()));
    let cancel = heph::messages::Cancel(1_u8);
    assert_eq!(cancel.0, 1);
    let terminate = heph::messages::Terminate;
    assert_eq!(terminate, heph::messages::Terminate);
}

#[test]
fn relay_config_builds() {
    let config = heph::relay::Config::<(), (), (), usize, usize, ()>::default();
    let config = config.route(7_u8);
    let config = config.udp();
    let _config = config.json();

    let config = heph::relay::Config::<(), (), (), usize, usize, ()>::default();
    let _config = config.route(1_u8).tcp().json();
}

// Scenario: a fresh channel delivers one value and is empty after.
#[test]
fn scenario_send_then_recv_then_empty() {
    let (sender, receiver, mut channel) = new_small::<usize>();
    sender.try_send(&mut channel, 123).unwrap();
    assert_eq!(receiver.try_recv(&mut channel), Ok(123));
    assert_eq!(receiver.try_recv(&mut channel), Err(RecvError::Empty));
}

// Scenario: a filled channel rejects the ninth value with it, hands the
// eight values back in order, and is empty after.
#[test]
fn scenario_fill_reject_drain_in_order() {
    let (sender, receiver, mut channel) = new_small::<usize>();
    for value in 0..8 {
        sender.try_send(&mut channel, value).unwrap();
    }
    assert_eq!(sender.try_send(&mut channel, 9), Err(SendError::Full(9)));
    for value in 0..8 {
        assert_eq!(receiver.try_recv(&mut channel), Ok(value));
    }
    assert_eq!(receiver.try_recv(&mut channel), Err(RecvError::Empty));
}

// Scenario: a send into a full channel suspends, a receive wakes it, and
// the next poll completes it.
#[test]
fn scenario_send_suspends_until_recv() {
    let (sender, receiver, mut channel) = new_small::<usize>();
    for value in 0..8 {
        sender.try_send(&mut channel, value).unwrap();
    }

    let send_waker = waker(9);
    let mut future = sender.send(8);
    assert_eq!(future.poll(&mut channel, send_waker), Poll::Pending);

    assert_eq!(receiver.try_recv(&mut channel), Ok(0));
    assert!(channel.woken().iter().any(|w| w.will_wake(&send_waker)));
    assert_eq!(future.poll(&mut channel, send_waker), Poll::Ready(Ok(())));
}

// Scenario: a cancelled suspended send hands its value back and its parked
// waker is unlinked, so a later receive wakes no one.
#[test]
fn scenario_cancelled_send_unparks() {
    let (sender, receiver, mut channel) = new_small::<usize>();
    for value in 0..8 {
        sender.try_send(&mut channel, value).unwrap();
    }

    let send_waker = waker(9);
    let mut future = sender.send(8);
    assert_eq!(future.poll(&mut channel, send_waker), Poll::Pending);
    assert_eq!(future.cancel(&mut channel), Some(8));

    assert_eq!(receiver.try_recv(&mut channel), Ok(0));
    assert!(!channel.woken().iter().any(|w| w.will_wake(&send_waker)));
}

// Scenario: the receiver can be replaced through the manager, and once the
// manager and the receiver are gone the sender is disconnected.
#[test]
fn scenario_manager_replaces_receiver() {
    let (manager, sender, receiver, mut channel) = Manager::<usize>::new_small_channel();

    receiver.disconnect(&mut channel);
    assert!(sender.is_connected(&channel));

    let receiver = manager.new_receiver(&mut channel).unwrap();
    receiver.disconnect(&mut channel);

    manager.disconnect(&mut channel);
    assert!(!sender.is_connected(&channel));
}

// Scenario: the received values are among the sent ones, whatever the order
// of attempts.
#[test]
fn scenario_received_values_were_sent() {
    let (sender, receiver, mut channel) = new_small::<usize>();
    let mut sent = Vec::new();
    let mut received = Vec::new();

    for value in [7, 7, 9] {
        if sender.try_send(&mut channel, value).is_ok() {
            sent.push(value);
        }
    }
    let _ = receiver.try_recv(&mut channel).map(|v| received.push(v));
    let _ = receiver.try_recv(&mut channel).map(|v| received.push(v));

    for value in &received {
        let sent_count = sent.iter().filter(|v| *v == value).count();
        let received_count = received.iter().filter(|v| *v == value).count();
        assert!(received_count <= sent_count);
    }
    assert_eq!(received, vec![7, 7]);
}


// Scenario: a sender parked on a full inbox is woken by the receive that
// opens a slot up, and the wake-up travels through the wake-up event queue
// into the scheduler, which marks the sending process ready.
#[test]
fn scenario_inbox_wake_reaches_scheduler() {
    let mut scheduler: Scheduler<usize> = Scheduler::new();
    let mut events = WakerEvents::new();
    let pid = scheduler.add_new_process(Priority::NORMAL, 0);
    // The sending process suspends: it is stored inactive.
    let process = scheduler.next_process().unwrap();
    scheduler.add_back_process(process);
    assert!(!scheduler.has_ready_process());

    let (sender, receiver, mut channel) = new_small::<usize>();
    for value in 0..8 {
        sender.try_send(&mut channel, value).unwrap();
    }
    let send_waker = new_waker(WakerId(0), pid);
    let mut future = sender.send(8);
    assert_eq!(future.poll(&mut channel, send_waker), Poll::Pending);

    // The receive opens a slot and wakes the parked sender.
    assert_eq!(receiver.try_recv(&mut channel), Ok(0));
    channel.drain_wakeups(&mut events);
    heph::worker::drain_wake_events(&mut scheduler, &mut events);
    assert!(scheduler.has_ready_process());
    let process = scheduler.next_process().unwrap();
    assert_eq!(process.id(), pid);
    assert_eq!(future.poll(&mut channel, send_waker), Poll::Ready(Ok(())));
}

// Scenario: failed receive attempts (which advance the cursor) do not
// disturb the order: values still come out first in, first out.
#[test]
fn scenario_failed_recv_keeps_order() {
    let (sender, receiver, mut channel) = new_small::<usize>();
    assert_eq!(receiver.try_recv(&mut channel), Err(RecvError::Empty));
    assert_eq!(receiver.try_recv(&mut channel), Err(RecvError::Empty));
    sender.try_send(&mut channel, 1).unwrap();
    sender.try_send(&mut channel, 2).unwrap();
    assert_eq!(receiver.try_recv(&mut channel), Ok(1));
    sender.try_send(&mut channel, 3).unwrap();
    assert_eq!(receiver.try_recv(&mut channel), Ok(2));
    assert_eq!(receiver.try_recv(&mut channel), Ok(3));
    assert_eq!(receiver.try_recv(&mut channel), Err(RecvError::Empty));
}
