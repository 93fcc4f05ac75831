//! Functional tests of the bounded inbox.

use heph::inbox::{new_small, new_small_with_key, Channel, Manager, RecvError, SendError, Sender};
use heph::inbox::{Receiver, SMALL_CAP};
use heph::process::{Poll, ProcessId};
use heph::waker::{new_waker, Waker, WakerId};

fn assert_send<T: Send>() {}

fn assert_sync<T: Sync>() {}

/// A distinct waker per test task.
fn test_waker(n: usize) -> Waker {
    new_waker(WakerId(0), ProcessId(n))
}

/// How many times `waker` has been woken by the channel.
fn wake_count(channel: &Channel<usize>, waker: &Waker) -> usize {
    channel.woken().iter().filter(|w| w.will_wake(waker)).count()
}

#[test]
fn sender_is_send() {
    assert_send::<Sender<()>>();
}

#[test]
fn sender_is_sync() {
    assert_sync::<Sender<()>>();
}

#[test]
fn receiver_is_send() {
    assert_send::<Receiver<()>>();
}

#[test]
fn receiver_is_sync() {
    assert_sync::<Receiver<()>>();
}

#[test]
fn manager_is_send() {
    assert_send::<Manager<()>>();
}

#[test]
fn manager_is_sync() {
    assert_sync::<Manager<()>>();
}

#[test]
fn capacities_are_correct() {
    let (sender, receiver, _channel) = new_small::<()>();
    assert_eq!(sender.capacity(), SMALL_CAP);
    assert_eq!(receiver.capacity(), SMALL_CAP);
}

#[test]
fn functional_sending_and_receiving_value() {
    let (sender, receiver, mut channel) = new_small::<usize>();
    sender.try_send(&mut channel, 123).unwrap();
    assert_eq!(receiver.try_recv(&mut channel).unwrap(), 123);
}

#[test]
fn receiving_from_empty_channel() {
    let (_sender, receiver, mut channel) = new_small::<usize>();
    assert_eq!(receiver.try_recv(&mut channel).unwrap_err(), RecvError::Empty);
}

#[test]
fn receiving_from_disconnected_channel() {
    let (sender, receiver, mut channel) = new_small::<usize>();
    sender.disconnect(&mut channel);
    assert_eq!(receiver.try_recv(&mut channel).unwrap_err(), RecvError::Disconnected);
}

#[test]
fn sending_into_full_channel() {
    let (sender, receiver, mut channel) = new_small::<usize>();
    for value in 0..SMALL_CAP {
        sender.try_send(&mut channel, value).unwrap();
    }
    assert_eq!(
        sender.try_send(&mut channel, SMALL_CAP + 1),
        Err(SendError::Full(SMALL_CAP + 1))
    );
    receiver.disconnect(&mut channel);
}

#[test]
fn send_len_values_send_then_recv() {
    let (sender, receiver, mut channel) = new_small::<usize>();
    for value in 0..SMALL_CAP {
        sender.try_send(&mut channel, value).unwrap();
    }
    assert!(sender.try_send(&mut channel, SMALL_CAP + 1).is_err());
    for value in 0..SMALL_CAP {
        assert_eq!(receiver.try_recv(&mut channel).unwrap(), value);
    }
    assert_eq!(receiver.try_recv(&mut channel).unwrap_err(), RecvError::Empty);
}

#[test]
fn send_len_values_interleaved() {
    let (sender, receiver, mut channel) = new_small::<usize>();
    for value in 0..SMALL_CAP {
        sender.try_send(&mut channel, value).unwrap();
        assert_eq!(receiver.try_recv(&mut channel).unwrap(), value);
    }
}

#[test]
fn send_2_len_values_send_then_recv() {
    let (sender, receiver, mut channel) = new_small::<usize>();
    for value in 0..SMALL_CAP {
        sender.try_send(&mut channel, value).unwrap();
    }
    for value in 0..SMALL_CAP {
        assert_eq!(receiver.try_recv(&mut channel).unwrap(), value);
        sender.try_send(&mut channel, SMALL_CAP + value).unwrap();
    }
    for value in 0..SMALL_CAP {
        assert_eq!(receiver.try_recv(&mut channel).unwrap(), SMALL_CAP + value);
    }
}

#[test]
fn send_2_len_values_interleaved() {
    let (sender, receiver, mut channel) = new_small::<usize>();
    for value in 0..2 * SMALL_CAP {
        sender.try_send(&mut channel, value).unwrap();
        assert_eq!(receiver.try_recv(&mut channel).unwrap(), value);
    }
}

#[test]
fn sender_disconnected_after_send() {
    let (sender, receiver, mut channel) = new_small::<usize>();
    sender.try_send(&mut channel, 123).unwrap();
    sender.disconnect(&mut channel);
    assert_eq!(receiver.try_recv(&mut channel).unwrap(), 123);
    assert_eq!(receiver.try_recv(&mut channel).unwrap_err(), RecvError::Disconnected);
}

#[test]
fn sender_disconnected_after_send_len() {
    let (sender, receiver, mut channel) = new_small::<usize>();
    for value in 0..SMALL_CAP {
        sender.try_send(&mut channel, value).unwrap();
    }
    sender.disconnect(&mut channel);
    for value in 0..SMALL_CAP {
        assert_eq!(receiver.try_recv(&mut channel).unwrap(), value);
    }
    assert_eq!(receiver.try_recv(&mut channel).unwrap_err(), RecvError::Disconnected);
}

#[test]
fn sender_disconnected_after_send_2_len() {
    let (sender, receiver, mut channel) = new_small::<usize>();
    for value in 0..2 * SMALL_CAP {
        sender.try_send(&mut channel, value).unwrap();
        assert_eq!(receiver.try_recv(&mut channel).unwrap(), value);
    }
    sender.disconnect(&mut channel);
    assert_eq!(receiver.try_recv(&mut channel).unwrap_err(), RecvError::Disconnected);
}

const LARGE: usize = 1_000_000;

#[test]
fn stress_sending_interleaved() {
    let (sender, receiver, mut channel) = new_small::<usize>();
    for value in 0..LARGE {
        sender.try_send(&mut channel, value).unwrap();
        assert_eq!(receiver.try_recv(&mut channel).unwrap(), value);
    }
    assert_eq!(receiver.try_recv(&mut channel), Err(RecvError::Empty));
}

#[test]
fn stress_sending_fill() {
    for n in 1..=(SMALL_CAP - 1) {
        let (sender, receiver, mut channel) = new_small::<usize>();

        for value in 0..(LARGE / n) {
            for n in 0..n {
                sender.try_send(&mut channel, value + n).unwrap();
            }
            for n in 0..n {
                assert_eq!(receiver.try_recv(&mut channel).unwrap(), value + n);
            }
        }

        assert_eq!(receiver.try_recv(&mut channel), Err(RecvError::Empty));
    }
}

#[test]
fn functional_sender_is_connected() {
    let (sender, receiver, mut channel) = new_small::<usize>();
    assert!(sender.is_connected(&channel));
    receiver.disconnect(&mut channel);
    assert!(!sender.is_connected(&channel));
}

#[test]
fn functional_receiver_is_connected() {
    let (sender, receiver, mut channel) = new_small::<usize>();
    assert!(receiver.is_connected(&channel));
    sender.disconnect(&mut channel);
    assert!(!receiver.is_connected(&channel));
}

#[test]
fn functional_same_channel() {
    let (sender1a, _receiver1, mut channel1) = new_small_with_key::<usize>(1);
    let sender1b = sender1a.clone_sender(&mut channel1);
    let (sender2a, _receiver2, mut channel2) = new_small_with_key::<usize>(2);
    let sender2b = sender2a.clone_sender(&mut channel2);

    assert!(sender1a.same_channel(&sender1a));
    assert!(sender1a.same_channel(&sender1b));
    assert!(!sender1a.same_channel(&sender2a));
    assert!(!sender1a.same_channel(&sender2b));
    assert!(sender1b.same_channel(&sender1a));
    assert!(sender1b.same_channel(&sender1b));
    assert!(!sender1b.same_channel(&sender2a));
    assert!(!sender1b.same_channel(&sender2b));

    assert!(!sender2a.same_channel(&sender1a));
    assert!(!sender2a.same_channel(&sender1b));
    assert!(sender2a.same_channel(&sender2a));
    assert!(sender2a.same_channel(&sender2b));
    assert!(!sender2b.same_channel(&sender1a));
    assert!(!sender2b.same_channel(&sender1b));
    assert!(sender2b.same_channel(&sender2a));
    assert!(sender2b.same_channel(&sender2b));
}

#[test]
fn functional_sends_to() {
    let (sender1a, receiver1, mut channel1) = new_small_with_key::<usize>(1);
    let sender1b = sender1a.clone_sender(&mut channel1);
    let (sender2a, receiver2, mut channel2) = new_small_with_key::<usize>(2);
    let sender2b = sender2a.clone_sender(&mut channel2);

    assert!(sender1a.sends_to(&receiver1));
    assert!(!sender1a.sends_to(&receiver2));
    assert!(sender1b.sends_to(&receiver1));
    assert!(!sender1b.sends_to(&receiver2));

    assert!(!sender2a.sends_to(&receiver1));
    assert!(sender2a.sends_to(&receiver2));
    assert!(!sender2b.sends_to(&receiver1));
    assert!(sender2b.sends_to(&receiver2));
}

#[test]
fn receiver_new_sender() {
    let (sender, receiver, mut channel) = new_small::<usize>();

    let sender2 = receiver.new_sender(&mut channel);
    assert!(sender2.sends_to(&receiver));
    assert!(sender2.same_channel(&sender));

    sender.disconnect(&mut channel);
    assert!(sender2.is_connected(&channel));
    assert!(receiver.is_connected(&channel));

    sender2.try_send(&mut channel, 123).unwrap();
    assert_eq!(receiver.try_recv(&mut channel).unwrap(), 123);

    receiver.disconnect(&mut channel);
    assert!(!sender2.is_connected(&channel));
}

#[test]
fn send_value() {
    let (sender, receiver, mut channel) = new_small::<usize>();

    let waker = test_waker(1);

    let mut future = sender.send(10);

    assert_eq!(future.poll(&mut channel, waker), Poll::Ready(Ok(())));
    assert_eq!(wake_count(&channel, &waker), 0);
    assert_eq!(receiver.try_recv(&mut channel), Ok(10));
}

#[test]
fn send_value_full_channel() {
    let (sender, receiver, mut channel) = new_small::<usize>();
    // Fill the channel.
    for value in 0..SMALL_CAP {
        sender.try_send(&mut channel, value).unwrap();
    }

    let waker = test_waker(1);

    let mut future = sender.send(SMALL_CAP);

    // Channel should be full.
    assert_eq!(future.poll(&mut channel, waker), Poll::Pending);
    assert_eq!(wake_count(&channel, &waker), 0);

    // Receiving a value should wake a sender.
    assert_eq!(receiver.try_recv(&mut channel), Ok(0));
    assert_eq!(wake_count(&channel, &waker), 1);
    assert_eq!(future.poll(&mut channel, waker), Poll::Ready(Ok(())));

    for want in 1..SMALL_CAP + 1 {
        assert_eq!(receiver.try_recv(&mut channel), Ok(want));
    }
}

#[test]
fn send_many_values() {
    let (sender, receiver, mut channel) = new_small::<usize>();

    let waker = test_waker(1);

    for value in 0..SMALL_CAP {
        let mut future = sender.send(value);

        assert_eq!(future.poll(&mut channel, waker), Poll::Ready(Ok(())));
        assert_eq!(wake_count(&channel, &waker), 0);
    }

    for value in 0..SMALL_CAP {
        assert_eq!(receiver.try_recv(&mut channel), Ok(value));
    }
}

#[test]
fn send_many_values_interleaved() {
    let (sender, receiver, mut channel) = new_small::<usize>();

    let waker = test_waker(1);

    for value in 0..SMALL_CAP {
        let mut future = sender.send(value);

        assert_eq!(future.poll(&mut channel, waker), Poll::Ready(Ok(())));
        assert_eq!(wake_count(&channel, &waker), 0);

        assert_eq!(receiver.try_recv(&mut channel), Ok(value));
    }
}

// Test where `n` senders try to send into a full channel.
fn send_many_values_full_channel_test(n: usize) {
    let (sender, receiver, mut channel) = new_small::<usize>();
    // Fill the channel.
    for value in 0..SMALL_CAP {
        sender.try_send(&mut channel, value).unwrap();
    }

    // Create a `Sender` for each pending send.
    let mut senders = Vec::with_capacity(n);
    for _ in 0..n {
        senders.push(sender.clone_sender(&mut channel));
    }

    // Create a number of pending sends, each with its own waker.
    let mut futures = Vec::with_capacity(n);
    for (index, sender) in senders.iter().enumerate() {
        let waker = test_waker(index);
        let mut future = sender.send(index + SMALL_CAP);

        assert_eq!(future.poll(&mut channel, waker), Poll::Pending);
        assert_eq!(wake_count(&channel, &waker), 0);

        futures.push((waker, future));
    }

    for value in 0..SMALL_CAP {
        // Receiving a value should wake the correct pending send.
        assert_eq!(receiver.try_recv(&mut channel), Ok(value));
        if value < n {
            assert_eq!(wake_count(&channel, &futures[value].0), 1);
        }
    }

    let take = std::cmp::min(SMALL_CAP, futures.len());
    for (waker, mut future) in futures.drain(..take) {
        assert_eq!(wake_count(&channel, &waker), 1);

        assert_eq!(future.poll(&mut channel, waker), Poll::Ready(Ok(())));
        assert_eq!(wake_count(&channel, &waker), 1);
    }

    while !futures.is_empty() {
        for value in (0..futures.len()).take(SMALL_CAP) {
            assert_eq!(receiver.try_recv(&mut channel), Ok(value + SMALL_CAP));
        }

        let take = std::cmp::min(SMALL_CAP, futures.len());
        for (waker, mut future) in futures.drain(..take) {
            assert_eq!(wake_count(&channel, &waker), 1);

            assert_eq!(future.poll(&mut channel, waker), Poll::Ready(Ok(())));
            assert_eq!(wake_count(&channel, &waker), 1);
        }
    }
}

#[test]
fn send_many_values_full_channel_one_sender() {
    send_many_values_full_channel_test(1);
}

#[test]
fn send_many_values_full_channel_two_senders() {
    send_many_values_full_channel_test(2);
}

#[test]
fn send_many_values_full_channel_three_senders() {
    send_many_values_full_channel_test(3);
}

#[test]
fn send_many_values_full_channel_four_senders() {
    send_many_values_full_channel_test(4);
}

#[test]
fn send_many_values_full_channel_len_senders() {
    send_many_values_full_channel_test(SMALL_CAP);
}

#[test]
fn send_many_values_full_channel_many_senders() {
    send_many_values_full_channel_test(2 * SMALL_CAP);
}

#[test]
fn send_value_supports_polling_with_different_wakers() {
    let (sender, receiver, mut channel) = new_small::<usize>();

    for _ in 0..SMALL_CAP {
        sender.try_send(&mut channel, 123).unwrap();
    }

    let waker1 = test_waker(1);
    let waker2 = test_waker(2);

    let mut future = sender.send(10);
    assert_eq!(future.poll(&mut channel, waker1), Poll::Pending);
    assert_eq!(future.poll(&mut channel, waker2), Poll::Pending);

    for _ in 0..SMALL_CAP {
        assert_eq!(receiver.try_recv(&mut channel).unwrap(), 123);
    }
    receiver.disconnect(&mut channel);

    assert_eq!(wake_count(&channel, &waker1), 0);
    assert_eq!(wake_count(&channel, &waker2), 1);
}

#[test]
fn recv_value() {
    let waker = test_waker(1);
    let (sender, receiver, mut channel) = new_small::<usize>();

    let mut future = receiver.recv();

    assert_eq!(future.poll(&mut channel, waker), Poll::Pending);

    sender.try_send(&mut channel, 10).unwrap();
    assert_eq!(wake_count(&channel, &waker), 1);

    assert_eq!(future.poll(&mut channel, waker), Poll::Ready(Some(10)));
}

#[test]
fn recv_value_wake_up_optimised() {
    let waker = test_waker(1);
    let (sender, receiver, mut channel) = new_small::<usize>();

    sender.try_send(&mut channel, 10).unwrap();
    assert_eq!(wake_count(&channel, &waker), 0); // Wake-up optimised away.

    let mut future = receiver.recv();

    assert_eq!(future.poll(&mut channel, waker), Poll::Ready(Some(10)));
}

#[test]
fn recv_value_empty() {
    let waker = test_waker(1);

    let (sender, receiver, mut channel) = new_small::<usize>();

    let mut future = receiver.recv();

    assert_eq!(future.poll(&mut channel, waker), Poll::Pending);
    assert_eq!(wake_count(&channel, &waker), 0);

    sender.try_send(&mut channel, 10).unwrap();

    assert_eq!(wake_count(&channel, &waker), 1);
    assert_eq!(future.poll(&mut channel, waker), Poll::Ready(Some(10)));
}

#[test]
fn recv_value_all_senders_disconnected() {
    let waker = test_waker(1);

    let (sender, receiver, mut channel) = new_small::<usize>();

    let mut future = receiver.recv();

    assert_eq!(future.poll(&mut channel, waker), Poll::Pending);

    // Disconnecting the last sender should notify the receiver.
    sender.disconnect(&mut channel);
    assert_eq!(wake_count(&channel, &waker), 1);

    assert_eq!(future.poll(&mut channel, waker), Poll::Ready(None));
}

#[test]
fn recv_value_all_senders_disconnected_not_empty() {
    let waker = test_waker(1);

    let (sender, receiver, mut channel) = new_small::<usize>();

    let mut future = receiver.recv();

    assert_eq!(future.poll(&mut channel, waker), Poll::Pending);

    // Sending and disconnecting the last sender should wake the receiver.
    sender.try_send(&mut channel, 10).unwrap();
    assert_eq!(wake_count(&channel, &waker), 1);
    sender.disconnect(&mut channel);
    assert_eq!(wake_count(&channel, &waker), 1); // Wake-up optimised away.

    assert_eq!(future.poll(&mut channel, waker), Poll::Ready(Some(10)));
    let mut future = receiver.recv();
    assert_eq!(future.poll(&mut channel, waker), Poll::Ready(None));
}

#[test]
fn recv_value_all_senders_disconnected_cloned_sender() {
    let waker = test_waker(1);

    let (sender, receiver, mut channel) = new_small::<usize>();
    let sender2 = sender.clone_sender(&mut channel);

    let mut future = receiver.recv();

    assert_eq!(future.poll(&mut channel, waker), Poll::Pending);

    // Only disconnecting the last sender should wake the receiver.
    sender.disconnect(&mut channel);
    assert_eq!(wake_count(&channel, &waker), 0);
    sender2.disconnect(&mut channel);
    assert_eq!(wake_count(&channel, &waker), 1);

    assert_eq!(future.poll(&mut channel, waker), Poll::Ready(None));
}

#[test]
fn recv_value_only_wake_if_polled() {
    let waker = test_waker(1);

    let (sender, receiver, mut channel) = new_small::<usize>();

    let mut future = receiver.recv();

    sender.disconnect(&mut channel);
    // The receive was not polled yet, so no wake-up notification should be
    // delivered.
    assert_eq!(wake_count(&channel, &waker), 0);

    assert_eq!(future.poll(&mut channel, waker), Poll::Ready(None));
}

#[test]
fn new_sender() {
    let (manager, sender1, receiver, mut channel) = Manager::<usize>::new_small_channel();
    let sender2 = manager.new_sender(&mut channel);

    sender1.try_send(&mut channel, 123).unwrap();
    sender2.try_send(&mut channel, 456).unwrap();

    assert_eq!(receiver.try_recv(&mut channel).unwrap(), 123);
    assert_eq!(receiver.try_recv(&mut channel).unwrap(), 456);
}

#[test]
fn new_receiver() {
    let (manager, sender, receiver, mut channel) = Manager::<usize>::new_small_channel();
    sender.try_send(&mut channel, 123).unwrap();

    receiver.disconnect(&mut channel);
    sender.try_send(&mut channel, 456).unwrap();

    let receiver = manager.new_receiver(&mut channel).unwrap();

    assert_eq!(receiver.try_recv(&mut channel).unwrap(), 123);
    assert_eq!(receiver.try_recv(&mut channel).unwrap(), 456);
}

#[test]
fn new_receiver_already_exists() {
    let (manager, _sender, _receiver, mut channel) = Manager::<usize>::new_small_channel();
    assert_eq!(manager.new_receiver(&mut channel).unwrap_err(), heph::inbox::ReceiverConnected);
}

#[test]
fn sending_and_receiving_value() {
    let (manager, sender, receiver, mut channel) = Manager::<usize>::new_small_channel();
    sender.try_send(&mut channel, 123).unwrap();
    assert_eq!(receiver.try_recv(&mut channel).unwrap(), 123);
    manager.disconnect(&mut channel);
}

#[test]
fn sender_is_connected() {
    let (manager, sender, receiver, mut channel) = Manager::<usize>::new_small_channel();
    assert!(sender.is_connected(&channel));
    receiver.disconnect(&mut channel);
    // Manager is still alive.
    assert!(sender.is_connected(&channel));
    manager.disconnect(&mut channel);
    assert!(!sender.is_connected(&channel));
}

#[test]
fn receiver_is_connected() {
    let (manager, sender, receiver, mut channel) = Manager::<usize>::new_small_channel();
    assert!(receiver.is_connected(&channel));
    manager.disconnect(&mut channel);
    assert!(receiver.is_connected(&channel));
    sender.disconnect(&mut channel);
    assert!(!receiver.is_connected(&channel));

    let (manager, sender, receiver, mut channel) = Manager::<usize>::new_small_channel();
    assert!(receiver.is_connected(&channel));
    sender.disconnect(&mut channel);
    assert!(!receiver.is_connected(&channel));
    let new_sender = manager.new_sender(&mut channel);
    assert!(receiver.is_connected(&channel));
    new_sender.disconnect(&mut channel);
    assert!(!receiver.is_connected(&channel));
}

#[test]
fn same_channel() {
    let (manager1, sender1a, _receiver1, mut channel1) =
        Manager::<usize>::new_small_channel_with_key(1);
    let sender1b = manager1.new_sender(&mut channel1);
    let (manager2, sender2a, _receiver2, mut channel2) =
        Manager::<usize>::new_small_channel_with_key(2);
    let sender2b = manager2.new_sender(&mut channel2);

    assert!(sender1a.same_channel(&sender1a));
    assert!(sender1a.same_channel(&sender1b));
    assert!(!sender1a.same_channel(&sender2a));
    assert!(!sender1a.same_channel(&sender2b));
    assert!(sender1b.same_channel(&sender1a));
    assert!(sender1b.same_channel(&sender1b));
    assert!(!sender1b.same_channel(&sender2a));
    assert!(!sender1b.same_channel(&sender2b));

    assert!(!sender2a.same_channel(&sender1a));
    assert!(!sender2a.same_channel(&sender1b));
    assert!(sender2a.same_channel(&sender2a));
    assert!(sender2a.same_channel(&sender2b));
    assert!(!sender2b.same_channel(&sender1a));
    assert!(!sender2b.same_channel(&sender1b));
    assert!(sender2b.same_channel(&sender2a));
    assert!(sender2b.same_channel(&sender2b));
}

#[test]
fn sends_to() {
    let (manager1, sender1a, receiver1, mut channel1) =
        Manager::<usize>::new_small_channel_with_key(1);
    let sender1b = manager1.new_sender(&mut channel1);
    let (manager2, sender2a, receiver2, mut channel2) =
        Manager::<usize>::new_small_channel_with_key(2);
    let sender2b = manager2.new_sender(&mut channel2);

    assert!(sender1a.sends_to(&receiver1));
    assert!(!sender1a.sends_to(&receiver2));
    assert!(sender1b.sends_to(&receiver1));
    assert!(!sender1b.sends_to(&receiver2));

    assert!(!sender2a.sends_to(&receiver1));
    assert!(sender2a.sends_to(&receiver2));
    assert!(!sender2b.sends_to(&receiver1));
    assert!(sender2b.sends_to(&receiver2));
}
