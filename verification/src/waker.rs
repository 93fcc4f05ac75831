//! Waker plumbing: a compact waker value and the queue of wake-up events.
//!
//! A waker is a plain `(waker id, process id)` pair. Waking does not call
//! into a scheduler directly: it sends the process id into a wake-up event
//! queue, and the worker loop drains that queue and marks the processes
//! ready in its scheduler. Two wakers wake the same process exactly when
//! their pairs are equal.

use vstd::prelude::*;

use crate::process::ProcessId;

verus! {

/// Identifier of the scheduler (or runtime) a waker belongs to.
#[derive(Copy, Clone, Debug, PartialEq, Eq, Structural)]
pub struct WakerId(pub usize);

/// A handle that, when invoked, marks one process as ready by sending its id
/// into a [`WakerEvents`] queue.
#[derive(Copy, Clone, Debug, PartialEq, Eq, Structural)]
pub struct Waker {
    /// The scheduler this waker belongs to.
    pub waker_id: WakerId,
    /// The process this waker wakes.
    pub pid: ProcessId,
}

/// Create a new waker for the process `pid` of the scheduler `waker_id`.
pub fn new_waker(waker_id: WakerId, pid: ProcessId) -> (w: Waker)
    ensures
        w == (Waker { waker_id, pid }),
{
    Waker { waker_id, pid }
}

impl Waker {
    /// Returns `true` if `self` and `other` wake the same process of the
    /// same scheduler.
    pub fn will_wake(&self, other: &Waker) -> (r: bool)
        ensures
            r == (*self == *other),
    {
        self.waker_id.0 == other.waker_id.0 && self.pid.0 == other.pid.0
    }

    /// Wake the process: deliver its id into the wake-up event queue.
    pub fn wake(self, events: &mut WakerEvents)
        ensures
            waker_events_view(*final(events)) == waker_events_view(*old(events)).push(
                self.pid.0,
            ),
    {
        events.push(self.pid.0);
    }
}

/// The queue of wake-up events of one worker: process ids sent by wakers and
/// not yet drained by the worker loop, oldest first.
#[verifier::external_body]
pub struct WakerEvents {
    sender: crossbeam_channel::Sender<usize>,
    receiver: crossbeam_channel::Receiver<usize>,
}

/// The process ids in the queue, oldest first.
pub uninterp spec fn waker_events_view(q: WakerEvents) -> Seq<usize>;

impl WakerEvents {
    /// Create an empty wake-up event queue.
    ///
    /// Relies on `crossbeam_channel::unbounded`: a newly created channel
    /// holds no messages.
    #[verifier::external_body]
    pub fn new() -> (q: WakerEvents)
        ensures
            waker_events_view(q) == Seq::<usize>::empty(),
    {
        let (sender, receiver) = crossbeam_channel::unbounded();
        WakerEvents { sender, receiver }
    }

    /// Append one process id at the back of the queue.
    ///
    /// Relies on `crossbeam_channel::Sender::send`: on an unbounded channel
    /// the message is enqueued, in order, and sending fails only when all
    /// receivers are gone — this queue owns its receiver.
    #[verifier::external_body]
    pub fn push(&mut self, pid: usize)
        ensures
            waker_events_view(*final(self)) == waker_events_view(*old(self)).push(pid),
    {
        let _ = self.sender.send(pid);
    }

    /// Remove and return the oldest process id, if any.
    ///
    /// Relies on `crossbeam_channel::Receiver::try_recv`: it returns the
    /// oldest message of the channel without blocking, or an error when the
    /// channel is empty.
    #[verifier::external_body]
    pub fn pop(&mut self) -> (r: Option<usize>)
        ensures
            waker_events_view(*old(self)).len() == 0 ==> r is None && waker_events_view(
                *final(self),
            ) == waker_events_view(*old(self)),
            waker_events_view(*old(self)).len() > 0 ==> r == Some(
                waker_events_view(*old(self))[0],
            ) && waker_events_view(*final(self)) == waker_events_view(*old(self)).drop_first(),
    {
        match self.receiver.try_recv() {
            Ok(pid) => Some(pid),
            Err(_) => None,
        }
    }

    /// Returns `true` if no wake-up event is queued.
    ///
    /// Relies on `crossbeam_channel::Receiver::is_empty`.
    #[verifier::external_body]
    pub fn is_empty(&self) -> (r: bool)
        ensures
            r == (waker_events_view(*self).len() == 0),
    {
        self.receiver.is_empty()
    }
}

} // verus!
