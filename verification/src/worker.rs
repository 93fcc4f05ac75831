//! The decisions of a worker's event loop: how long a poll may block, how
//! wake-up events turn into readiness marks, and what happens to a process
//! after it ran.
//!
//! One loop iteration runs up to [`RUN_POLL_RATIO`] ready processes, polls
//! the OS event sources with the timeout of [`determine_timeout`], drains
//! the wake-up event queue with [`drain_wake_events`], and expires the
//! timers. The polling itself is I/O and lives with the caller; what stands
//! here is every decision the loop takes.

use vstd::prelude::*;

use crate::process::{ProcessId, ProcessResult};
use crate::scheduler::{ProcessData, Scheduler};
use crate::waker::{waker_events_view, WakerEvents};

verus! {

broadcast use vstd::seq_lib::group_to_multiset_ensures;

/// Number of processes a worker runs before polling again.
pub const RUN_POLL_RATIO: usize = 32;

/// A process signal, as the coordinator relays it to the workers.
#[derive(Copy, Clone, Debug, PartialEq, Eq, Structural)]
pub enum Signal {
    /// The process was interrupted, for example from the terminal (SIGINT).
    Interrupt,
    /// The process was asked to terminate (SIGTERM).
    Terminate,
    /// The process was asked to quit (SIGQUIT).
    Quit,
    /// User-defined signal one (SIGUSR1).
    User1,
    /// User-defined signal two (SIGUSR2).
    User2,
}

impl Signal {
    /// Whether receiving this signal should stop the runtime: an interrupt,
    /// terminate or quit does; the user-defined signals are the receiving
    /// actors' to interpret.
    pub fn should_stop(self) -> (r: bool)
        ensures
            r == (self == Signal::Interrupt || self == Signal::Terminate || self == Signal::Quit),
    {
        matches!(self, Signal::Interrupt | Signal::Terminate | Signal::Quit)
    }
}

/// Returns `true` if `timeout` asks for a poll that does not block.
pub fn is_zero(timeout: Option<u64>) -> (r: bool)
    ensures
        r == (timeout == Some(0u64)),
{
    match timeout {
        Some(timeout) => timeout == 0,
        None => false,
    }
}

/// The timeout of the next OS poll, in nanoseconds: zero if any process is
/// ready to run or a wake-up event is pending, else the time until the next
/// timer deadline, else unbounded (`None`).
pub fn determine_timeout(
    local_has_ready: bool,
    shared_has_ready: bool,
    waker_events_empty: bool,
    next_deadline: Option<u64>,
    now: u64,
) -> (r: Option<u64>)
    ensures
        (local_has_ready || shared_has_ready || !waker_events_empty) ==> r == Some(0u64),
        !(local_has_ready || shared_has_ready || !waker_events_empty) ==> match next_deadline {
            Some(deadline) => r == Some(
                if deadline <= now {
                    0u64
                } else {
                    (deadline - now) as u64
                },
            ),
            None => r is None,
        },
{
    if local_has_ready || !waker_events_empty || shared_has_ready {
        Some(0)
    } else {
        match next_deadline {
            Some(deadline) => {
                if deadline <= now {
                    // The deadline already passed: no blocking.
                    Some(0)
                } else {
                    // The time between the deadline and right now.
                    Some(deadline - now)
                }
            },
            None => None,
        }
    }
}

/// Drain the wake-up event queue, marking each delivered process id ready in
/// the scheduler. Ids of completed (or currently running) processes are
/// no-ops. No process is gained or lost: the stored processes are permuted
/// between the inactive set and the ready queue.
pub fn drain_wake_events<B>(sched: &mut Scheduler<B>, events: &mut WakerEvents)
    requires
        old(sched).wf(),
    ensures
        final(sched).wf(),
        final(sched).spec_next_id() == old(sched).spec_next_id(),
        waker_events_view(*final(events)).len() == 0,
        final(sched).spec_ready().to_multiset().add(final(sched).spec_inactive().to_multiset())
            =~= old(sched).spec_ready().to_multiset().add(
            old(sched).spec_inactive().to_multiset(),
        ),
        forall|i: int|
            0 <= i < final(sched).spec_inactive().len() ==> !waker_events_view(
                *old(events),
            ).contains((#[trigger] final(sched).spec_inactive()[i]).spec_id().0),
{
    let ghost mut consumed: Seq<usize> = Seq::empty();
    loop
        invariant
            sched.wf(),
            sched.spec_next_id() == old(sched).spec_next_id(),
            sched.spec_ready().to_multiset().add(sched.spec_inactive().to_multiset())
                =~= old(sched).spec_ready().to_multiset().add(
                old(sched).spec_inactive().to_multiset(),
            ),
            waker_events_view(*old(events)) == consumed + waker_events_view(*events),
            forall|i: int|
                0 <= i < sched.spec_inactive().len() ==> !consumed.contains(
                    (#[trigger] sched.spec_inactive()[i]).spec_id().0,
                ),
        decreases waker_events_view(*events).len(),
    {
        let ghost remaining = waker_events_view(*events);
        match events.pop() {
            Some(pid) => {
                let ghost before = *sched;
                sched.mark_ready(ProcessId(pid));
                proof {
                    consumed = consumed.push(pid);
                    assert(waker_events_view(*old(events)) =~= consumed + waker_events_view(
                        *events,
                    )) by {
                        assert(remaining =~= seq![pid] + waker_events_view(*events));
                    }
                    crate::scheduler::lemma_find_process(before.spec_inactive(), ProcessId(pid));
                    match crate::scheduler::spec_find_process(
                        before.spec_inactive(),
                        ProcessId(pid),
                    ) {
                        Some(i) => {
                            assert(sched.spec_ready().to_multiset() =~= before.spec_ready(
                            ).to_multiset().insert(before.spec_inactive()[i]));
                            assert(sched.spec_inactive().to_multiset() =~= before.spec_inactive(
                            ).to_multiset().remove(before.spec_inactive()[i]));
                            assert(sched.spec_ready().to_multiset().add(
                                sched.spec_inactive().to_multiset(),
                            ) =~= before.spec_ready().to_multiset().add(
                                before.spec_inactive().to_multiset(),
                            ));
                        },
                        None => {},
                    }
                    assert forall|i: int| 0 <= i < sched.spec_inactive().len() implies !consumed
                        .contains((#[trigger] sched.spec_inactive()[i]).spec_id().0) by {
                        crate::scheduler::lemma_find_process(
                            sched.spec_inactive(),
                            ProcessId(pid),
                        );
                        match crate::scheduler::spec_find_process(
                            before.spec_inactive(),
                            ProcessId(pid),
                        ) {
                            Some(k) => {
                                let removed = before.spec_inactive().remove(k);
                                let i0 = if i < k {
                                    i
                                } else {
                                    i + 1
                                };
                                assert(sched.spec_inactive()[i] == before.spec_inactive()[i0]);
                            },
                            None => {},
                        }
                        assert(sched.spec_inactive()[i].spec_id().0 != pid);
                    }
                }
            },
            None => {
                proof {
                    assert(waker_events_view(*old(events)) =~= consumed);
                }
                return ;
            },
        }
    }
}

/// Store the outcome of one process run: a completed process is discarded, a
/// pending one is stored inactive until it is marked ready again.
pub fn handle_process_result<B>(
    sched: &mut Scheduler<B>,
    process: ProcessData<B>,
    result: ProcessResult,
)
    requires
        old(sched).wf(),
        !old(sched).spec_contains(process.spec_id()),
        process.spec_id().0 < old(sched).spec_next_id(),
    ensures
        final(sched).wf(),
        final(sched).spec_ready() == old(sched).spec_ready(),
        final(sched).spec_next_id() == old(sched).spec_next_id(),
        result == ProcessResult::Complete ==> *final(sched) == *old(sched),
        result == ProcessResult::Pending ==> final(sched).spec_inactive() == old(
            sched,
        ).spec_inactive().push(process),
{
    match result {
        ProcessResult::Complete => sched.complete(process),
        ProcessResult::Pending => {
            sched.add_back_process(process);
            proof {
                assert(sched.spec_inactive() =~= old(sched).spec_inactive().push(process));
            }
        },
    }
}

} // verus!
