//! The timers of one worker: deadlines with the waker to invoke when they
//! pass, each registration identified by a token for cancellation.

use vstd::prelude::*;

use crate::waker::{waker_events_view, Waker, WakerEvents};

verus! {

/// Identifies one timer registration, for cancellation.
#[derive(Copy, Clone, Debug, PartialEq, Eq, Structural)]
pub struct TimerToken(pub u64);

/// One timer: when `deadline` (nanoseconds) passes, `waker` is woken.
#[derive(Copy, Clone, Debug, PartialEq, Eq)]
pub struct TimerEntry {
    /// The deadline, in nanoseconds.
    pub deadline: u64,
    /// Identifies this registration.
    pub token: u64,
    /// Woken once the deadline passed.
    pub waker: Waker,
}

/// The timers of one worker, ordered by deadline (ties in registration
/// order).
#[derive(Debug)]
pub struct Timers {
    entries: Vec<TimerEntry>,
    next_token: u64,
}

/// The first position whose deadline lies after `deadline`: where a new
/// timer with that deadline is inserted, and how many timers a clock at
/// `deadline` expires.
pub open spec fn spec_deadline_pos(entries: Seq<TimerEntry>, deadline: u64) -> int
    decreases entries.len(),
{
    if entries.len() == 0 {
        0
    } else if entries[0].deadline > deadline {
        0
    } else {
        1 + spec_deadline_pos(entries.drop_first(), deadline)
    }
}

/// The position of the timer registered under `token`, if it is still set.
pub open spec fn spec_find_timer(entries: Seq<TimerEntry>, token: u64) -> Option<int>
    decreases entries.len(),
{
    if entries.len() == 0 {
        None
    } else if entries[0].token == token {
        Some(0int)
    } else {
        match spec_find_timer(entries.drop_first(), token) {
            Some(i) => Some(i + 1),
            None => None,
        }
    }
}

/// The deadline position is in range, splits the timers into the expired
/// and the outstanding, and respects the deadline order.
proof fn lemma_deadline_pos(entries: Seq<TimerEntry>, deadline: u64)
    requires
        forall|i: int, j: int|
            0 <= i < j < entries.len() ==> (#[trigger] entries[i]).deadline <= (
            #[trigger] entries[j]).deadline,
    ensures
        0 <= spec_deadline_pos(entries, deadline) <= entries.len(),
        forall|i: int|
            0 <= i < spec_deadline_pos(entries, deadline) ==> (#[trigger] entries[i]).deadline
                <= deadline,
        forall|i: int|
            spec_deadline_pos(entries, deadline) <= i < entries.len() ==> (
            #[trigger] entries[i]).deadline > deadline,
    decreases entries.len(),
{
    if entries.len() > 0 && entries[0].deadline <= deadline {
        assert forall|i: int, j: int|
            0 <= i < j < entries.drop_first().len() implies (
        #[trigger] entries.drop_first()[i]).deadline <= (
        #[trigger] entries.drop_first()[j]).deadline by {
            assert(entries.drop_first()[i] == entries[i + 1]);
            assert(entries.drop_first()[j] == entries[j + 1]);
        }
        lemma_deadline_pos(entries.drop_first(), deadline);
        assert forall|i: int|
            0 <= i < spec_deadline_pos(entries, deadline) implies (
        #[trigger] entries[i]).deadline <= deadline by {
            if i > 0 {
                assert(entries[i] == entries.drop_first()[i - 1]);
            }
        }
        assert forall|i: int|
            spec_deadline_pos(entries, deadline) <= i < entries.len() implies (
        #[trigger] entries[i]).deadline > deadline by {
            assert(entries[i] == entries.drop_first()[i - 1]);
        }
    }
}

/// Where `spec_find_timer` finds a position, it is in range and exact;
/// where it finds none, no timer carries the token.
proof fn lemma_find_timer(entries: Seq<TimerEntry>, token: u64)
    ensures
        match spec_find_timer(entries, token) {
            Some(i) => 0 <= i < entries.len() && entries[i].token == token,
            None => forall|i: int| 0 <= i < entries.len() ==> (#[trigger] entries[i]).token != token,
        },
    decreases entries.len(),
{
    if entries.len() > 0 && entries[0].token != token {
        lemma_find_timer(entries.drop_first(), token);
        match spec_find_timer(entries.drop_first(), token) {
            Some(i) => {
                assert(entries[i + 1] == entries.drop_first()[i]);
            },
            None => {
                assert forall|i: int| 0 <= i < entries.len() implies (#[trigger] entries[i]).token
                    != token by {
                    if i > 0 {
                        assert(entries[i] == entries.drop_first()[i - 1]);
                    }
                }
            },
        }
    }
}

impl Timers {
    /// The timers that are set, in deadline order.
    pub closed spec fn spec_entries(&self) -> Seq<TimerEntry> {
        self.entries@
    }

    /// The token the next registration will get.
    pub closed spec fn spec_next_token(&self) -> u64 {
        self.next_token
    }

    /// The timers are well formed: in deadline order, with pairwise
    /// distinct tokens, all below the next free token.
    pub open spec fn wf(&self) -> bool {
        &&& forall|i: int, j: int|
            0 <= i < j < self.spec_entries().len() ==> (#[trigger] self.spec_entries()[i]).deadline
                <= (#[trigger] self.spec_entries()[j]).deadline
        &&& forall|i: int, j: int|
            0 <= i < j < self.spec_entries().len() ==> (#[trigger] self.spec_entries()[i]).token
                != (#[trigger] self.spec_entries()[j]).token
        &&& forall|i: int|
            0 <= i < self.spec_entries().len() ==> (#[trigger] self.spec_entries()[i]).token
                < self.spec_next_token()
    }

    /// Create an empty set of timers.
    pub fn new() -> (r: Timers)
        ensures
            r.wf(),
            r.spec_entries() =~= Seq::<TimerEntry>::empty(),
            r.spec_next_token() == 0,
    {
        Timers { entries: Vec::new(), next_token: 0 }
    }

    /// How many timers are set.
    pub fn len(&self) -> (r: usize)
        ensures
            r == self.spec_entries().len(),
    {
        self.entries.len()
    }

    /// Add a timer: wake `waker` once `deadline` has passed. Returns the
    /// token under which the timer can be removed again.
    pub fn add(&mut self, deadline: u64, waker: Waker) -> (token: TimerToken)
        requires
            old(self).wf(),
            old(self).spec_next_token() < u64::MAX,
        ensures
            final(self).wf(),
            token.0 == old(self).spec_next_token(),
            final(self).spec_next_token() == old(self).spec_next_token() + 1,
            final(self).spec_entries() == old(self).spec_entries().insert(
                spec_deadline_pos(old(self).spec_entries(), deadline),
                TimerEntry { deadline, token: token.0, waker },
            ),
    {
        proof {
            lemma_deadline_pos(self.spec_entries(), deadline);
        }
        let token = self.next_token;
        let entry = TimerEntry { deadline, token, waker };
        let mut pos: usize = 0;
        while pos < self.entries.len() && self.entries[pos].deadline <= deadline
            invariant
                *self == *old(self),
                self.wf(),
                pos <= self.entries.len(),
                forall|i: int| 0 <= i < pos ==> (#[trigger] self.entries@[i]).deadline <= deadline,
            decreases self.entries.len() - pos,
        {
            pos = pos + 1;
        }
        proof {
            assert(pos as int == spec_deadline_pos(self.entries@, deadline)) by {
                lemma_deadline_pos(self.spec_entries(), deadline);
                if (pos as int) < spec_deadline_pos(self.entries@, deadline) {
                    assert(self.entries@[pos as int].deadline <= deadline);
                }
                if (pos as int) > spec_deadline_pos(self.entries@, deadline) {
                    assert(self.entries@[spec_deadline_pos(self.entries@, deadline)].deadline
                        <= deadline);
                }
            }
        }
        self.entries.insert(pos, entry);
        self.next_token = self.next_token + 1;
        proof {
            let post = self.entries@;
            let p = pos as int;
            assert forall|i: int, j: int| 0 <= i < j < post.len() implies (
            #[trigger] post[i]).deadline <= (#[trigger] post[j]).deadline by {
                lemma_deadline_pos(old(self).spec_entries(), deadline);
                if i != p && j != p {
                    let i0 = if i < p {
                        i
                    } else {
                        i - 1
                    };
                    let j0 = if j < p {
                        j
                    } else {
                        j - 1
                    };
                    assert(post[i] == old(self).entries@[i0] && post[j] == old(self).entries@[j0]);
                }
            }
            assert forall|i: int, j: int| 0 <= i < j < post.len() implies (
            #[trigger] post[i]).token != (#[trigger] post[j]).token by {
                if i != p && j != p {
                    let i0 = if i < p {
                        i
                    } else {
                        i - 1
                    };
                    let j0 = if j < p {
                        j
                    } else {
                        j - 1
                    };
                    assert(post[i] == old(self).entries@[i0] && post[j] == old(self).entries@[j0]);
                } else if i == p {
                    assert(post[j] == old(self).entries@[j - 1]);
                } else {
                    assert(post[i] == old(self).entries@[i]);
                }
            }
            assert forall|i: int| 0 <= i < post.len() implies (#[trigger] post[i]).token
                < self.next_token by {
                if i != p {
                    let i0 = if i < p {
                        i
                    } else {
                        i - 1
                    };
                    assert(post[i] == old(self).entries@[i0]);
                }
            }
        }
        TimerToken(token)
    }

    /// Remove the timer set under `deadline` and `token`, if it is still
    /// set; its waker will not be woken.
    pub fn remove(&mut self, deadline: u64, token: TimerToken)
        requires
            old(self).wf(),
        ensures
            final(self).wf(),
            final(self).spec_next_token() == old(self).spec_next_token(),
            match spec_find_timer(old(self).spec_entries(), token.0) {
                Some(i) => if old(self).spec_entries()[i].deadline == deadline {
                    final(self).spec_entries() == old(self).spec_entries().remove(i)
                } else {
                    final(self).spec_entries() == old(self).spec_entries()
                },
                None => final(self).spec_entries() == old(self).spec_entries(),
            },
    {
        proof {
            lemma_find_timer(self.spec_entries(), token.0);
        }
        let mut k: usize = 0;
        while k < self.entries.len()
            invariant
                *self == *old(self),
                self.wf(),
                k <= self.entries.len(),
                forall|i: int| 0 <= i < k ==> (#[trigger] self.entries@[i]).token != token.0,
            decreases self.entries.len() - k,
        {
            if self.entries[k].token == token.0 {
                proof {
                    lemma_find_timer_prefix(self.entries@, token.0, k as int);
                }
                if self.entries[k].deadline == deadline {
                    let _ = self.entries.remove(k);
                    proof {
                        let post = self.entries@;
                        let p = k as int;
                        assert forall|i: int, j: int| 0 <= i < j < post.len() implies (
                        #[trigger] post[i]).deadline <= (#[trigger] post[j]).deadline && (
                        #[trigger] post[i]).token != (#[trigger] post[j]).token by {
                            let i0 = if i < p {
                                i
                            } else {
                                i + 1
                            };
                            let j0 = if j < p {
                                j
                            } else {
                                j + 1
                            };
                            assert(post[i] == old(self).entries@[i0] && post[j] == old(
                                self,
                            ).entries@[j0]);
                        }
                        assert forall|i: int| 0 <= i < post.len() implies (
                        #[trigger] post[i]).token < self.next_token by {
                            let i0 = if i < p {
                                i
                            } else {
                                i + 1
                            };
                            assert(post[i] == old(self).entries@[i0]);
                        }
                    }
                }
                return ;
            }
            k = k + 1;
        }
    }

    /// The deadline of the next timer to pass, if any is set.
    pub fn next_deadline(&self) -> (r: Option<u64>)
        requires
            self.wf(),
        ensures
            match r {
                Some(d) => self.spec_entries().len() > 0 && d == self.spec_entries()[0].deadline
                    && forall|i: int|
                    0 <= i < self.spec_entries().len() ==> d <= (
                    #[trigger] self.spec_entries()[i]).deadline,
                None => self.spec_entries().len() == 0,
            },
    {
        if self.entries.len() == 0 {
            None
        } else {
            Some(self.entries[0].deadline)
        }
    }

    /// Wake every timer whose deadline is at or before `now`, in deadline
    /// order, removing it; returns how many were woken.
    pub fn expire_timers(&mut self, now: u64, events: &mut WakerEvents) -> (count: usize)
        requires
            old(self).wf(),
        ensures
            final(self).wf(),
            final(self).spec_next_token() == old(self).spec_next_token(),
            count == spec_deadline_pos(old(self).spec_entries(), now),
            final(self).spec_entries() == old(self).spec_entries().skip(count as int),
            waker_events_view(*final(events)) == waker_events_view(*old(events)) + old(
                self,
            ).spec_entries().take(count as int).map_values(|e: TimerEntry| e.waker.pid.0),
    {
        proof {
            lemma_deadline_pos(self.spec_entries(), now);
        }
        let ghost pre = self.entries@;
        let ghost pos = spec_deadline_pos(pre, now);
        let mut count: usize = 0;
        while count < self.entries.len() && self.entries[count].deadline <= now
            invariant
                self.entries@ == pre,
                self.wf(),
                *self == *old(self),
                count <= self.entries.len(),
                forall|i: int| 0 <= i < count ==> (#[trigger] pre[i]).deadline <= now,
            decreases self.entries.len() - count,
        {
            count = count + 1;
        }
        proof {
            assert(count as int == pos) by {
                if (count as int) < pos {
                    assert(pre[count as int].deadline <= now);
                }
                if (count as int) > pos {
                    assert(pre[pos].deadline <= now);
                }
            }
        }
        let mut k: usize = 0;
        while k < count
            invariant
                count <= self.entries.len() + k,
                k <= count,
                count as int == pos <= pre.len(),
                self.entries@ == pre.skip(k as int),
                self.next_token == old(self).spec_next_token(),
                self.wf(),
                forall|i: int, j: int|
                    0 <= i < j < pre.len() ==> (#[trigger] pre[i]).deadline <= (
                    #[trigger] pre[j]).deadline && (#[trigger] pre[i]).token != (
                    #[trigger] pre[j]).token,
                forall|i: int| 0 <= i < pre.len() ==> (#[trigger] pre[i]).token < self.next_token,
                waker_events_view(*events) == waker_events_view(*old(events)) + pre.take(
                    k as int,
                ).map_values(|e: TimerEntry| e.waker.pid.0),
            decreases count - k,
        {
            let entry = self.entries.remove(0);
            entry.waker.wake(events);
            k = k + 1;
            proof {
                assert(self.entries@ =~= pre.skip(k as int));
                assert forall|i: int, j: int| 0 <= i < j < self.entries@.len() implies (
                #[trigger] self.entries@[i]).deadline <= (#[trigger] self.entries@[j]).deadline
                    && (#[trigger] self.entries@[i]).token != (
                #[trigger] self.entries@[j]).token by {
                    assert(self.entries@[i] == pre[i + k]);
                    assert(self.entries@[j] == pre[j + k]);
                    assert(pre[i + k].deadline <= pre[j + k].deadline);
                    assert(pre[i + k].token != pre[j + k].token);
                }
                assert forall|i: int| 0 <= i < self.entries@.len() implies (
                #[trigger] self.entries@[i]).token < self.next_token by {
                    assert(self.entries@[i] == pre[i + k]);
                    assert(pre[i + k].token < self.next_token);
                }
                assert(pre.take(k as int).map_values(|e: TimerEntry| e.waker.pid.0) =~= pre.take(
                    k as int - 1,
                ).map_values(|e: TimerEntry| e.waker.pid.0).push(entry.waker.pid.0));
                assert(waker_events_view(*events) =~= waker_events_view(*old(events)) + pre.take(
                    k as int,
                ).map_values(|e: TimerEntry| e.waker.pid.0));
            }
        }
        count
    }

    /// The timeout a poll should use: `current` where no timer is set or
    /// `current` is sooner, zero where the next deadline already passed, and
    /// the time left until the next deadline otherwise.
    pub fn next_timeout(&self, now: u64, current: Option<u64>) -> (r: Option<u64>)
        requires
            self.wf(),
        ensures
            self.spec_entries().len() == 0 ==> r == current,
            self.spec_entries().len() > 0 ==> ({
                let deadline = self.spec_entries()[0].deadline;
                if deadline <= now {
                    r == Some(0u64)
                } else {
                    match current {
                        Some(c) => r == Some(if c < deadline - now {
                            c
                        } else {
                            (deadline - now) as u64
                        }),
                        None => r == Some((deadline - now) as u64),
                    }
                }
            }),
    {
        match self.next_deadline() {
            Some(deadline) => {
                if deadline <= now {
                    // The deadline already passed: no blocking.
                    Some(0)
                } else {
                    let timeout = deadline - now;
                    match current {
                        Some(current) if current < timeout => Some(current),
                        _ => Some(timeout),
                    }
                }
            },
            None => current,
        }
    }
}

/// Where the first `k` timers do not carry `token` and timer `k` does, the
/// find stops at `k`.
proof fn lemma_find_timer_prefix(entries: Seq<TimerEntry>, token: u64, k: int)
    requires
        0 <= k < entries.len(),
        entries[k].token == token,
        forall|i: int| 0 <= i < k ==> (#[trigger] entries[i]).token != token,
    ensures
        spec_find_timer(entries, token) == Some(k),
    decreases k,
{
    if k > 0 {
        lemma_find_timer_prefix(entries.drop_first(), token, k - 1);
    }
}

} // verus!
