//! The process scheduler: it stores suspended processes, tracks their
//! readiness, and hands out the ready process with the smallest
//! priority-weighted runtime.
//!
//! Each entry carries its accumulated runtime; the next process to run is
//! the ready one whose runtime times its priority weight is smallest, with
//! ties broken by priority and then by id, so that of freshly spawned
//! processes the high-priority ones run first and a low-priority process
//! running alone still progresses.

use vstd::prelude::*;

use crate::process::ProcessId;

verus! {

/// Priority of a process: a small ordered set that determines the weight of
/// its accumulated runtime in scheduling.
#[allow(non_camel_case_types)]
#[derive(Copy, Clone, Debug, PartialEq, Eq, Structural)]
pub enum Priority {
    /// Low priority: its runtime weighs threefold.
    LOW,
    /// The default priority: its runtime weighs twofold.
    NORMAL,
    /// High priority: its runtime weighs as it is.
    HIGH,
}

impl Priority {
    /// The multiplier this priority gives to accumulated runtime; a smaller
    /// weighted runtime runs sooner. No weight is zero, so no priority
    /// starves another completely.
    pub open spec fn spec_weight(self) -> u64 {
        match self {
            Priority::LOW => 3,
            Priority::NORMAL => 2,
            Priority::HIGH => 1,
        }
    }

    /// The multiplier this priority gives to accumulated runtime.
    pub fn weight(self) -> (r: u64)
        ensures
            r == self.spec_weight(),
    {
        match self {
            Priority::LOW => 3,
            Priority::NORMAL => 2,
            Priority::HIGH => 1,
        }
    }
}

impl Default for Priority {
    /// The default priority is `NORMAL`.
    fn default() -> (r: Priority)
        ensures
            r == Priority::NORMAL,
    {
        Priority::NORMAL
    }
}

/// One scheduler entry: a process with its identity, priority and
/// accumulated runtime, and the body it runs.
#[derive(Debug)]
pub struct ProcessData<B> {
    id: ProcessId,
    priority: Priority,
    /// Accumulated runtime, in nanoseconds.
    fair_runtime: u64,
    /// What the process runs; the scheduler never looks inside.
    pub body: B,
}

impl<B> ProcessData<B> {
    /// The id of this process.
    pub closed spec fn spec_id(&self) -> ProcessId {
        self.id
    }

    /// The priority of this process.
    pub closed spec fn spec_priority(&self) -> Priority {
        self.priority
    }

    /// The accumulated runtime of this process, in nanoseconds.
    pub closed spec fn spec_runtime(&self) -> u64 {
        self.fair_runtime
    }

    /// The body of this process.
    pub closed spec fn spec_body(&self) -> B {
        self.body
    }

    /// The id of this process.
    pub fn id(&self) -> (r: ProcessId)
        ensures
            r == self.spec_id(),
    {
        self.id
    }

    /// The priority of this process.
    pub fn priority(&self) -> (r: Priority)
        ensures
            r == self.spec_priority(),
    {
        self.priority
    }

    /// Record `elapsed` nanoseconds of runtime, saturating at the maximum.
    pub fn add_runtime(&mut self, elapsed: u64)
        ensures
            final(self).spec_id() == old(self).spec_id(),
            final(self).spec_priority() == old(self).spec_priority(),
            final(self).spec_body() == old(self).spec_body(),
            final(self).spec_runtime() == if old(self).spec_runtime() + elapsed > u64::MAX {
                u64::MAX
            } else {
                (old(self).spec_runtime() + elapsed) as u64
            },
    {
        self.fair_runtime = self.fair_runtime.saturating_add(elapsed);
    }

    /// The priority-weighted runtime this process is ordered by.
    pub open spec fn spec_weighted(&self) -> int {
        self.spec_runtime() * self.spec_priority().spec_weight()
    }

    /// Whether this process is scheduled before `other`: its weighted
    /// runtime is smaller, with ties broken towards the higher priority and
    /// then the smaller id.
    pub open spec fn spec_runs_before(&self, other: &ProcessData<B>) -> bool {
        ||| self.spec_weighted() < other.spec_weighted()
        ||| (self.spec_weighted() == other.spec_weighted()
            && self.spec_priority().spec_weight() < other.spec_priority().spec_weight())
        ||| (self.spec_weighted() == other.spec_weighted()
            && self.spec_priority().spec_weight() == other.spec_priority().spec_weight()
            && self.spec_id().0 < other.spec_id().0)
    }

    /// Whether this process is scheduled before `other`.
    pub fn runs_before(&self, other: &ProcessData<B>) -> (r: bool)
        ensures
            r == self.spec_runs_before(other),
    {
        proof {
            lemma_weighted_bound(self.fair_runtime, self.priority.spec_weight());
            lemma_weighted_bound(other.fair_runtime, other.priority.spec_weight());
        }
        let a = (self.fair_runtime as u128) * (self.priority.weight() as u128);
        let b = (other.fair_runtime as u128) * (other.priority.weight() as u128);
        if a != b {
            a < b
        } else if self.priority.weight() != other.priority.weight() {
            self.priority.weight() < other.priority.weight()
        } else {
            self.id.0 < other.id.0
        }
    }
}

/// Law: among processes that have not yet run, the one with the higher
/// priority is scheduled first, and between equal priorities the one spawned
/// earlier (the smaller id).
pub proof fn lemma_fresh_priority_order<B>(a: &ProcessData<B>, b: &ProcessData<B>)
    requires
        a.spec_runtime() == 0,
        b.spec_runtime() == 0,
    ensures
        a.spec_runs_before(b) <==> (a.spec_priority().spec_weight() < b.spec_priority().spec_weight()
            || (a.spec_priority().spec_weight() == b.spec_priority().spec_weight() && a.spec_id().0
            < b.spec_id().0)),
{
}

/// A runtime weighted by a priority weight of at most three fits well within
/// the range it is computed in.
proof fn lemma_weighted_bound(runtime: u64, w: u64)
    by (nonlinear_arith)
    requires
        w <= 3,
    ensures
        runtime * w <= 0xffff_ffff_ffff_ffff * 3,
{
}

impl<B> PartialEq for ProcessData<B> {
    /// Two entries are equal exactly when neither is scheduled before the
    /// other.
    fn eq(&self, other: &ProcessData<B>) -> (r: bool) {
        !self.runs_before(other) && !other.runs_before(self)
    }
}

impl<B> vstd::std_specs::cmp::PartialEqSpecImpl for ProcessData<B> {
    open spec fn obeys_eq_spec() -> bool {
        true
    }

    open spec fn eq_spec(&self, other: &ProcessData<B>) -> bool {
        !self.spec_runs_before(other) && !other.spec_runs_before(self)
    }
}

impl<B> PartialOrd for ProcessData<B> {
    /// An entry is the greater the sooner it is scheduled.
    fn partial_cmp(&self, other: &ProcessData<B>) -> (r: Option<core::cmp::Ordering>) {
        if self.runs_before(other) {
            Some(core::cmp::Ordering::Greater)
        } else if other.runs_before(self) {
            Some(core::cmp::Ordering::Less)
        } else {
            Some(core::cmp::Ordering::Equal)
        }
    }
}

impl<B> vstd::std_specs::cmp::PartialOrdSpecImpl for ProcessData<B> {
    open spec fn obeys_partial_cmp_spec() -> bool {
        true
    }

    open spec fn partial_cmp_spec(&self, other: &ProcessData<B>) -> Option<core::cmp::Ordering> {
        if self.spec_runs_before(other) {
            Some(core::cmp::Ordering::Greater)
        } else if other.spec_runs_before(self) {
            Some(core::cmp::Ordering::Less)
        } else {
            Some(core::cmp::Ordering::Equal)
        }
    }
}

/// A sequence of scheduler entries has well-formed identities: pairwise
/// distinct and all below the next free id.
pub open spec fn ids_ok<B>(s: Seq<ProcessData<B>>, next_id: usize) -> bool {
    &&& forall|i: int, j: int|
        0 <= i < j < s.len() ==> (#[trigger] s[i].spec_id()).0 != (#[trigger] s[j].spec_id()).0
    &&& forall|i: int| 0 <= i < s.len() ==> (#[trigger] s[i].spec_id()).0 < next_id
}

/// The first index in `s` of the entry with id `pid`, if any.
pub open spec fn spec_find_process<B>(s: Seq<ProcessData<B>>, pid: ProcessId) -> Option<int>
    decreases s.len(),
{
    if s.len() == 0 {
        None
    } else if s[0].spec_id().0 == pid.0 {
        Some(0int)
    } else {
        match spec_find_process(s.drop_first(), pid) {
            Some(i) => Some(i + 1),
            None => None,
        }
    }
}

/// Where `spec_find_process` finds an index, it is in range and exact; where
/// it finds none, no entry has the id.
pub proof fn lemma_find_process<B>(s: Seq<ProcessData<B>>, pid: ProcessId)
    ensures
        match spec_find_process(s, pid) {
            Some(i) => 0 <= i < s.len() && s[i].spec_id().0 == pid.0,
            None => forall|i: int| 0 <= i < s.len() ==> (#[trigger] s[i].spec_id()).0 != pid.0,
        },
    decreases s.len(),
{
    if s.len() > 0 && s[0].spec_id().0 != pid.0 {
        lemma_find_process(s.drop_first(), pid);
        match spec_find_process(s.drop_first(), pid) {
            Some(i) => {
                assert(s[i + 1] == s.drop_first()[i]);
            },
            None => {
                assert forall|i: int| 0 <= i < s.len() implies (#[trigger] s[i].spec_id()).0
                    != pid.0 by {
                    if i > 0 {
                        assert(s[i] == s.drop_first()[i - 1]);
                    }
                }
            },
        }
    }
}

/// Where the first `k` entries do not carry `pid` and entry `k` does, the
/// find stops at `k`.
proof fn lemma_find_process_prefix<B>(s: Seq<ProcessData<B>>, pid: ProcessId, k: int)
    requires
        0 <= k < s.len(),
        s[k].spec_id().0 == pid.0,
        forall|i: int| 0 <= i < k ==> (#[trigger] s[i].spec_id()).0 != pid.0,
    ensures
        spec_find_process(s, pid) == Some(k),
    decreases k,
{
    if k > 0 {
        lemma_find_process_prefix(s.drop_first(), pid, k - 1);
    }
}

/// Removing an entry keeps identities well formed.
proof fn lemma_ids_ok_remove<B>(s: Seq<ProcessData<B>>, next_id: usize, i: int)
    requires
        ids_ok(s, next_id),
        0 <= i < s.len(),
    ensures
        ids_ok(s.remove(i), next_id),
{
    let r = s.remove(i);
    assert forall|a: int, b: int| 0 <= a < b < r.len() implies (#[trigger] r[a].spec_id()).0 != (
    #[trigger] r[b].spec_id()).0 by {
        let a0 = if a < i {
            a
        } else {
            a + 1
        };
        let b0 = if b < i {
            b
        } else {
            b + 1
        };
        assert(r[a] == s[a0] && r[b] == s[b0]);
    }
    assert forall|a: int| 0 <= a < r.len() implies (#[trigger] r[a].spec_id()).0 < next_id by {
        let a0 = if a < i {
            a
        } else {
            a + 1
        };
        assert(r[a] == s[a0]);
    }
}

/// The scheduler: the ready queue and the inactive set of processes, and the
/// id counter for spawns. A process is in at most one of the two; a running
/// process is in neither, its entry is owned by the caller that took it.
#[derive(Debug)]
pub struct Scheduler<B> {
    ready: Vec<ProcessData<B>>,
    inactive: Vec<ProcessData<B>>,
    next_id: usize,
}

impl<B> Scheduler<B> {
    /// The ready processes, in storage order.
    pub closed spec fn spec_ready(&self) -> Seq<ProcessData<B>> {
        self.ready@
    }

    /// The inactive processes, in storage order.
    pub closed spec fn spec_inactive(&self) -> Seq<ProcessData<B>> {
        self.inactive@
    }

    /// The id the next spawned process will get.
    pub closed spec fn spec_next_id(&self) -> usize {
        self.next_id
    }

    /// The scheduler is well formed: ids are pairwise distinct, in the ready
    /// queue, in the inactive set, and across the two, and all are below the
    /// next free id.
    pub open spec fn wf(&self) -> bool {
        &&& ids_ok(self.spec_ready(), self.spec_next_id())
        &&& ids_ok(self.spec_inactive(), self.spec_next_id())
        &&& forall|i: int, j: int|
            0 <= i < self.spec_ready().len() && 0 <= j < self.spec_inactive().len() ==> (
            #[trigger] self.spec_ready()[i].spec_id()).0 != (
            #[trigger] self.spec_inactive()[j].spec_id()).0
    }

    /// Whether a process with id `pid` is stored, ready or inactive.
    pub open spec fn spec_contains(&self, pid: ProcessId) -> bool {
        spec_find_process(self.spec_ready(), pid) is Some || spec_find_process(
            self.spec_inactive(),
            pid,
        ) is Some
    }

    /// Create an empty scheduler.
    pub fn new() -> (r: Scheduler<B>)
        ensures
            r.wf(),
            r.spec_ready() =~= Seq::<ProcessData<B>>::empty(),
            r.spec_inactive() =~= Seq::<ProcessData<B>>::empty(),
            r.spec_next_id() == 0,
    {
        Scheduler { ready: Vec::new(), inactive: Vec::new(), next_id: 0 }
    }

    /// Add a new process with the given priority and body. It is stored
    /// ready, with no accumulated runtime, under a fresh id, which is
    /// returned.
    pub fn add_new_process(&mut self, priority: Priority, body: B) -> (pid: ProcessId)
        requires
            old(self).wf(),
            old(self).spec_next_id() < usize::MAX,
        ensures
            final(self).wf(),
            pid.0 == old(self).spec_next_id(),
            final(self).spec_next_id() == old(self).spec_next_id() + 1,
            final(self).spec_inactive() == old(self).spec_inactive(),
            final(self).spec_ready().len() == old(self).spec_ready().len() + 1,
            final(self).spec_ready().drop_last() == old(self).spec_ready(),
            final(self).spec_ready().last().spec_id() == pid,
            final(self).spec_ready().last().spec_priority() == priority,
            final(self).spec_ready().last().spec_runtime() == 0,
            final(self).spec_ready().last().spec_body() == body,
    {
        let pid = ProcessId(self.next_id);
        self.ready.push(ProcessData { id: pid, priority, fair_runtime: 0, body });
        self.next_id = self.next_id + 1;
        proof {
            assert(self.ready@.drop_last() =~= old(self).ready@);
        }
        pid
    }

    /// Returns `true` if the scheduler stores any process, ready or not.
    pub fn has_process(&self) -> (r: bool)
        ensures
            r == (self.spec_ready().len() + self.spec_inactive().len() > 0),
    {
        self.ready.len() > 0 || self.inactive.len() > 0
    }

    /// Returns `true` if the scheduler stores a process that is ready to
    /// run.
    pub fn has_ready_process(&self) -> (r: bool)
        ensures
            r == (self.spec_ready().len() > 0),
    {
        self.ready.len() > 0
    }

    /// Remove the ready process that is scheduled first — the one with the
    /// smallest priority-weighted runtime — and hand it to the caller, which
    /// owns it (and runs it) until it gives it back. Returns a process
    /// exactly when one is ready.
    pub fn next_process(&mut self) -> (r: Option<ProcessData<B>>)
        requires
            old(self).wf(),
        ensures
            final(self).wf(),
            final(self).spec_inactive() == old(self).spec_inactive(),
            final(self).spec_next_id() == old(self).spec_next_id(),
            r is Some <==> old(self).spec_ready().len() > 0,
            r matches Some(p) ==> exists|i: int|
                0 <= i < old(self).spec_ready().len() && p == #[trigger] old(self).spec_ready()[i]
                    && final(self).spec_ready() == old(self).spec_ready().remove(i) && (forall|
                    j: int,
                |
                    0 <= j < old(self).spec_ready().len() && j != i ==> p.spec_runs_before(
                        &old(self).spec_ready()[j],
                    )),
            r is None ==> final(self).spec_ready() == old(self).spec_ready(),
            r matches Some(p) ==> !final(self).spec_contains(p.spec_id()),
    {
        if self.ready.len() == 0 {
            return None;
        }
        let mut best: usize = 0;
        let mut j: usize = 1;
        while j < self.ready.len()
            invariant
                *self == *old(self),
                self.wf(),
                self.ready.len() > 0,
                best < j <= self.ready.len(),
                forall|m: int|
                    0 <= m < j && m != best ==> self.ready@[best as int].spec_runs_before(
                        &(#[trigger] self.ready@[m]),
                    ),
            decreases self.ready.len() - j,
        {
            if self.ready[j].runs_before(&self.ready[best]) {
                best = j;
            }
            j = j + 1;
        }
        let p = self.ready.remove(best);
        proof {
            lemma_ids_ok_remove(old(self).ready@, self.next_id, best as int);
            lemma_find_process(self.ready@, p.spec_id());
            lemma_find_process(self.inactive@, p.spec_id());
            match spec_find_process(self.ready@, p.spec_id()) {
                Some(i) => {
                    let i0 = if i < best as int {
                        i
                    } else {
                        i + 1
                    };
                    assert(self.ready@[i] == old(self).ready@[i0]);
                    assert(false);
                },
                None => {},
            }
            match spec_find_process(self.inactive@, p.spec_id()) {
                Some(i) => {
                    assert(old(self).ready@[best as int].spec_id().0 != old(
                        self,
                    ).inactive@[i].spec_id().0);
                    assert(false);
                },
                None => {},
            }
        }
        Some(p)
    }

    /// Give back a process whose run did not complete. It is stored
    /// inactive: it will not run again until it is marked ready.
    pub fn add_back_process(&mut self, process: ProcessData<B>)
        requires
            old(self).wf(),
            !old(self).spec_contains(process.spec_id()),
            process.spec_id().0 < old(self).spec_next_id(),
        ensures
            final(self).wf(),
            final(self).spec_ready() == old(self).spec_ready(),
            final(self).spec_next_id() == old(self).spec_next_id(),
            final(self).spec_inactive().len() == old(self).spec_inactive().len() + 1,
            final(self).spec_inactive().drop_last() == old(self).spec_inactive(),
            final(self).spec_inactive().last() == process,
    {
        proof {
            lemma_find_process(self.ready@, process.spec_id());
            lemma_find_process(self.inactive@, process.spec_id());
        }
        self.inactive.push(process);
        proof {
            assert(self.inactive@.drop_last() =~= old(self).inactive@);
            assert forall|i: int, j: int| 0 <= i < j < self.inactive@.len() implies (
            #[trigger] self.inactive@[i].spec_id()).0 != (
            #[trigger] self.inactive@[j].spec_id()).0 by {
                if j == self.inactive@.len() - 1 {
                    assert(self.inactive@[i] == old(self).inactive@[i]);
                }
            }
        }
    }

    /// Discard a process that completed its run.
    pub fn complete(&mut self, process: ProcessData<B>)
        ensures
            *final(self) == *old(self),
    {
        let _ = process;
    }

    /// Mark the process with id `pid` as ready to run: an inactive process
    /// moves to the ready queue; a pid that is not stored — an outdated pid
    /// of a completed process, or one owned by a running caller — is a
    /// no-op.
    pub fn mark_ready(&mut self, pid: ProcessId)
        requires
            old(self).wf(),
        ensures
            final(self).wf(),
            final(self).spec_next_id() == old(self).spec_next_id(),
            match spec_find_process(old(self).spec_inactive(), pid) {
                Some(i) => final(self).spec_ready() == old(self).spec_ready().push(
                    old(self).spec_inactive()[i],
                ) && final(self).spec_inactive() == old(self).spec_inactive().remove(i),
                None => *final(self) == *old(self),
            },
    {
        proof {
            lemma_find_process(self.inactive@, pid);
        }
        let mut k: usize = 0;
        while k < self.inactive.len()
            invariant
                *self == *old(self),
                self.wf(),
                k <= self.inactive.len(),
                forall|i: int|
                    0 <= i < k ==> (#[trigger] self.inactive@[i].spec_id()).0 != pid.0,
            decreases self.inactive.len() - k,
        {
            let node_id = self.inactive[k].id;
            if node_id.0 == pid.0 {
                proof {
                    lemma_find_process_prefix(self.inactive@, pid, k as int);
                }
                let process = self.inactive.remove(k);
                self.ready.push(process);
                proof {
                    lemma_ids_ok_remove(old(self).inactive@, self.next_id, k as int);
                    assert forall|i: int, j: int| 0 <= i < j < self.ready@.len() implies (
                    #[trigger] self.ready@[i].spec_id()).0 != (
                    #[trigger] self.ready@[j].spec_id()).0 by {
                        if j == self.ready@.len() - 1 {
                            assert(self.ready@[i] == old(self).ready@[i]);
                        }
                    }
                }
                return ;
            }
            k = k + 1;
        }
    }
}

} // verus!
