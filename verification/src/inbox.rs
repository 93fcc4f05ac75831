//! Bounded capacity channel: the multi-producer, single-consumer (MPSC)
//! queue used as the inbox of an actor.
//!
//! The channel state is a single value of type [`Channel`]. The per-slot
//! statuses and the receiver's cursor are packed into one status word, and a
//! packed reference-count word tracks how many [`Sender`]s are alive and
//! whether the [`Receiver`] and the [`Manager`] are. The handles are tokens
//! that are presented together with the channel value; disconnecting a
//! handle is an explicit operation that consumes the token.
//!
//! The channel is not guaranteed to be First In First Out (FIFO): the
//! receiver's cursor advances on every receive attempt, also a failed one,
//! and senders scan for a free slot starting at the cursor. Receiving in
//! send order is guaranteed for the cursor-aligned configurations described
//! by [`ChannelView::is_clean`].

use core::marker::PhantomData;

use vstd::multiset::Multiset;
use vstd::prelude::*;

use crate::process::Poll;
use crate::waker::{waker_events_view, Waker, WakerEvents};

verus! {

/// The capacity of a small channel.
pub const SMALL_CAP: usize = 8;

// Bits to mark the status of a slot.
pub const STATUS_BITS: u64 = 2;
pub const STATUS_MASK: u64 = 0b11;
// The possible statuses of a slot.
pub const EMPTY: u64 = 0b00;
pub const TAKEN: u64 = 0b01;
pub const FILLED: u64 = 0b11;
pub const READING: u64 = 0b10;
// Status transitions.
pub const MARK_TAKEN: u64 = 0b01; // OR to go from EMPTY -> TAKEN.
pub const MARK_FILLED: u64 = 0b11; // OR to go from TAKEN -> FILLED.
pub const MARK_READING: u64 = 0b01; // XOR to go from FILLED -> READING.
pub const MARK_EMPTIED: u64 = 0b11; // ! AND to go from FILLED or READING -> EMPTY.

// Bits to mark the position of the receiver, above the slot statuses.
pub const POS_SHIFT: u64 = 16; // STATUS_BITS * SMALL_CAP.
pub const POS_MASK: u64 = 0b111;
pub const MARK_NEXT_POS: u64 = 0x1_0000; // 1 << POS_SHIFT: add to increase position by 1.

/// Bit of the reference count that marks the receiver as alive.
pub const RECEIVER_ALIVE: u64 = 0x8000_0000_0000_0000; // Bit 63.
/// Bit of the reference count that marks the manager as alive.
pub const MANAGER_ALIVE: u64 = 0x4000_0000_0000_0000; // Bit 62.
/// Both liveness bits; the remaining bits count the senders.
pub const ALIVE_MASK: u64 = RECEIVER_ALIVE | MANAGER_ALIVE;
/// More senders than this may not be alive at once.
pub const MAX_SENDERS: u64 = 0x4000_0000; // 1 << 30.

/// Returns the `STATUS_BITS` of `slot` in `status`.
pub open spec fn spec_slot_status(status: u64, slot: u64) -> u64 {
    (status >> ((STATUS_BITS * slot) as u64)) & STATUS_MASK
}

/// Returns the position of the receiver. Will be in the 0..SMALL_CAP range.
pub open spec fn spec_receiver_pos(status: u64) -> u64 {
    (status >> POS_SHIFT) & POS_MASK
}

/// The mask that applies `transition` to the status bits of `slot`.
pub open spec fn spec_mark_slot(slot: u64, transition: u64) -> u64 {
    transition << ((STATUS_BITS * slot) as u64)
}

/// The number of senders alive in the reference count `rc`.
pub open spec fn spec_sender_count(rc: u64) -> u64 {
    rc & !ALIVE_MASK
}

/// Whether the reference count `rc` says the receiver is alive.
pub open spec fn spec_receiver_alive(rc: u64) -> bool {
    rc & RECEIVER_ALIVE != 0
}

/// Whether the reference count `rc` says the manager is alive.
pub open spec fn spec_manager_alive(rc: u64) -> bool {
    rc & MANAGER_ALIVE != 0
}

/// In the all-zero status word every slot is `EMPTY` and the receiver
/// position is 0.
proof fn lemma_status_zero()
    by (bit_vector)
    ensures
        forall|j: u64| j < 8 ==> #[trigger] spec_slot_status(0, j) == EMPTY,
        spec_receiver_pos(0) == 0,
{
}

/// The receiver position is always below the capacity.
proof fn lemma_pos_bound(s: u64)
    by (bit_vector)
    ensures
        spec_receiver_pos(s) < 8,
{
}

/// Effect of OR-ing a slot transition into the status word: only the two
/// status bits of that slot change, and the receiver position does not.
proof fn lemma_status_or(s: u64, i: u64, m: u64)
    by (bit_vector)
    requires
        i < 8,
        m <= 3,
    ensures
        forall|j: u64|
            j < 8 && j != i ==> #[trigger] spec_slot_status(s | spec_mark_slot(i, m), j)
                == spec_slot_status(s, j),
        spec_slot_status(s | spec_mark_slot(i, m), i) == spec_slot_status(s, i) | m,
        spec_receiver_pos(s | spec_mark_slot(i, m)) == spec_receiver_pos(s),
{
}

/// Effect of XOR-ing a slot transition into the status word.
proof fn lemma_status_xor(s: u64, i: u64, m: u64)
    by (bit_vector)
    requires
        i < 8,
        m <= 3,
    ensures
        forall|j: u64|
            j < 8 && j != i ==> #[trigger] spec_slot_status(s ^ spec_mark_slot(i, m), j)
                == spec_slot_status(s, j),
        spec_slot_status(s ^ spec_mark_slot(i, m), i) == spec_slot_status(s, i) ^ m,
        spec_receiver_pos(s ^ spec_mark_slot(i, m)) == spec_receiver_pos(s),
{
}

/// Effect of AND-ing the complement of a slot transition into the status
/// word: the slot's status bits are cleared of the mask's bits.
proof fn lemma_status_and_not(s: u64, i: u64, m: u64)
    by (bit_vector)
    requires
        i < 8,
        m <= 3,
    ensures
        forall|j: u64|
            j < 8 && j != i ==> #[trigger] spec_slot_status(s & !spec_mark_slot(i, m), j)
                == spec_slot_status(s, j),
        spec_slot_status(s & !spec_mark_slot(i, m), i) == spec_slot_status(s, i) & !m,
        spec_receiver_pos(s & !spec_mark_slot(i, m)) == spec_receiver_pos(s),
{
}

/// Effect of the wrapping add that advances the receiver position: the slot
/// statuses are untouched and the position increments modulo `SMALL_CAP`.
/// `s2` is the wrapped sum of `s` and `MARK_NEXT_POS`.
proof fn lemma_status_next_pos(s: u64, s2: u64)
    by (bit_vector)
    requires
        s + MARK_NEXT_POS <= 0xffff_ffff_ffff_ffff ==> s2 == s + MARK_NEXT_POS,
        s + MARK_NEXT_POS > 0xffff_ffff_ffff_ffff ==> s2 == s + MARK_NEXT_POS
            - 0x1_0000_0000_0000_0000,
    ensures
        forall|j: u64| j < 8 ==> #[trigger] spec_slot_status(s2, j) == spec_slot_status(s, j),
        spec_receiver_pos(s2) == if spec_receiver_pos(s) == 7 {
            0u64
        } else {
            (spec_receiver_pos(s) + 1) as u64
        },
{
}

/// The values of the slot-status transitions: OR-ing `MARK_TAKEN` into an
/// empty slot takes it, OR-ing `MARK_FILLED` into a taken slot fills it,
/// XOR-ing `MARK_READING` into a filled slot moves it to reading, and
/// clearing `MARK_EMPTIED` empties it again.
proof fn lemma_transition_values()
    by (bit_vector)
    ensures
        EMPTY | MARK_TAKEN == TAKEN,
        TAKEN | MARK_FILLED == FILLED,
        FILLED ^ MARK_READING == READING,
        READING & !MARK_EMPTIED == EMPTY,
        FILLED & !MARK_EMPTIED == EMPTY,
{
}

/// The reference count of a fresh channel: one sender and the receiver.
proof fn lemma_rc_new()
    by (bit_vector)
    ensures
        spec_sender_count(RECEIVER_ALIVE | 1) == 1,
        spec_receiver_alive(RECEIVER_ALIVE | 1),
        !spec_manager_alive(RECEIVER_ALIVE | 1),
{
}

/// Setting the receiver-alive bit changes nothing else, and changes nothing
/// at all when it was already set.
proof fn lemma_rc_set_receiver(rc: u64)
    by (bit_vector)
    ensures
        spec_sender_count(rc | RECEIVER_ALIVE) == spec_sender_count(rc),
        spec_receiver_alive(rc | RECEIVER_ALIVE),
        spec_manager_alive(rc | RECEIVER_ALIVE) == spec_manager_alive(rc),
        spec_receiver_alive(rc) ==> rc | RECEIVER_ALIVE == rc,
{
}

/// Setting the manager-alive bit changes nothing else.
proof fn lemma_rc_set_manager(rc: u64)
    by (bit_vector)
    ensures
        spec_sender_count(rc | MANAGER_ALIVE) == spec_sender_count(rc),
        spec_receiver_alive(rc | MANAGER_ALIVE) == spec_receiver_alive(rc),
        spec_manager_alive(rc | MANAGER_ALIVE),
{
}

/// Clearing the receiver-alive bit changes nothing else.
proof fn lemma_rc_clear_receiver(rc: u64)
    by (bit_vector)
    ensures
        spec_sender_count(rc & !RECEIVER_ALIVE) == spec_sender_count(rc),
        !spec_receiver_alive(rc & !RECEIVER_ALIVE),
        spec_manager_alive(rc & !RECEIVER_ALIVE) == spec_manager_alive(rc),
{
}

/// Clearing the manager-alive bit changes nothing else.
proof fn lemma_rc_clear_manager(rc: u64)
    by (bit_vector)
    ensures
        spec_sender_count(rc & !MANAGER_ALIVE) == spec_sender_count(rc),
        spec_receiver_alive(rc & !MANAGER_ALIVE) == spec_receiver_alive(rc),
        !spec_manager_alive(rc & !MANAGER_ALIVE),
{
}

/// Incrementing the reference count adds one sender and keeps the liveness
/// bits, while the sender count stays below its cap.
proof fn lemma_rc_inc(rc: u64)
    by (bit_vector)
    requires
        spec_sender_count(rc) < MAX_SENDERS - 1,
    ensures
        rc < 0xffff_ffff_ffff_ffff,
        spec_sender_count((rc + 1) as u64) == spec_sender_count(rc) + 1,
        spec_receiver_alive((rc + 1) as u64) == spec_receiver_alive(rc),
        spec_manager_alive((rc + 1) as u64) == spec_manager_alive(rc),
{
}

/// Decrementing the reference count removes one sender and keeps the
/// liveness bits.
proof fn lemma_rc_dec(rc: u64)
    by (bit_vector)
    requires
        1 <= spec_sender_count(rc),
        spec_sender_count(rc) < MAX_SENDERS,
    ensures
        rc >= 1,
        spec_sender_count((rc - 1) as u64) == spec_sender_count(rc) - 1,
        spec_receiver_alive((rc - 1) as u64) == spec_receiver_alive(rc),
        spec_manager_alive((rc - 1) as u64) == spec_manager_alive(rc),
{
}

/// The combined liveness test used by the senders: at least one of the two
/// liveness bits is set.
proof fn lemma_rc_any_alive(rc: u64)
    by (bit_vector)
    ensures
        (rc & ALIVE_MASK != 0) == (spec_receiver_alive(rc) || spec_manager_alive(rc)),
{
}

/// Returns `true` if `slot` in `status` is empty.
#[inline(always)]
pub fn is_available(status: u64, slot: u64) -> (r: bool)
    requires
        slot < 8,
    ensures
        r == (spec_slot_status(status, slot) == EMPTY),
{
    has_status(status, slot, EMPTY)
}

/// Returns `true` if `slot` in `status` is filled.
#[inline(always)]
pub fn is_filled(status: u64, slot: u64) -> (r: bool)
    requires
        slot < 8,
    ensures
        r == (spec_slot_status(status, slot) == FILLED),
{
    has_status(status, slot, FILLED)
}

/// Returns `true` if `slot` (in `status`) equals the `expected` status.
#[inline(always)]
pub fn has_status(status: u64, slot: u64, expected: u64) -> (r: bool)
    requires
        slot < 8,
    ensures
        r == (spec_slot_status(status, slot) == expected),
{
    slot_status(status, slot) == expected
}

/// Returns the `STATUS_BITS` of `slot` in `status`.
#[inline(always)]
pub fn slot_status(status: u64, slot: u64) -> (r: u64)
    requires
        slot < 8,
    ensures
        r == spec_slot_status(status, slot),
{
    (status >> (STATUS_BITS * slot)) & STATUS_MASK
}

/// Creates a mask to transition `slot` using `transition`. `transition` must
/// be one of the `MARK_*` constants.
#[inline(always)]
pub fn mark_slot(slot: u64, transition: u64) -> (r: u64)
    requires
        slot < 8,
        transition <= 3,
    ensures
        r == spec_mark_slot(slot, transition),
{
    transition << (STATUS_BITS * slot)
}

/// Returns the position of the receiver in `status`.
#[inline(always)]
pub fn receiver_pos(status: u64) -> (r: u64)
    ensures
        r == spec_receiver_pos(status),
        r < 8,
{
    proof {
        lemma_pos_bound(status);
    }
    (status >> POS_SHIFT) & POS_MASK
}

/// Returns a string name for the `slot_status`.
pub fn dbg_status(slot_status: u64) -> (r: &'static str)
    ensures
        slot_status == EMPTY ==> r@ == "EMPTY"@,
        slot_status == TAKEN ==> r@ == "TAKEN"@,
        slot_status == FILLED ==> r@ == "FILLED"@,
        slot_status == READING ==> r@ == "READING"@,
        slot_status > 3 ==> r@ == "INVALID"@,
{
    if slot_status == EMPTY {
        "EMPTY"
    } else if slot_status == TAKEN {
        "TAKEN"
    } else if slot_status == FILLED {
        "FILLED"
    } else if slot_status == READING {
        "READING"
    } else {
        "INVALID"
    }
}

/// Error returned in case sending a value across the channel fails. See
/// [`Sender::try_send`].
#[derive(Copy, Clone, Debug, Eq, PartialEq)]
pub enum SendError<T> {
    /// Channel is full.
    Full(T),
    /// [`Receiver`] and [`Manager`] are disconnected.
    Disconnected(T),
}

/// Error returned in case receiving a value from the channel fails. See
/// [`Receiver::try_recv`].
#[derive(Copy, Clone, Debug, Eq, PartialEq, Structural)]
pub enum RecvError {
    /// Channel is empty.
    Empty,
    /// All [`Sender`]s (but not necessarily the [`Manager`]) are disconnected
    /// and the channel is empty.
    Disconnected,
}

/// Error returned by [`Manager::new_receiver`] if a receiver is already
/// connected.
#[derive(Copy, Clone, Debug, Eq, PartialEq, Structural)]
pub struct ReceiverConnected;

/// One entry of the list of parked sender wakers: the waker of one pending
/// send, under the node id it was registered with.
#[derive(Copy, Clone, Debug, PartialEq, Eq)]
pub struct WakerNode {
    /// Identifies the registration, so that a cancelled send removes its own
    /// node and no other.
    pub node_id: u64,
    /// The waker to wake once a slot opens up; `None` once taken out.
    pub waker: Option<Waker>,
}

/// Sending side of the channel: a token presented to [`Channel`] operations.
#[derive(Debug)]
pub struct Sender<T> {
    key: u64,
    message_type: PhantomData<T>,
}

/// Receiving side of the channel: a token presented to [`Channel`]
/// operations.
#[derive(Debug)]
pub struct Receiver<T> {
    key: u64,
    message_type: PhantomData<T>,
}

/// Manager of a channel.
///
/// A channel manager keeps the channel connected without being able to send
/// or receive, so that a new [`Receiver`] can be created after the previous
/// one was disconnected (for example to restart an actor), ensuring a single
/// `Receiver` is alive at any given time.
#[derive(Debug)]
pub struct Manager<T> {
    key: u64,
    message_type: PhantomData<T>,
}

/// The abstract state of a channel: what the packed words and the waker
/// bookkeeping of [`Channel`] mean.
#[verifier::ext_equal]
pub struct ChannelView<T> {
    /// The key the channel and its handle tokens were created with.
    pub key: u64,
    /// The receiver's position: the slot the next receive starts scanning at.
    pub cursor: u64,
    /// The slots; `None` is an empty slot, `Some` a filled one.
    pub slots: Seq<Option<T>>,
    /// How many senders are alive.
    pub senders: u64,
    /// Whether the receiver is alive.
    pub receiver: bool,
    /// Whether the manager is alive.
    pub manager: bool,
    /// The parked sender wakers, oldest first.
    pub pending: Seq<WakerNode>,
    /// The node id the next parked sender will be registered under.
    pub next_node: u64,
    /// The receiver's waker, if it registered one.
    pub rx_waker: Option<Waker>,
    /// Whether the receiver asked to be woken on the next send.
    pub rx_need_wake: bool,
    /// The wake-ups the channel has issued and the runtime has not drained,
    /// oldest first.
    pub woken: Seq<Waker>,
}

/// Channel internals: the slots, the packed status and reference-count
/// words, and the waker bookkeeping.
pub struct Channel<T> {
    key: u64,
    /// Status of the slots and, above [`POS_SHIFT`], the receiver position.
    status: u64,
    /// The slots in the channel; see `status` for which are in use.
    slots: Vec<Option<T>>,
    /// The number of senders alive, plus the [`RECEIVER_ALIVE`] and
    /// [`MANAGER_ALIVE`] bits.
    ref_count: u64,
    /// The parked sender wakers, oldest first.
    sender_wakers: Vec<WakerNode>,
    /// The node id of the next parked sender.
    next_node_id: u64,
    /// Waker to wake the receiver.
    receiver_waker: Option<Waker>,
    /// `true` if the receiver must be woken after a send.
    receiver_needs_wakeup: bool,
    /// Wake-ups issued and not yet drained by the runtime, oldest first.
    woken: Vec<Waker>,
}

/// The parked-waker list is well formed: node ids strictly increase along
/// the list and stay below the next free id.
pub open spec fn pending_wf(pending: Seq<WakerNode>, next_node: u64) -> bool {
    &&& forall|i: int, j: int|
        0 <= i < j < pending.len() ==> #[trigger] pending[i].node_id < #[trigger] pending[j].node_id
    &&& forall|i: int| 0 <= i < pending.len() ==> #[trigger] pending[i].node_id < next_node
}

impl<T> ChannelView<T> {
    /// The view is well formed.
    pub open spec fn wf(self) -> bool {
        &&& self.slots.len() == 8
        &&& self.cursor < 8
        &&& self.senders < MAX_SENDERS
        &&& pending_wf(self.pending, self.next_node)
    }

    /// Whether a sender is connected to a receiver or a manager.
    pub open spec fn connected(self) -> bool {
        self.receiver || self.manager
    }
}

impl<T> View for Channel<T> {
    type V = ChannelView<T>;

    closed spec fn view(&self) -> ChannelView<T> {
        ChannelView {
            key: self.key,
            cursor: spec_receiver_pos(self.status),
            slots: self.slots@,
            senders: spec_sender_count(self.ref_count),
            receiver: spec_receiver_alive(self.ref_count),
            manager: spec_manager_alive(self.ref_count),
            pending: self.sender_wakers@,
            next_node: self.next_node_id,
            rx_waker: self.receiver_waker,
            rx_need_wake: self.receiver_needs_wakeup,
            woken: self.woken@,
        }
    }
}

impl<T> Sender<T> {
    /// The key of the channel this token belongs to.
    pub closed spec fn chan_key(&self) -> u64 {
        self.key
    }
}

impl<T> Receiver<T> {
    /// The key of the channel this token belongs to.
    pub closed spec fn chan_key(&self) -> u64 {
        self.key
    }
}

impl<T> Manager<T> {
    /// The key of the channel this token belongs to.
    pub closed spec fn chan_key(&self) -> u64 {
        self.key
    }
}

impl<T> Channel<T> {
    /// The channel is well formed: its view is (see [`ChannelView::wf`]) and
    /// the packed representation agrees with it (see [`Self::wf_repr`]).
    pub open spec fn wf(&self) -> bool {
        &&& self@.wf()
        &&& self.wf_repr()
    }

    /// The packed status word is at rest and agrees with the slots: every
    /// slot is `EMPTY` or `FILLED`, and a slot holds a value exactly when
    /// its status says `FILLED`.
    pub closed spec fn wf_repr(&self) -> bool {
        &&& forall|j: u64|
            j < 8 ==> #[trigger] spec_slot_status(self.status, j) == EMPTY || spec_slot_status(
                self.status,
                j,
            ) == FILLED
        &&& forall|j: u64|
            j < 8 ==> ((#[trigger] spec_slot_status(self.status, j) == FILLED) <==> self.slots@[j
                as int] is Some)
    }

    /// Returns the capacity of the channel.
    pub fn capacity(&self) -> (r: usize)
        ensures
            r == SMALL_CAP,
    {
        SMALL_CAP
    }

    /// The wake-ups the channel has issued and the runtime has not yet
    /// drained, oldest first.
    pub fn woken(&self) -> (r: &Vec<Waker>)
        ensures
            r@ == self@.woken,
    {
        &self.woken
    }

    /// Deliver the wake-ups the channel has issued into the wake-up event
    /// queue, oldest first: each woken waker sends its process id.
    pub fn drain_wakeups(&mut self, events: &mut WakerEvents)
        ensures
            final(self).wf() == old(self).wf(),
            final(self)@ == (ChannelView { woken: Seq::empty(), ..old(self)@ }),
            waker_events_view(*final(events)) == waker_events_view(*old(events)) + old(
                self,
            )@.woken.map_values(|w: Waker| w.pid.0),
    {
        let ghost pre = self.woken@;
        let mut k: usize = 0;
        while k < self.woken.len()
            invariant
                *self == *old(self),
                pre == self.woken@,
                k <= self.woken.len(),
                waker_events_view(*events) == waker_events_view(*old(events)) + pre.take(
                    k as int,
                ).map_values(|w: Waker| w.pid.0),
            decreases self.woken.len() - k,
        {
            let waker = self.woken[k];
            waker.wake(events);
            k = k + 1;
            proof {
                assert(waker == pre[k as int - 1]);
                assert(pre.take(k as int) =~= pre.take(k as int - 1).push(pre[k as int - 1]));
                assert(pre.take(k as int).map_values(|w: Waker| w.pid.0) =~= pre.take(
                    k as int - 1,
                ).map_values(|w: Waker| w.pid.0).push(waker.pid.0));
            }
        }
        self.woken.clear();
        proof {
            assert(pre.take(pre.len() as int) =~= pre);
            assert(self@ =~= (ChannelView { woken: Seq::<Waker>::empty(), ..old(self)@ }));
        }
    }
}

/// Create a small bounded channel, under key 0.
pub fn new_small<T>() -> (r: (Sender<T>, Receiver<T>, Channel<T>))
    ensures
        r.2.wf(),
        r.0.chan_key() == 0 && r.1.chan_key() == 0,
        r.2@ == fresh_view::<T>(0),
{
    new_small_with_key(0)
}

/// The state of a freshly created channel under `key`: all slots empty, the
/// cursor at slot 0, one sender and the receiver alive, and no wakers.
pub open spec fn fresh_view<T>(key: u64) -> ChannelView<T> {
    ChannelView {
        key,
        cursor: 0,
        slots: Seq::new(8, |i: int| None),
        senders: 1,
        receiver: true,
        manager: false,
        pending: Seq::empty(),
        next_node: 0,
        rx_waker: None,
        rx_need_wake: false,
        woken: Seq::empty(),
    }
}

/// Create a small bounded channel under `key`.
///
/// The key only gives the channel and its handle tokens an identity, so that
/// [`Sender::same_channel`] and [`Sender::sends_to`] can tell channels
/// apart; use distinct keys for distinct channels.
pub fn new_small_with_key<T>(key: u64) -> (r: (Sender<T>, Receiver<T>, Channel<T>))
    ensures
        r.2.wf(),
        r.0.chan_key() == key && r.1.chan_key() == key,
        r.2@ == fresh_view::<T>(key),
{
    let mut slots: Vec<Option<T>> = Vec::new();
    slots.push(None);
    slots.push(None);
    slots.push(None);
    slots.push(None);
    slots.push(None);
    slots.push(None);
    slots.push(None);
    slots.push(None);
    let channel = Channel {
        key,
        status: 0,
        slots,
        ref_count: RECEIVER_ALIVE | 1,
        sender_wakers: Vec::new(),
        next_node_id: 0,
        receiver_waker: None,
        receiver_needs_wakeup: false,
        woken: Vec::new(),
    };
    proof {
        lemma_status_zero();
        lemma_rc_new();
        assert(channel@.slots =~= fresh_view::<T>(key).slots);
        assert(channel@.pending =~= fresh_view::<T>(key).pending);
        assert(channel@.woken =~= fresh_view::<T>(key).woken);
        assert(channel@ =~= fresh_view::<T>(key));
    }
    (Sender { key, message_type: PhantomData }, Receiver { key, message_type: PhantomData }, channel)
}

/// The first slot, scanning `SMALL_CAP` slots in cursor order from `start`
/// beginning at offset `k`, whose fill state equals `filled`.
pub open spec fn spec_scan<T>(slots: Seq<Option<T>>, start: u64, k: int, filled: bool) -> Option<
    u64,
>
    decreases 8 - k,
{
    if k < 0 || k >= 8 {
        None
    } else {
        let idx = (start + k) % 8;
        if (slots[idx] is Some) == filled {
            Some(idx as u64)
        } else {
            spec_scan(slots, start, k + 1, filled)
        }
    }
}

/// A scan finds the first matching offset: if the slots at offsets `m..k`
/// from `start` do not match and the slot at offset `k` does, the scan from
/// offset `m` stops at offset `k`.
pub proof fn lemma_scan_found<T>(slots: Seq<Option<T>>, start: u64, m: int, k: int, filled: bool)
    requires
        slots.len() == 8,
        0 <= m <= k < 8,
        forall|n: int| m <= n < k ==> ((#[trigger] slots[(start + n) % 8] is Some) != filled),
        (slots[(start + k) % 8] is Some) == filled,
    ensures
        spec_scan(slots, start, m, filled) == Some((((start + k) % 8) as u64)),
    decreases k - m,
{
    if m < k {
        assert((slots[(start + m) % 8] is Some) != filled);
        lemma_scan_found(slots, start, m + 1, k, filled);
    }
}

/// A scan on which no slot matches from offset `m` on returns nothing.
pub proof fn lemma_scan_none<T>(slots: Seq<Option<T>>, start: u64, m: int, filled: bool)
    requires
        slots.len() == 8,
        0 <= m <= 8,
        forall|n: int| m <= n < 8 ==> ((#[trigger] slots[(start + n) % 8] is Some) != filled),
    ensures
        spec_scan(slots, start, m, filled) is None,
    decreases 8 - m,
{
    if m < 8 {
        assert((slots[(start + m) % 8] is Some) != filled);
        lemma_scan_none(slots, start, m + 1, filled);
    }
}

impl<T> ChannelView<T> {
    /// The slot the next send claims: the first empty slot at or after the
    /// cursor, in cursor order.
    pub open spec fn find_empty(self) -> Option<u64> {
        spec_scan(self.slots, self.cursor, 0, false)
    }

    /// The slot the next receive takes: the first filled slot at or after
    /// the cursor, in cursor order.
    pub open spec fn find_filled(self) -> Option<u64> {
        spec_scan(self.slots, self.cursor, 0, true)
    }

    /// Effect of waking the receiver: if it asked for a wake-up, the request
    /// is consumed and its waker (if one is registered) is woken.
    pub open spec fn wake_receiver_post(self) -> ChannelView<T> {
        if self.rx_need_wake {
            match self.rx_waker {
                Some(w) => ChannelView { rx_need_wake: false, woken: self.woken.push(w), ..self },
                None => ChannelView { rx_need_wake: false, ..self },
            }
        } else {
            self
        }
    }

    /// What `try_send` returns: `Disconnected` when neither the receiver nor
    /// the manager is alive, `Full` when no slot is empty, `Ok` otherwise.
    pub open spec fn send_result(self, value: T) -> Result<(), SendError<T>> {
        if !self.connected() {
            Err(SendError::Disconnected(value))
        } else if self.find_empty() is Some {
            Ok(())
        } else {
            Err(SendError::Full(value))
        }
    }

    /// The channel state after `try_send`: on success the found slot is
    /// filled with the value, and the receiver is woken if the cursor points
    /// at that very slot; otherwise the state is unchanged.
    pub open spec fn send_post(self, value: T) -> ChannelView<T> {
        if !self.connected() {
            self
        } else {
            match self.find_empty() {
                Some(slot) => {
                    let filled = ChannelView {
                        slots: self.slots.update(slot as int, Some(value)),
                        ..self
                    };
                    if self.cursor == slot {
                        filled.wake_receiver_post()
                    } else {
                        filled
                    }
                },
                None => self,
            }
        }
    }
}

impl<T> Channel<T> {
    /// Wake the receiver, if it asked for a wake-up.
    fn wake_receiver(&mut self)
        ensures
            final(self)@ == old(self)@.wake_receiver_post(),
            final(self).wf() == old(self).wf(),
    {
        if !self.receiver_needs_wakeup {
            return ;
        }
        self.receiver_needs_wakeup = false;
        if let Some(waker) = self.receiver_waker {
            self.woken.push(waker);
        }
        proof {
            assert(self@ =~= old(self)@.wake_receiver_post());
        }
    }
}

impl<T> Sender<T> {
    /// Returns `true` if the [`Receiver`] or the [`Manager`] is connected.
    ///
    /// Unlike [`Receiver::is_connected`] this takes the manager into
    /// account, to support the use case in which an actor is restarted and a
    /// new receiver is created for its inbox.
    pub fn is_connected(&self, chan: &Channel<T>) -> (r: bool)
        ensures
            r == chan@.connected(),
    {
        proof {
            lemma_rc_any_alive(chan.ref_count);
        }
        chan.ref_count & ALIVE_MASK != 0
    }

    /// Returns `true` if the [`Manager`] is connected.
    pub fn has_manager(&self, chan: &Channel<T>) -> (r: bool)
        ensures
            r == chan@.manager,
    {
        chan.ref_count & MANAGER_ALIVE != 0
    }

    /// Returns the capacity of the channel.
    pub fn capacity(&self) -> (r: usize)
        ensures
            r == SMALL_CAP,
    {
        SMALL_CAP
    }

    /// Returns `true` if `self` and `other` send into the same channel.
    pub fn same_channel(&self, other: &Sender<T>) -> (r: bool)
        ensures
            r == (self.chan_key() == other.chan_key()),
    {
        self.key == other.key
    }

    /// Returns `true` if this sender sends to the `receiver`.
    pub fn sends_to(&self, receiver: &Receiver<T>) -> (r: bool)
        ensures
            r == (self.chan_key() == receiver.chan_key()),
    {
        self.key == receiver.key
    }

    /// Create another sender for the same channel.
    ///
    /// At most [`MAX_SENDERS`] senders may be alive at once.
    pub fn clone_sender(&self, chan: &mut Channel<T>) -> (r: Sender<T>)
        requires
            old(chan).wf(),
            self.chan_key() == old(chan)@.key,
            old(chan)@.senders < MAX_SENDERS - 1,
        ensures
            final(chan).wf(),
            r.chan_key() == self.chan_key(),
            final(chan)@ == (ChannelView { senders: (old(chan)@.senders + 1) as u64, ..old(chan)@ }),
    {
        proof {
            lemma_rc_inc(chan.ref_count);
        }
        chan.ref_count = chan.ref_count + 1;
        proof {
            assert(chan@ =~= (ChannelView {
                senders: (old(chan)@.senders + 1) as u64,
                ..old(chan)@
            }));
        }
        Sender { key: self.key, message_type: PhantomData }
    }

    /// Attempts to send the `value` into the channel.
    ///
    /// Fails with `Disconnected` exactly when both the receiver and the
    /// manager are gone, and with `Full` exactly when no slot is empty; in
    /// both cases the value is handed back and the channel is unchanged.
    pub fn try_send(&self, chan: &mut Channel<T>, value: T) -> (r: Result<(), SendError<T>>)
        requires
            old(chan).wf(),
            self.chan_key() == old(chan)@.key,
        ensures
            final(chan).wf(),
            r == old(chan)@.send_result(value),
            final(chan)@ == old(chan)@.send_post(value),
    {
        if !self.is_connected(chan) {
            return Err(SendError::Disconnected(value));
        }
        let ghost pre = *chan;
        let status = chan.status;
        let start = receiver_pos(status);
        let mut k: u64 = 0;
        let mut found: Option<u64> = None;
        while k < 8 && found.is_none()
            invariant
                *chan == pre,
                chan.wf(),
                status == chan.status,
                start == chan@.cursor,
                k <= 8,
                found is None ==> forall|n: int|
                    0 <= n < k ==> (#[trigger] chan@.slots[(start + n) % 8] is Some),
                found matches Some(slot) ==> k < 8 && slot == ((start + k as int) % 8) as u64
                    && chan@.slots[slot as int] is None && (forall|n: int|
                    0 <= n < k ==> (#[trigger] chan@.slots[(start + n) % 8] is Some)),
            decreases 8 - k + (if found is None { 1int } else { 0int }),
        {
            let slot = (start + k) % 8;
            if is_available(chan.status, slot) {
                found = Some(slot);
            } else {
                k = k + 1;
            }
        }
        match found {
            Some(slot) => {
                proof {
                    lemma_scan_found(chan@.slots, start, 0, k as int, false);
                }
                // Claim the slot: EMPTY -> TAKEN. With concurrent senders
                // this transition is what resolves races on the slot; at
                // rest it simply reserves the slot for the write below.
                let old_status = chan.status;
                chan.status = chan.status | mark_slot(slot, MARK_TAKEN);
                proof {
                    lemma_status_or(old_status, slot, MARK_TAKEN);
                    lemma_transition_values();
                    assert(spec_slot_status(chan.status, slot) == TAKEN);
                }
                // Write the value into the acquired slot.
                chan.slots.set(slot as usize, Some(value));
                // Mark the slot as filled: TAKEN -> FILLED.
                let fill_status = chan.status;
                chan.status = chan.status | mark_slot(slot, MARK_FILLED);
                proof {
                    lemma_status_or(fill_status, slot, MARK_FILLED);
                    assert(spec_slot_status(chan.status, slot) == FILLED);
                    assert(forall|j: u64|
                        j < 8 && j != slot ==> #[trigger] spec_slot_status(chan.status, j)
                            == spec_slot_status(pre.status, j));
                    assert(chan.wf());
                }
                // If the receiver waits for this very slot, wake it.
                if receiver_pos(fill_status) == slot {
                    chan.wake_receiver();
                    proof {
                        assert(chan@ =~= pre@.send_post(value));
                    }
                } else {
                    proof {
                        assert(chan@ =~= pre@.send_post(value));
                    }
                }
                Ok(())
            },
            None => {
                proof {
                    lemma_scan_none(chan@.slots, start, 0, false);
                }
                Err(SendError::Full(value))
            },
        }
    }
}

/// What popping one parked sender waker yields: the wakerless nodes at the
/// front (left behind by cancelled sends) are discarded, and the first node
/// that still has a waker is popped and its waker returned.
pub open spec fn spec_pop_waker(pending: Seq<WakerNode>) -> (Option<Waker>, Seq<WakerNode>)
    decreases pending.len(),
{
    if pending.len() == 0 {
        (None, pending)
    } else {
        match pending[0].waker {
            Some(w) => (Some(w), pending.drop_first()),
            None => spec_pop_waker(pending.drop_first()),
        }
    }
}

/// Popping a parked waker keeps the waker list well formed: the remaining
/// list is a suffix of the original.
pub proof fn lemma_pop_waker_wf(pending: Seq<WakerNode>, next_node: u64)
    requires
        pending_wf(pending, next_node),
    ensures
        pending_wf(spec_pop_waker(pending).1, next_node),
    decreases pending.len(),
{
    if pending.len() > 0 {
        assert(pending_wf(pending.drop_first(), next_node));
        if pending[0].waker is None {
            lemma_pop_waker_wf(pending.drop_first(), next_node);
        }
    }
}

impl<T> ChannelView<T> {
    /// The cursor after one receive attempt: one further, modulo the
    /// capacity.
    pub open spec fn step_cursor(self) -> ChannelView<T> {
        ChannelView {
            cursor: if self.cursor == 7 {
                0u64
            } else {
                (self.cursor + 1) as u64
            },
            ..self
        }
    }

    /// Effect of waking one parked sender, if any: see [`spec_pop_waker`].
    pub open spec fn pop_pending_post(self) -> ChannelView<T> {
        let popped = spec_pop_waker(self.pending);
        match popped.0 {
            Some(w) => ChannelView { pending: popped.1, woken: self.woken.push(w), ..self },
            None => ChannelView { pending: popped.1, ..self },
        }
    }

    /// What `try_recv` returns: the value of the first filled slot in cursor
    /// order, or `Disconnected` exactly when no slot is filled and no sender
    /// was alive before the scan, or `Empty` when no slot is filled but a
    /// sender is still alive.
    pub open spec fn recv_result(self) -> Result<T, RecvError> {
        match self.find_filled() {
            Some(slot) => Ok(self.slots[slot as int]->Some_0),
            None => if self.senders == 0 {
                Err(RecvError::Disconnected)
            } else {
                Err(RecvError::Empty)
            },
        }
    }

    /// The channel state after `try_recv`: the cursor advances on every
    /// attempt, also a failed one; on success the found slot is emptied and
    /// one parked sender is woken.
    pub open spec fn recv_post(self) -> ChannelView<T> {
        let stepped = self.step_cursor();
        match self.find_filled() {
            Some(slot) => (ChannelView {
                slots: stepped.slots.update(slot as int, None),
                ..stepped
            }).pop_pending_post(),
            None => stepped,
        }
    }

    /// Whether registering `waker` for the receiver changes anything: it
    /// does unless the same waker is registered already.
    pub open spec fn set_rx_waker_changed(self, waker: Waker) -> bool {
        !(self.rx_waker is Some && self.rx_waker->Some_0 == waker)
    }

    /// Effect of registering `waker` for the receiver: unless the same waker
    /// is registered already, it is stored and a wake-up is requested.
    pub open spec fn set_rx_waker_post(self, waker: Waker) -> ChannelView<T> {
        if self.set_rx_waker_changed(waker) {
            ChannelView { rx_waker: Some(waker), rx_need_wake: true, ..self }
        } else {
            self
        }
    }

    /// Effect of disconnecting a sender: the last sender wakes the receiver
    /// on its way out, so that it can observe the disconnect.
    pub open spec fn drop_sender_post(self) -> ChannelView<T> {
        let woke = if self.senders == 1 {
            self.wake_receiver_post()
        } else {
            self
        };
        ChannelView { senders: (woke.senders - 1) as u64, ..woke }
    }
}

impl<T> Channel<T> {
    /// Returns the next parked sender waker to wake, if any, discarding
    /// nodes whose waker was already taken by a cancelled send.
    fn next_waker(&mut self) -> (r: Option<Waker>)
        requires
            old(self).wf(),
        ensures
            final(self).wf(),
            r == spec_pop_waker(old(self)@.pending).0,
            final(self)@ == (ChannelView { pending: spec_pop_waker(old(self)@.pending).1, ..old(
                self,
            )@ }),
    {
        proof {
            lemma_pop_waker_wf(self.sender_wakers@, self.next_node_id);
        }
        loop
            invariant
                self.wf(),
                spec_pop_waker(self.sender_wakers@) == spec_pop_waker(old(self)@.pending),
                self@ == (ChannelView { pending: self.sender_wakers@, ..old(self)@ }),
                pending_wf(spec_pop_waker(self.sender_wakers@).1, self.next_node_id),
            decreases self.sender_wakers.len(),
        {
            if self.sender_wakers.len() == 0 {
                return None;
            }
            let node = self.sender_wakers.remove(0);
            match node.waker {
                Some(waker) => {
                    return Some(waker);
                },
                None => {},
            }
        }
    }

    /// Set the receiver waker to `waker`, if it differs from the one
    /// registered. Returns `true` if the waker changed.
    fn set_waker(&mut self, waker: Waker) -> (r: bool)
        ensures
            r == old(self)@.set_rx_waker_changed(waker),
            final(self)@ == old(self)@.set_rx_waker_post(waker),
            final(self).wf() == old(self).wf(),
    {
        if let Some(existing) = self.receiver_waker {
            if existing.will_wake(&waker) {
                return false;
            }
        }
        self.receiver_waker = Some(waker);
        self.receiver_needs_wakeup = true;
        true
    }
}

impl<T> Receiver<T> {
    /// Returns `true` if a [`Sender`] is connected. The [`Manager`] does not
    /// count: it can create a new sender later, so this may turn from
    /// `false` back to `true`.
    pub fn is_connected(&self, chan: &Channel<T>) -> (r: bool)
        ensures
            r == (chan@.senders > 0),
    {
        chan.ref_count & !ALIVE_MASK > 0
    }

    /// Returns `true` if the [`Manager`] is connected.
    pub fn has_manager(&self, chan: &Channel<T>) -> (r: bool)
        ensures
            r == chan@.manager,
    {
        chan.ref_count & MANAGER_ALIVE != 0
    }

    /// Returns the capacity of the channel.
    pub fn capacity(&self) -> (r: usize)
        ensures
            r == SMALL_CAP,
    {
        SMALL_CAP
    }

    /// Create a new [`Sender`] that sends to this channel.
    ///
    /// At most [`MAX_SENDERS`] senders may be alive at once.
    pub fn new_sender(&self, chan: &mut Channel<T>) -> (r: Sender<T>)
        requires
            old(chan).wf(),
            self.chan_key() == old(chan)@.key,
            old(chan)@.senders < MAX_SENDERS - 1,
        ensures
            final(chan).wf(),
            r.chan_key() == self.chan_key(),
            final(chan)@ == (ChannelView { senders: (old(chan)@.senders + 1) as u64, ..old(chan)@ }),
    {
        proof {
            lemma_rc_inc(chan.ref_count);
        }
        chan.ref_count = chan.ref_count + 1;
        proof {
            assert(chan@ =~= (ChannelView {
                senders: (old(chan)@.senders + 1) as u64,
                ..old(chan)@
            }));
        }
        Sender { key: self.key, message_type: PhantomData }
    }

    /// Attempts to receive a value from this channel.
    ///
    /// Succeeds exactly when a slot is filled; fails with `Disconnected`
    /// exactly when no slot is filled and all senders are gone, and with
    /// `Empty` otherwise. Every attempt advances the receiver's cursor by
    /// one slot, which is what makes the channel only best-effort FIFO.
    pub fn try_recv(&self, chan: &mut Channel<T>) -> (r: Result<T, RecvError>)
        requires
            old(chan).wf(),
            self.chan_key() == old(chan)@.key,
        ensures
            final(chan).wf(),
            r == old(chan)@.recv_result(),
            final(chan)@ == old(chan)@.recv_post(),
    {
        let ghost pre = *chan;
        // Connectivity is checked before the scan: were it checked after, a
        // value sent by a sender that disconnected in the meantime would be
        // reported as `Disconnected` and lost. Checking first errs towards
        // `Empty`, and the receive future re-checks after registering.
        let is_connected = self.is_connected(chan);
        // Advance the cursor; the scan starts at the old position. The add
        // wraps around harmlessly: the position is a fixed-width modulo
        // projection of the bits above the slot statuses.
        let status = chan.status;
        let next_status = status.wrapping_add(MARK_NEXT_POS);
        proof {
            lemma_status_next_pos(status, next_status);
        }
        chan.status = next_status;
        let start = receiver_pos(status);
        let ghost stepped = pre@.step_cursor();
        proof {
            assert(chan@ =~= stepped);
        }
        let mut k: u64 = 0;
        let mut found: Option<u64> = None;
        while k < 8 && found.is_none()
            invariant
                *chan == (Channel { status: next_status, ..pre }),
                chan.wf(),
                chan@ == stepped,
                start == pre@.cursor,
                start < 8,
                k <= 8,
                found is None ==> forall|n: int|
                    0 <= n < k ==> (#[trigger] chan@.slots[(start + n) % 8] is None),
                found matches Some(slot) ==> k < 8 && slot == ((start + k as int) % 8) as u64
                    && chan@.slots[slot as int] is Some && (forall|n: int|
                    0 <= n < k ==> (#[trigger] chan@.slots[(start + n) % 8] is None)),
            decreases 8 - k + (if found is None { 1int } else { 0int }),
        {
            let slot = (start + k) % 8;
            if is_filled(chan.status, slot) {
                found = Some(slot);
            } else {
                k = k + 1;
            }
        }
        match found {
            Some(slot) => {
                proof {
                    lemma_scan_found(pre@.slots, start, 0, k as int, true);
                    lemma_transition_values();
                }
                // Mark the slot as being read: FILLED -> READING. With
                // concurrent senders this transition is what makes the read
                // exclusive; at rest it reserves the slot for the take.
                let read_status = chan.status;
                chan.status = chan.status ^ mark_slot(slot, MARK_READING);
                proof {
                    lemma_status_xor(read_status, slot, MARK_READING);
                    assert(spec_slot_status(chan.status, slot) == READING);
                }
                // Take the value out of the slot.
                let value_opt = chan.slots.remove(slot as usize);
                chan.slots.insert(slot as usize, None);
                proof {
                    assert(chan.slots@ =~= pre@.slots.update(slot as int, None));
                }
                let value = value_opt.unwrap();
                // Mark the slot as empty again.
                let empty_status = chan.status;
                chan.status = chan.status & !mark_slot(slot, MARK_EMPTIED);
                proof {
                    lemma_status_and_not(empty_status, slot, MARK_EMPTIED);
                    assert(spec_slot_status(chan.status, slot) == EMPTY);
                    assert(forall|j: u64|
                        j < 8 && j != slot ==> #[trigger] spec_slot_status(chan.status, j)
                            == spec_slot_status(pre.status, j));
                    assert(chan.wf());
                }
                // A slot opened up: wake one parked sender, if any.
                let ghost before_pop = chan@;
                match chan.next_waker() {
                    Some(waker) => {
                        chan.woken.push(waker);
                        proof {
                            assert(chan@ =~= before_pop.pop_pending_post());
                        }
                    },
                    None => {
                        proof {
                            assert(chan@ =~= before_pop.pop_pending_post());
                        }
                    },
                }
                proof {
                    assert(chan@ =~= pre@.recv_post());
                }
                Ok(value)
            },
            None => {
                proof {
                    lemma_scan_none(pre@.slots, start, 0, true);
                }
                if !is_connected {
                    Err(RecvError::Disconnected)
                } else {
                    Err(RecvError::Empty)
                }
            },
        }
    }

    /// Disconnect the receiver, consuming its token.
    pub fn disconnect(self, chan: &mut Channel<T>)
        requires
            old(chan).wf(),
            self.chan_key() == old(chan)@.key,
        ensures
            final(chan).wf(),
            final(chan)@ == (ChannelView { receiver: false, ..old(chan)@ }),
    {
        proof {
            lemma_rc_clear_receiver(chan.ref_count);
        }
        chan.ref_count = chan.ref_count & !RECEIVER_ALIVE;
        proof {
            assert(chan@ =~= (ChannelView { receiver: false, ..old(chan)@ }));
        }
    }
}

impl<T> Sender<T> {
    /// Disconnect this sender, consuming its token. The last sender to go
    /// wakes the receiver, so that it can observe the disconnect.
    pub fn disconnect(self, chan: &mut Channel<T>)
        requires
            old(chan).wf(),
            self.chan_key() == old(chan)@.key,
            old(chan)@.senders >= 1,
        ensures
            final(chan).wf(),
            final(chan)@ == old(chan)@.drop_sender_post(),
    {
        if chan.ref_count & !ALIVE_MASK == 1 {
            chan.wake_receiver();
        }
        proof {
            lemma_rc_dec(chan.ref_count);
        }
        chan.ref_count = chan.ref_count - 1;
        proof {
            assert(chan@ =~= old(chan)@.drop_sender_post());
        }
    }
}

impl<T> Manager<T> {
    /// Create a small bounded channel with a `Manager`, under key 0.
    ///
    /// Same as [`new_small`] but with a `Manager`.
    pub fn new_small_channel() -> (r: (Manager<T>, Sender<T>, Receiver<T>, Channel<T>))
        ensures
            r.3.wf(),
            r.0.chan_key() == 0 && r.1.chan_key() == 0 && r.2.chan_key() == 0,
            r.3@ == (ChannelView { manager: true, ..fresh_view::<T>(0) }),
    {
        Manager::<T>::new_small_channel_with_key(0)
    }

    /// Create a small bounded channel with a `Manager`, under `key`.
    pub fn new_small_channel_with_key(key: u64) -> (r: (Manager<T>, Sender<T>, Receiver<T>, Channel<T>))
        ensures
            r.3.wf(),
            r.0.chan_key() == key && r.1.chan_key() == key && r.2.chan_key() == key,
            r.3@ == (ChannelView { manager: true, ..fresh_view::<T>(key) }),
    {
        let (sender, receiver, mut chan) = new_small_with_key(key);
        proof {
            lemma_rc_set_manager(chan.ref_count);
        }
        chan.ref_count = chan.ref_count | MANAGER_ALIVE;
        proof {
            assert(chan@ =~= (ChannelView { manager: true, ..fresh_view::<T>(key) }));
        }
        (Manager { key, message_type: PhantomData }, sender, receiver, chan)
    }

    /// Create a new [`Sender`].
    ///
    /// At most [`MAX_SENDERS`] senders may be alive at once.
    pub fn new_sender(&self, chan: &mut Channel<T>) -> (r: Sender<T>)
        requires
            old(chan).wf(),
            self.chan_key() == old(chan)@.key,
            old(chan)@.senders < MAX_SENDERS - 1,
        ensures
            final(chan).wf(),
            r.chan_key() == self.chan_key(),
            final(chan)@ == (ChannelView { senders: (old(chan)@.senders + 1) as u64, ..old(chan)@ }),
    {
        proof {
            lemma_rc_inc(chan.ref_count);
        }
        chan.ref_count = chan.ref_count + 1;
        proof {
            assert(chan@ =~= (ChannelView {
                senders: (old(chan)@.senders + 1) as u64,
                ..old(chan)@
            }));
        }
        Sender { key: self.key, message_type: PhantomData }
    }

    /// Attempt to create a new [`Receiver`].
    ///
    /// This fails exactly when a receiver is already alive.
    pub fn new_receiver(&self, chan: &mut Channel<T>) -> (r: Result<Receiver<T>, ReceiverConnected>)
        requires
            old(chan).wf(),
            self.chan_key() == old(chan)@.key,
        ensures
            final(chan).wf(),
            old(chan)@.receiver ==> r == Err::<Receiver<T>, ReceiverConnected>(ReceiverConnected)
                && final(chan)@ == old(chan)@,
            !old(chan)@.receiver ==> r is Ok && r->Ok_0.chan_key() == self.chan_key()
                && final(chan)@ == (ChannelView { receiver: true, ..old(chan)@ }),
    {
        let old_count = chan.ref_count;
        chan.ref_count = chan.ref_count | RECEIVER_ALIVE;
        proof {
            lemma_rc_set_receiver(old_count);
        }
        if old_count & RECEIVER_ALIVE == 0 {
            proof {
                assert(chan@ =~= (ChannelView { receiver: true, ..old(chan)@ }));
            }
            Ok(Receiver { key: self.key, message_type: PhantomData })
        } else {
            proof {
                assert(chan@ =~= old(chan)@);
            }
            Err(ReceiverConnected)
        }
    }

    /// Disconnect the manager, consuming its token.
    pub fn disconnect(self, chan: &mut Channel<T>)
        requires
            old(chan).wf(),
            self.chan_key() == old(chan)@.key,
        ensures
            final(chan).wf(),
            final(chan)@ == (ChannelView { manager: false, ..old(chan)@ }),
    {
        proof {
            lemma_rc_clear_manager(chan.ref_count);
        }
        chan.ref_count = chan.ref_count & !MANAGER_ALIVE;
        proof {
            assert(chan@ =~= (ChannelView { manager: false, ..old(chan)@ }));
        }
    }
}

/// The first index in `pending` of the node registered under `node_id`, if
/// any. With a well-formed list it is the only one.
pub open spec fn spec_find_node(pending: Seq<WakerNode>, node_id: u64) -> Option<int>
    decreases pending.len(),
{
    if pending.len() == 0 {
        None
    } else if pending[0].node_id == node_id {
        Some(0int)
    } else {
        match spec_find_node(pending.drop_first(), node_id) {
            Some(i) => Some(i + 1),
            None => None,
        }
    }
}

/// Where `spec_find_node` finds an index, it is in range and exact.
proof fn lemma_find_node(pending: Seq<WakerNode>, node_id: u64)
    ensures
        match spec_find_node(pending, node_id) {
            Some(i) => 0 <= i < pending.len() && pending[i].node_id == node_id,
            None => forall|i: int| 0 <= i < pending.len() ==> pending[i].node_id != node_id,
        },
    decreases pending.len(),
{
    if pending.len() > 0 && pending[0].node_id != node_id {
        lemma_find_node(pending.drop_first(), node_id);
        match spec_find_node(pending.drop_first(), node_id) {
            Some(i) => {
                assert(pending[i + 1] == pending.drop_first()[i]);
            },
            None => {
                assert forall|i: int| 0 <= i < pending.len() implies pending[i].node_id
                    != node_id by {
                    if i > 0 {
                        assert(pending[i] == pending.drop_first()[i - 1]);
                    }
                }
            },
        }
    }
}

impl<T> ChannelView<T> {
    /// Effect of a pending send registering its waker: a fresh registration
    /// appends a node under the next node id; a repeated one refreshes the
    /// waker of its node, where that node is still linked.
    pub open spec fn register_post(self, node_id: Option<u64>, waker: Waker) -> ChannelView<T> {
        match node_id {
            None => ChannelView {
                pending: self.pending.push(WakerNode { node_id: self.next_node, waker: Some(waker) }),
                next_node: (self.next_node + 1) as u64,
                ..self
            },
            Some(id) => match spec_find_node(self.pending, id) {
                Some(i) => if self.pending[i].waker == Some(waker) {
                    self
                } else {
                    ChannelView {
                        pending: self.pending.update(i, WakerNode { node_id: id, waker: Some(waker) }),
                        ..self
                    }
                },
                None => self,
            },
        }
    }

    /// Effect of a pending send being cancelled: its node is unlinked.
    pub open spec fn remove_node_post(self, node_id: u64) -> ChannelView<T> {
        match spec_find_node(self.pending, node_id) {
            Some(i) => ChannelView { pending: self.pending.remove(i), ..self },
            None => self,
        }
    }
}

impl<T> Channel<T> {
    /// Link a new parked-sender node holding `waker`; returns its node id.
    fn add_waker(&mut self, waker: Waker) -> (id: u64)
        requires
            old(self).wf(),
            old(self)@.next_node < u64::MAX,
        ensures
            final(self).wf(),
            id == old(self)@.next_node,
            final(self)@ == old(self)@.register_post(None, waker),
    {
        let id = self.next_node_id;
        self.sender_wakers.push(WakerNode { node_id: id, waker: Some(waker) });
        self.next_node_id = self.next_node_id + 1;
        proof {
            assert(self@ =~= old(self)@.register_post(None, waker));
        }
        id
    }

    /// Refresh the waker of the parked-sender node registered under `id`, if
    /// it is still linked and holds a different waker.
    fn update_waker(&mut self, id: u64, waker: Waker) -> (updated: bool)
        requires
            old(self).wf(),
        ensures
            final(self).wf(),
            final(self)@ == old(self)@.register_post(Some(id), waker),
    {
        proof {
            lemma_find_node(self.sender_wakers@, id);
        }
        let mut k: usize = 0;
        while k < self.sender_wakers.len()
            invariant
                *self == *old(self),
                self.wf(),
                k <= self.sender_wakers.len(),
                forall|i: int| 0 <= i < k ==> #[trigger] self.sender_wakers@[i].node_id != id,
            decreases self.sender_wakers.len() - k,
        {
            let node = self.sender_wakers[k];
            if node.node_id == id {
                proof {
                    lemma_find_node_prefix(self.sender_wakers@, id, k as int);
                }
                if match node.waker {
                    Some(existing) => !existing.will_wake(&waker),
                    None => true,
                } {
                    self.sender_wakers.set(k, WakerNode { node_id: id, waker: Some(waker) });
                    proof {
                        assert(pending_wf(self.sender_wakers@, self.next_node_id));
                        assert(self@ =~= old(self)@.register_post(Some(id), waker));
                    }
                    return true;
                }
                proof {
                    assert(self@ =~= old(self)@.register_post(Some(id), waker));
                }
                return false;
            }
            k = k + 1;
        }
        proof {
            lemma_find_node(self.sender_wakers@, id);
            assert(self@ =~= old(self)@.register_post(Some(id), waker));
        }
        false
    }

    /// Unlink the parked-sender node registered under `id`, if it is still
    /// linked.
    fn remove_waker(&mut self, id: u64)
        requires
            old(self).wf(),
        ensures
            final(self).wf(),
            final(self)@ == old(self)@.remove_node_post(id),
    {
        proof {
            lemma_find_node(self.sender_wakers@, id);
        }
        let mut k: usize = 0;
        while k < self.sender_wakers.len()
            invariant
                *self == *old(self),
                self.wf(),
                k <= self.sender_wakers.len(),
                forall|i: int| 0 <= i < k ==> #[trigger] self.sender_wakers@[i].node_id != id,
            decreases self.sender_wakers.len() - k,
        {
            let node = self.sender_wakers[k];
            if node.node_id == id {
                proof {
                    lemma_find_node_prefix(self.sender_wakers@, id, k as int);
                }
                let _ = self.sender_wakers.remove(k);
                proof {
                    assert(pending_wf(self.sender_wakers@, self.next_node_id));
                    assert(self@ =~= old(self)@.remove_node_post(id));
                }
                return ;
            }
            k = k + 1;
        }
        proof {
            lemma_find_node(self.sender_wakers@, id);
            assert(self@ =~= old(self)@.remove_node_post(id));
        }
    }
}

/// Where the first `k` nodes are not the one looked for and node `k` is,
/// the find stops at `k`.
proof fn lemma_find_node_prefix(pending: Seq<WakerNode>, node_id: u64, k: int)
    requires
        0 <= k < pending.len(),
        pending[k].node_id == node_id,
        forall|i: int| 0 <= i < k ==> #[trigger] pending[i].node_id != node_id,
    ensures
        spec_find_node(pending, node_id) == Some(k),
    decreases k,
{
    if k > 0 {
        lemma_find_node_prefix(pending.drop_first(), node_id, k - 1);
    }
}

/// The state machine behind [`Sender::send`]: a send that parks itself when
/// the channel is full and finishes once a slot opens up (or the channel
/// disconnects).
///
/// Poll it with [`SendValue::poll`]; a send that is given up before
/// completion must be cancelled with [`SendValue::cancel`], which unlinks
/// its parked waker.
#[derive(Debug)]
pub struct SendValue<T> {
    key: u64,
    value: Option<T>,
    node_id: Option<u64>,
}

/// The state machine behind [`Receiver::recv`]: a receive that suspends
/// while the channel is empty and finishes with `Some` value, or with `None`
/// once all senders are gone.
#[derive(Debug)]
pub struct RecvValue<T> {
    key: u64,
    message_type: PhantomData<T>,
}

impl<T> Sender<T> {
    /// Returns the suspendable send of `value` into the channel.
    ///
    /// Polling the result never yields `Full`: a send into a full channel
    /// parks its waker and suspends, and finishes on a later poll. It fails
    /// only when the [`Receiver`] and [`Manager`] are disconnected, handing
    /// the value back.
    pub fn send(&self, value: T) -> (r: SendValue<T>)
        ensures
            r.chan_key() == self.chan_key(),
            r.pending_value() == Some(value),
            r.node() is None,
    {
        SendValue { key: self.key, value: Some(value), node_id: None }
    }
}

impl<T> Receiver<T> {
    /// Returns the suspendable receive of a value from the channel.
    ///
    /// Polling the result never yields `Empty`: a receive from an empty
    /// channel registers the receiver's waker and suspends. It finishes with
    /// `None` once all senders are disconnected and the channel is empty.
    pub fn recv(&self) -> (r: RecvValue<T>)
        ensures
            r.chan_key() == self.chan_key(),
    {
        RecvValue { key: self.key, message_type: PhantomData }
    }
}

impl<T> SendValue<T> {
    /// The key of the channel this send belongs to.
    pub closed spec fn chan_key(&self) -> u64 {
        self.key
    }

    /// The value still to be sent; `None` once the send completed.
    pub closed spec fn pending_value(&self) -> Option<T> {
        self.value
    }

    /// The node id this send's waker is registered under, if it parked
    /// itself before.
    pub closed spec fn node(&self) -> Option<u64> {
        self.node_id
    }

    /// Poll the send once, with `waker` as the waker to park.
    ///
    /// Returns `Ready(Ok(()))` once the value is in the channel,
    /// `Ready(Err(value))` when receiver and manager are disconnected, and
    /// `Pending` when the channel is full, in which case `waker` is parked
    /// and will be woken by a receive that opens a slot up.
    ///
    /// A send may not be polled after completion.
    pub fn poll(&mut self, chan: &mut Channel<T>, waker: Waker) -> (r: Poll<Result<(), T>>)
        requires
            old(chan).wf(),
            old(self).chan_key() == old(chan)@.key,
            old(self).pending_value() is Some,
            old(chan)@.next_node < u64::MAX,
        ensures
            final(chan).wf(),
            final(self).chan_key() == old(self).chan_key(),
            ({
                let value = old(self).pending_value()->Some_0;
                let v0 = old(chan)@;
                if !v0.connected() {
                    &&& r == Poll::Ready(Err::<(), T>(value))
                    &&& final(chan)@ == v0
                    &&& final(self).pending_value() is None
                    &&& final(self).node() == old(self).node()
                } else if v0.find_empty() is Some {
                    &&& r == Poll::Ready(Ok::<(), T>(()))
                    &&& final(chan)@ == v0.send_post(value)
                    &&& final(self).pending_value() is None
                    &&& final(self).node() == old(self).node()
                } else {
                    let v1 = v0.register_post(old(self).node(), waker);
                    &&& r == Poll::<Result<(), T>>::Pending
                    &&& final(chan)@ == v1
                    &&& final(self).pending_value() == old(self).pending_value()
                    &&& final(self).node() is Some
                    &&& (old(self).node() is Some ==> final(self).node() == old(self).node())
                    &&& (old(self).node() is None ==> final(self).node() == Some(v0.next_node))
                }
            }),
    {
        let value = self.value.take().unwrap();
        // First try to send the value; if this succeeds no waker needs to be
        // parked.
        match self.try_send_value(chan, value) {
            Ok(()) => Poll::Ready(Ok(())),
            Err(SendError::Full(value)) => {
                // The channel is full: park the waker so that a receive that
                // opens a slot up wakes this send.
                match self.node_id {
                    None => {
                        let id = chan.add_waker(waker);
                        self.node_id = Some(id);
                    },
                    Some(id) => {
                        let _ = chan.update_waker(id, waker);
                    },
                }
                // A receive could slip in between the failed send and the
                // parking of the waker and leave a slot empty without a
                // wake-up; sending once more after parking closes that race.
                match self.try_send_value(chan, value) {
                    Ok(()) => Poll::Ready(Ok(())),
                    Err(SendError::Full(value)) => {
                        // Channel is still full, the parked waker stands.
                        self.value = Some(value);
                        Poll::Pending
                    },
                    Err(SendError::Disconnected(value)) => Poll::Ready(Err(value)),
                }
            },
            Err(SendError::Disconnected(value)) => Poll::Ready(Err(value)),
        }
    }

    /// One send attempt, as [`Sender::try_send`] makes it.
    fn try_send_value(&self, chan: &mut Channel<T>, value: T) -> (r: Result<(), SendError<T>>)
        requires
            old(chan).wf(),
            self.chan_key() == old(chan)@.key,
        ensures
            final(chan).wf(),
            r == old(chan)@.send_result(value),
            final(chan)@ == old(chan)@.send_post(value),
    {
        let sender = Sender::<T> { key: self.key, message_type: PhantomData };
        sender.try_send(chan, value)
    }

    /// Give the send up: unlink its parked waker, handing back the value
    /// that was not sent, if the send had not completed.
    ///
    /// This is the bookkeeping that dropping an incomplete send future must
    /// do, made explicit.
    pub fn cancel(self, chan: &mut Channel<T>) -> (r: Option<T>)
        requires
            old(chan).wf(),
            self.chan_key() == old(chan)@.key,
        ensures
            final(chan).wf(),
            r == self.pending_value(),
            match self.node() {
                Some(id) => final(chan)@ == old(chan)@.remove_node_post(id),
                None => final(chan)@ == old(chan)@,
            },
    {
        match self.node_id {
            Some(id) => chan.remove_waker(id),
            None => {},
        }
        self.value
    }
}

impl<T> RecvValue<T> {
    /// The key of the channel this receive belongs to.
    pub closed spec fn chan_key(&self) -> u64 {
        self.key
    }

    /// Poll the receive once, with `waker` as the waker to register.
    ///
    /// Returns `Ready(Some(value))` when a value is in the channel,
    /// `Ready(None)` when all senders are disconnected and no value is left,
    /// and `Pending` when the channel is empty, in which case `waker` is
    /// registered and will be woken by the next send (or by the last sender
    /// disconnecting). Note that every poll of an empty channel advances the
    /// receiver's cursor, once per receive attempt it makes.
    pub fn poll(&mut self, chan: &mut Channel<T>, waker: Waker) -> (r: Poll<Option<T>>)
        requires
            old(chan).wf(),
            old(self).chan_key() == old(chan)@.key,
        ensures
            final(chan).wf(),
            *final(self) == *old(self),
            ({
                let v0 = old(chan)@;
                match v0.recv_result() {
                    Ok(value) => r == Poll::Ready(Some(value)) && final(chan)@ == v0.recv_post(),
                    Err(RecvError::Disconnected) => r == Poll::Ready(None::<T>) && final(chan)@
                        == v0.recv_post(),
                    Err(RecvError::Empty) => {
                        let v1 = v0.recv_post();
                        if !v1.set_rx_waker_changed(waker) {
                            r == Poll::<Option<T>>::Pending && final(chan)@ == v1
                        } else {
                            let v2 = v1.set_rx_waker_post(waker);
                            match v2.recv_result() {
                                Ok(value) => r == Poll::Ready(Some(value)) && final(chan)@
                                    == v2.recv_post(),
                                Err(RecvError::Disconnected) => r == Poll::Ready(None::<T>)
                                    && final(chan)@ == v2.recv_post(),
                                Err(RecvError::Empty) => r == Poll::<Option<T>>::Pending
                                    && final(chan)@ == v2.recv_post(),
                            }
                        }
                    },
                }
            }),
    {
        let receiver = Receiver::<T> { key: self.key, message_type: PhantomData };
        match receiver.try_recv(chan) {
            Ok(value) => Poll::Ready(Some(value)),
            Err(RecvError::Empty) => {
                // The channel is empty: ask to be woken by the next send.
                if !chan.set_waker(waker) {
                    // The same waker was registered already.
                    return Poll::Pending;
                }
                // A send could slip in between the failed receive and the
                // registration and see no wake-up request; receiving once
                // more after registering closes that race.
                match receiver.try_recv(chan) {
                    Ok(value) => Poll::Ready(Some(value)),
                    // The next send will wake the registered waker.
                    Err(RecvError::Empty) => Poll::Pending,
                    Err(RecvError::Disconnected) => Poll::Ready(None),
                }
            },
            Err(RecvError::Disconnected) => Poll::Ready(None),
        }
    }
}

/// The multiset with the content of one slot: empty for an empty slot.
pub open spec fn opt_ms<T>(slot: Option<T>) -> Multiset<T> {
    match slot {
        Some(v) => Multiset::singleton(v),
        None => Multiset::empty(),
    }
}

/// The multiset of the values held in `slots`.
pub open spec fn slots_multiset<T>(slots: Seq<Option<T>>) -> Multiset<T>
    decreases slots.len(),
{
    if slots.len() == 0 {
        Multiset::empty()
    } else {
        slots_multiset(slots.drop_last()).add(opt_ms(slots.last()))
    }
}

/// How many of the `slots` are filled.
pub open spec fn spec_filled_count<T>(slots: Seq<Option<T>>) -> int
    decreases slots.len(),
{
    if slots.len() == 0 {
        0
    } else {
        spec_filled_count(slots.drop_last()) + if slots.last() is Some {
            1int
        } else {
            0int
        }
    }
}

impl<T> ChannelView<T> {
    /// The multiset of values the channel holds.
    pub open spec fn contents(self) -> Multiset<T> {
        slots_multiset(self.slots)
    }

    /// How many slots are filled.
    pub open spec fn filled_count(self) -> int {
        spec_filled_count(self.slots)
    }

    /// A cursor-aligned configuration: the filled slots are exactly the ones
    /// at the cursor and the positions after it, in cursor order. A fresh
    /// channel is clean, and uncontended sends and receives keep a channel
    /// clean; receive attempts on an empty channel do too. It is such
    /// configurations for which the channel is FIFO, see [`Self::queue`].
    pub open spec fn is_clean(self) -> bool {
        forall|k: int|
            0 <= k < 8 ==> ((#[trigger] self.slots[(self.cursor + k) % 8] is Some) <==> k
                < self.filled_count())
    }

    /// The values of the channel in cursor order, oldest first: the queue
    /// that a clean channel behaves as.
    pub open spec fn queue(self) -> Seq<T> {
        Seq::new(
            self.filled_count() as nat,
            |k: int| self.slots[(self.cursor + k) % 8]->Some_0,
        )
    }
}

} // verus!

