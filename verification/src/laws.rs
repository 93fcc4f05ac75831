//! The laws of the bounded inbox: conservation of values, the capacity
//! bound, and the FIFO behaviour of cursor-aligned channels, proved over the
//! abstract channel state of [`ChannelView`].

use vstd::multiset::Multiset;
use vstd::prelude::*;

use crate::inbox::{
    fresh_view, opt_ms, slots_multiset, spec_filled_count, spec_scan, ChannelView, RecvError,
    SendError,
};

verus! {

broadcast use vstd::multiset::group_multiset_axioms;

/// The filled count lies between zero and the number of slots.
pub proof fn lemma_filled_count_bounds<T>(slots: Seq<Option<T>>)
    ensures
        0 <= spec_filled_count(slots) <= slots.len(),
    decreases slots.len(),
{
    if slots.len() > 0 {
        lemma_filled_count_bounds(slots.drop_last());
    }
}

/// Updating one slot changes the filled count by what leaves and what
/// enters.
pub proof fn lemma_filled_count_update<T>(slots: Seq<Option<T>>, i: int, x: Option<T>)
    requires
        0 <= i < slots.len(),
    ensures
        spec_filled_count(slots.update(i, x)) == spec_filled_count(slots) - (if slots[i] is Some {
            1int
        } else {
            0int
        }) + (if x is Some {
            1int
        } else {
            0int
        }),
    decreases slots.len(),
{
    let updated = slots.update(i, x);
    if i == slots.len() - 1 {
        assert(updated.drop_last() =~= slots.drop_last());
    } else {
        assert(updated.drop_last() =~= slots.drop_last().update(i, x));
        lemma_filled_count_update(slots.drop_last(), i, x);
    }
}

/// Updating one slot exchanges its old content for the new one in the
/// multiset of held values.
pub proof fn lemma_slots_ms_update<T>(slots: Seq<Option<T>>, i: int, x: Option<T>)
    requires
        0 <= i < slots.len(),
    ensures
        slots_multiset(slots.update(i, x)).add(opt_ms(slots[i])) =~= slots_multiset(slots).add(
            opt_ms(x),
        ),
    decreases slots.len(),
{
    let updated = slots.update(i, x);
    let dl = slots.drop_last();
    if i == slots.len() - 1 {
        assert(updated.drop_last() =~= dl);
        assert(slots_multiset(updated) == slots_multiset(dl).add(opt_ms(x)));
        assert(slots_multiset(dl).add(opt_ms(x)).add(opt_ms(slots[i])) =~= slots_multiset(
            dl,
        ).add(opt_ms(slots.last())).add(opt_ms(x)));
    } else {
        assert(updated.drop_last() =~= dl.update(i, x));
        lemma_slots_ms_update(dl, i, x);
        assert(slots[i] == dl[i]);
        assert(slots_multiset(updated) == slots_multiset(dl.update(i, x)).add(
            opt_ms(slots.last()),
        ));
        assert(slots_multiset(dl.update(i, x)).add(opt_ms(slots.last())).add(opt_ms(dl[i]))
            =~= slots_multiset(dl.update(i, x)).add(opt_ms(dl[i])).add(opt_ms(slots.last())));
        assert(slots_multiset(dl.update(i, x)).add(opt_ms(dl[i])).add(opt_ms(slots.last()))
            =~= slots_multiset(dl).add(opt_ms(x)).add(opt_ms(slots.last())));
        assert(slots_multiset(dl).add(opt_ms(x)).add(opt_ms(slots.last())) =~= slots_multiset(
            slots,
        ).add(opt_ms(x)));
    }
}

/// The multiset of held values has exactly one element per filled slot.
pub proof fn lemma_contents_len<T>(slots: Seq<Option<T>>)
    ensures
        slots_multiset(slots).len() == spec_filled_count(slots),
    decreases slots.len(),
{
    if slots.len() > 0 {
        lemma_contents_len(slots.drop_last());
    }
}

/// What a scan's outcome means: a found slot is in range and matches, and
/// an exhausted scan means no slot at the remaining offsets matches.
pub proof fn lemma_scan_props<T>(slots: Seq<Option<T>>, start: u64, m: int, filled: bool)
    requires
        slots.len() == 8,
        0 <= m <= 8,
    ensures
        match spec_scan(slots, start, m, filled) {
            Some(idx) => idx < 8 && (slots[idx as int] is Some) == filled,
            None => forall|n: int|
                m <= n < 8 ==> ((#[trigger] slots[(start + n) % 8] is Some) != filled),
        },
    decreases 8 - m,
{
    if m < 8 {
        if (slots[(start + m) % 8] is Some) != filled {
            lemma_scan_props(slots, start, m + 1, filled);
        }
    }
}

/// Sending keeps the view well formed and touches neither the connectivity
/// fields, the cursor, nor the sender count.
pub proof fn lemma_send_post_fields<T>(v: ChannelView<T>, x: T)
    requires
        v.wf(),
    ensures
        v.send_post(x).wf(),
        v.send_post(x).key == v.key,
        v.send_post(x).cursor == v.cursor,
        v.send_post(x).senders == v.senders,
        v.send_post(x).receiver == v.receiver,
        v.send_post(x).manager == v.manager,
        v.send_post(x).slots.len() == 8,
{
    lemma_scan_props(v.slots, v.cursor, 0, false);
}

/// Receiving keeps the view well formed and touches neither the
/// connectivity fields nor the sender count.
pub proof fn lemma_recv_post_fields<T>(v: ChannelView<T>)
    requires
        v.wf(),
    ensures
        v.recv_post().wf(),
        v.recv_post().key == v.key,
        v.recv_post().senders == v.senders,
        v.recv_post().receiver == v.receiver,
        v.recv_post().manager == v.manager,
        v.recv_post().slots.len() == 8,
{
    lemma_scan_props(v.slots, v.cursor, 0, true);
    let stepped = v.step_cursor();
    match v.find_filled() {
        Some(slot) => {
            let emptied = ChannelView { slots: stepped.slots.update(slot as int, None), ..stepped };
            crate::inbox::lemma_pop_waker_wf(emptied.pending, emptied.next_node);
        },
        None => {},
    }
}

/// A successful send adds exactly the sent value to the channel's contents;
/// a failed one leaves the channel unchanged.
pub proof fn lemma_send_contents<T>(v: ChannelView<T>, x: T)
    requires
        v.wf(),
    ensures
        v.send_result(x) is Ok ==> v.send_post(x).contents() =~= v.contents().insert(x),
        v.send_result(x) is Err ==> v.send_post(x) == v,
{
    lemma_scan_props(v.slots, v.cursor, 0, false);
    if v.send_result(x) is Ok {
        let slot = v.find_empty()->Some_0;
        lemma_slots_ms_update(v.slots, slot as int, Some(x));
        assert(v.send_post(x).contents().add(opt_ms(v.slots[slot as int])) =~= v.contents().add(
            opt_ms(Some(x)),
        ));
        assert(v.send_post(x).contents() =~= v.contents().insert(x));
    }
}

/// A successful receive removes exactly the received value from the
/// channel's contents, which hence held it; a failed one changes no slot.
pub proof fn lemma_recv_contents<T>(v: ChannelView<T>)
    requires
        v.wf(),
    ensures
        v.recv_result() matches Ok(y) ==> v.contents().count(y) >= 1 && v.recv_post().contents()
            =~= v.contents().remove(y),
        v.recv_result() is Err ==> v.recv_post().contents() =~= v.contents(),
{
    lemma_scan_props(v.slots, v.cursor, 0, true);
    match v.find_filled() {
        Some(slot) => {
            let y = v.slots[slot as int]->Some_0;
            lemma_slots_ms_update(v.slots, slot as int, None);
            let emptied = slots_multiset(v.slots.update(slot as int, None));
            assert(emptied.add(opt_ms(v.slots[slot as int])) =~= v.contents().add(
                opt_ms(None::<T>),
            ));
            assert(v.contents().add(opt_ms(None::<T>)) =~= v.contents());
            assert(opt_ms(v.slots[slot as int]) =~= Multiset::<T>::empty().insert(y));
            assert(emptied.add(opt_ms(v.slots[slot as int])).count(y) == emptied.count(y) + 1);
            assert(v.contents().count(y) >= 1);
            assert(v.recv_post().contents() == emptied);
            assert(emptied =~= v.contents().remove(y));
        },
        None => {},
    }
}

/// One operation on a channel: a send attempt of a value, or a receive
/// attempt.
pub enum ChanOp<T> {
    /// A `try_send` of this value.
    Send(T),
    /// A `try_recv`.
    Recv,
}

/// The channel state after one operation.
pub open spec fn apply_op<T>(v: ChannelView<T>, op: ChanOp<T>) -> ChannelView<T> {
    match op {
        ChanOp::Send(x) => v.send_post(x),
        ChanOp::Recv => v.recv_post(),
    }
}

/// The channel state after a sequence of operations.
pub open spec fn apply_ops<T>(v: ChannelView<T>, ops: Seq<ChanOp<T>>) -> ChannelView<T>
    decreases ops.len(),
{
    if ops.len() == 0 {
        v
    } else {
        apply_ops(apply_op(v, ops[0]), ops.drop_first())
    }
}

/// The multiset of values that the sends of `ops`, applied to `v` in order,
/// successfully put into the channel.
pub open spec fn sent_values<T>(v: ChannelView<T>, ops: Seq<ChanOp<T>>) -> Multiset<T>
    decreases ops.len(),
{
    if ops.len() == 0 {
        Multiset::empty()
    } else {
        let rest = sent_values(apply_op(v, ops[0]), ops.drop_first());
        match ops[0] {
            ChanOp::Send(x) => if v.send_result(x) is Ok {
                rest.insert(x)
            } else {
                rest
            },
            ChanOp::Recv => rest,
        }
    }
}

/// The multiset of values that the receives of `ops`, applied to `v` in
/// order, successfully took out of the channel.
pub open spec fn received_values<T>(v: ChannelView<T>, ops: Seq<ChanOp<T>>) -> Multiset<T>
    decreases ops.len(),
{
    if ops.len() == 0 {
        Multiset::empty()
    } else {
        let rest = received_values(apply_op(v, ops[0]), ops.drop_first());
        match ops[0] {
            ChanOp::Send(x) => rest,
            ChanOp::Recv => match v.recv_result() {
                Ok(y) => rest.insert(y),
                Err(_) => rest,
            },
        }
    }
}

/// Values are conserved: across any sequence of operations, what the channel
/// held before plus what was successfully sent equals what it holds after
/// plus what was successfully received.
pub proof fn lemma_conservation<T>(v: ChannelView<T>, ops: Seq<ChanOp<T>>)
    requires
        v.wf(),
    ensures
        apply_ops(v, ops).wf(),
        forall|x: T|
            #![trigger sent_values(v, ops).count(x)]
            apply_ops(v, ops).contents().count(x) + received_values(v, ops).count(x) == v.contents(
            ).count(x) + sent_values(v, ops).count(x),
    decreases ops.len(),
{
    if ops.len() > 0 {
        let v1 = apply_op(v, ops[0]);
        let rest = ops.drop_first();
        match ops[0] {
            ChanOp::Send(x) => {
                lemma_send_post_fields(v, x);
                lemma_send_contents(v, x);
            },
            ChanOp::Recv => {
                lemma_recv_post_fields(v);
                lemma_recv_contents(v);
            },
        }
        lemma_conservation(v1, rest);
        assert forall|x: T|
            apply_ops(v, ops).contents().count(x) + received_values(v, ops).count(x)
                == v.contents().count(x) + sent_values(v, ops).count(x) by {
            assert(apply_ops(v1, rest).contents().count(x) + received_values(v1, rest).count(x)
                == v1.contents().count(x) + sent_values(v1, rest).count(x));
            match ops[0] {
                ChanOp::Send(y) => {
                    if v.send_result(y) is Ok {
                        assert(v1.contents().count(x) == v.contents().insert(y).count(x));
                        assert(sent_values(v, ops).count(x) == sent_values(v1, rest).insert(
                            y,
                        ).count(x));
                    } else {
                        assert(v1 == v);
                    }
                },
                ChanOp::Recv => {
                    match v.recv_result() {
                        Ok(y) => {
                            assert(v1.contents().count(x) == v.contents().remove(y).count(x));
                            assert(received_values(v, ops).count(x) == received_values(
                                v1,
                                rest,
                            ).insert(y).count(x));
                        },
                        Err(_) => {
                            assert(v1.contents().count(x) == v.contents().count(x));
                        },
                    }
                },
            }
        }
    }
}

/// Law: on a channel that starts empty, the multiset of successfully sent
/// values contains the multiset of successfully received values, whatever
/// sequence of send and receive attempts is made.
pub proof fn lemma_received_subset_of_sent<T>(v: ChannelView<T>, ops: Seq<ChanOp<T>>)
    requires
        v.wf(),
        v.contents() =~= Multiset::<T>::empty(),
    ensures
        received_values(v, ops).subset_of(sent_values(v, ops)),
{
    lemma_conservation(v, ops);
    assert forall|x: T|
        received_values(v, ops).count(x) <= sent_values(v, ops).count(x) by {
        assert(apply_ops(v, ops).contents().count(x) + received_values(v, ops).count(x)
            == v.contents().count(x) + sent_values(v, ops).count(x));
    }
}

/// The channel state before the send of `xs[k]`, when the values of `xs` are
/// sent in order.
pub open spec fn send_state<T>(v: ChannelView<T>, xs: Seq<T>, k: int) -> ChannelView<T>
    decreases k,
{
    if k <= 0 || xs.len() == 0 {
        v
    } else {
        send_state(v.send_post(xs[0]), xs.drop_first(), k - 1)
    }
}

/// Law: the channel holds at most `SMALL_CAP` values, so of `SMALL_CAP + 1`
/// sends into a connected channel without intervening receives at least one
/// comes back `Full`, with its value.
pub proof fn lemma_full_channel_rejects<T>(v: ChannelView<T>, xs: Seq<T>)
    requires
        v.wf(),
        v.connected(),
        xs.len() + v.contents().len() > 8,
    ensures
        exists|k: int|
            0 <= k < xs.len() && #[trigger] send_state(v, xs, k).send_result(xs[k]) == Err::<
                (),
                SendError<T>,
            >(SendError::Full(xs[k])),
    decreases xs.len(),
{
    lemma_contents_len(v.slots);
    lemma_filled_count_bounds(v.slots);
    match v.send_result(xs[0]) {
        Ok(()) => {
            lemma_send_post_fields(v, xs[0]);
            lemma_send_contents(v, xs[0]);
            let v1 = v.send_post(xs[0]);
            assert(v1.contents().len() == v.contents().len() + 1) by {
                broadcast use vstd::multiset::group_multiset_properties;

            }
            lemma_full_channel_rejects(v1, xs.drop_first());
            let k0 = choose|k: int|
                0 <= k < xs.drop_first().len() && #[trigger] send_state(
                    v1,
                    xs.drop_first(),
                    k,
                ).send_result(xs.drop_first()[k]) == Err::<(), SendError<T>>(
                    SendError::Full(xs.drop_first()[k]),
                );
            assert(send_state(v, xs, k0 + 1) == send_state(v1, xs.drop_first(), k0));
            assert(send_state(v, xs, k0 + 1).send_result(xs[k0 + 1]) == Err::<(), SendError<T>>(
                SendError::Full(xs[k0 + 1]),
            ));
        },
        Err(e) => {
            assert(e == SendError::<T>::Full(xs[0]));
            assert(send_state(v, xs, 0) == v);
        },
    }
}

/// Slots that hold nothing hold no values and count no fills.
proof fn lemma_all_empty<T>(slots: Seq<Option<T>>)
    requires
        forall|i: int| 0 <= i < slots.len() ==> #[trigger] slots[i] is None,
    ensures
        spec_filled_count(slots) == 0,
        slots_multiset(slots) =~= Multiset::<T>::empty(),
    decreases slots.len(),
{
    if slots.len() > 0 {
        lemma_all_empty(slots.drop_last());
    }
}

/// A fresh channel is well formed, clean, and holds nothing.
pub proof fn lemma_fresh_clean<T>(key: u64)
    ensures
        fresh_view::<T>(key).wf(),
        fresh_view::<T>(key).is_clean(),
        fresh_view::<T>(key).filled_count() == 0,
        fresh_view::<T>(key).queue() =~= Seq::<T>::empty(),
        fresh_view::<T>(key).contents() =~= Multiset::<T>::empty(),
{
    lemma_all_empty(fresh_view::<T>(key).slots);
}

/// Law, the send half of FIFO order: a send into a clean channel that is not
/// full succeeds and appends its value at the back of the queue, keeping the
/// channel clean; a send into a full connected channel comes back `Full`.
pub proof fn lemma_clean_send<T>(v: ChannelView<T>, x: T)
    requires
        v.wf(),
        v.is_clean(),
        v.connected(),
    ensures
        v.filled_count() < 8 ==> v.send_result(x) is Ok && v.send_post(x).is_clean() && v.send_post(
            x,
        ).queue() =~= v.queue().push(x),
        v.filled_count() == 8 ==> v.send_result(x) == Err::<(), SendError<T>>(SendError::Full(x)),
{
    let c = v.cursor;
    let fc = v.filled_count();
    lemma_filled_count_bounds(v.slots);
    if fc == 8 {
        crate::inbox::lemma_scan_none(v.slots, c, 0, false);
    } else {
        crate::inbox::lemma_scan_found(v.slots, c, 0, fc, false);
        let idx = (c + fc) % 8;
        assert(v.find_empty() == Some(idx as u64));
        let post = v.send_post(x);
        assert(post.slots == v.slots.update(idx, Some(x)));
        assert(post.cursor == c);
        lemma_filled_count_update(v.slots, idx, Some(x));
        assert(post.filled_count() == fc + 1);
        assert forall|k: int| 0 <= k < 8 implies ((#[trigger] post.slots[(c + k) % 8] is Some)
            <==> k < fc + 1) by {
            if (c + k) % 8 == idx {
                assert(k == fc) by {
                    if k != fc {
                        assert((c + k) % 8 != (c + fc) % 8);
                    }
                }
            }
        }
        assert(post.queue() =~= v.queue().push(x)) by {
            assert forall|k: int| 0 <= k < fc + 1 implies post.queue()[k] == v.queue().push(x)[k] by {
                if k < fc {
                    assert((c + k) % 8 != idx);
                    assert(post.slots[(c + k) % 8] == v.slots[(c + k) % 8]);
                }
            }
        }
    }
}

/// Law, the receive half of FIFO order: a receive from a clean, non-empty
/// channel returns the front of the queue and keeps the channel clean; a
/// receive from a clean empty channel fails (with `Disconnected` exactly
/// when no sender is alive) and keeps it clean and empty.
pub proof fn lemma_clean_recv<T>(v: ChannelView<T>)
    requires
        v.wf(),
        v.is_clean(),
    ensures
        v.recv_post().is_clean(),
        v.recv_post().filled_count() == if v.filled_count() > 0 {
            v.filled_count() - 1
        } else {
            0
        },
        v.filled_count() > 0 ==> v.recv_result() == Ok::<T, RecvError>(v.queue()[0])
            && v.recv_post().queue() =~= v.queue().drop_first(),
        v.filled_count() == 0 ==> v.recv_result() == (if v.senders == 0 {
            Err::<T, RecvError>(RecvError::Disconnected)
        } else {
            Err::<T, RecvError>(RecvError::Empty)
        }),
{
    let c = v.cursor;
    let fc = v.filled_count();
    lemma_filled_count_bounds(v.slots);
    let post = v.recv_post();
    if fc == 0 {
        crate::inbox::lemma_scan_none(v.slots, c, 0, true);
        assert(post.slots == v.slots);
        assert forall|k: int| 0 <= k < 8 implies ((#[trigger] post.slots[(post.cursor + k) % 8]
            is Some) <==> k < 0) by {
            let n = (((post.cursor + k) % 8) + 8 - c) % 8;
            assert(0 <= n < 8);
            assert((c + n) % 8 == (post.cursor + k) % 8);
        }
    } else {
        assert(v.slots[(c + 0) % 8] is Some);
        crate::inbox::lemma_scan_found(v.slots, c, 0, 0, true);
        assert(v.find_filled() == Some((c % 8) as u64));
        assert(c % 8 == c);
        assert(v.recv_result() == Ok::<T, RecvError>(v.slots[c as int]->Some_0));
        assert(v.queue()[0] == v.slots[(c + 0) % 8]->Some_0);
        assert(post.slots == v.slots.update(c as int, None));
        lemma_filled_count_update(v.slots, c as int, None);
        assert(post.filled_count() == fc - 1);
        assert forall|k: int| 0 <= k < 8 implies ((#[trigger] post.slots[(post.cursor + k) % 8]
            is Some) <==> k < fc - 1) by {
            assert((post.cursor + k) % 8 == (c + (k + 1)) % 8);
            if k < 7 {
                assert((c + (k + 1)) % 8 != (c + 0) % 8);
                assert(post.slots[(c + (k + 1)) % 8] == v.slots[(c + (k + 1)) % 8]);
            } else {
                assert((c + 8) % 8 == (c + 0) % 8);
                assert(post.slots[(post.cursor + k) % 8] is None);
            }
        }
        assert(post.queue() =~= v.queue().drop_first()) by {
            assert forall|k: int| 0 <= k < fc - 1 implies post.queue()[k] == v.queue().drop_first(
            )[k] by {
                assert((post.cursor + k) % 8 == (c + (k + 1)) % 8);
                assert((c + (k + 1)) % 8 != (c + 0) % 8);
                assert(post.slots[(c + (k + 1)) % 8] == v.slots[(c + (k + 1)) % 8]);
            }
        }
    }
}

/// The channel state after `j` receive attempts.
pub open spec fn recv_state<T>(v: ChannelView<T>, j: int) -> ChannelView<T>
    decreases j,
{
    if j <= 0 {
        v
    } else {
        recv_state(v, j - 1).recv_post()
    }
}

/// Law: on a clean channel whose senders are all gone and that holds `K`
/// values, the first `K` receives succeed and return the values in queue
/// order, and the receive after them reports `Disconnected`.
pub proof fn lemma_drain_after_disconnect<T>(v: ChannelView<T>, j: int)
    requires
        v.wf(),
        v.is_clean(),
        v.senders == 0,
        0 <= j <= v.filled_count(),
    ensures
        recv_state(v, j).wf(),
        recv_state(v, j).is_clean(),
        recv_state(v, j).senders == 0,
        recv_state(v, j).filled_count() == v.filled_count() - j,
        recv_state(v, j).queue() =~= v.queue().skip(j),
        j < v.filled_count() ==> recv_state(v, j).recv_result() == Ok::<T, RecvError>(
            v.queue()[j],
        ),
        j == v.filled_count() ==> recv_state(v, j).recv_result() == Err::<T, RecvError>(
            RecvError::Disconnected,
        ),
    decreases j,
{
    lemma_filled_count_bounds(v.slots);
    if j == 0 {
        assert(recv_state(v, 0).queue() =~= v.queue().skip(0));
        lemma_clean_recv(v);
    } else {
        lemma_drain_after_disconnect(v, j - 1);
        let w = recv_state(v, j - 1);
        lemma_recv_post_fields(w);
        lemma_clean_recv(w);
        assert(w.recv_post().queue() =~= v.queue().skip(j)) by {
            assert(w.queue() =~= v.queue().skip(j - 1));
            assert(w.queue().drop_first() =~= v.queue().skip(j - 1).drop_first());
            assert(v.queue().skip(j - 1).drop_first() =~= v.queue().skip(j));
        }
        lemma_clean_recv(w.recv_post());
        if j < v.filled_count() {
            assert(recv_state(v, j).queue()[0] == v.queue().skip(j)[0]);
        }
    }
}

/// Law: every sequence of uncontended operations keeps a channel
/// cursor-aligned. Together with [`lemma_fresh_clean`], [`lemma_clean_send`]
/// and [`lemma_clean_recv`] this makes single-producer single-consumer use
/// first-in first-out: each send appends to the queue and each receive takes
/// its front.
pub proof fn lemma_clean_preserved<T>(v: ChannelView<T>, op: ChanOp<T>)
    requires
        v.wf(),
        v.is_clean(),
    ensures
        apply_op(v, op).is_clean(),
{
    lemma_filled_count_bounds(v.slots);
    match op {
        ChanOp::Send(x) => {
            if !v.connected() {
                // The send is rejected and changes nothing.
            } else if v.filled_count() < 8 {
                lemma_clean_send(v, x);
            } else {
                lemma_scan_props(v.slots, v.cursor, 0, false);
                match v.find_empty() {
                    Some(idx) => {
                        // A clean full channel has no empty slot: the found
                        // index, read as an offset from the cursor, is
                        // filled.
                        let n = ((idx as int) + 8 - v.cursor) % 8;
                        assert(0 <= n < 8);
                        assert((v.cursor + n) % 8 == idx as int);
                        assert(v.slots[(v.cursor + n) % 8] is Some);
                        assert(false);
                    },
                    None => {},
                }
            }
        },
        ChanOp::Recv => {
            lemma_clean_recv(v);
        },
    }
}

/// Law: sending a fit of values into a clean, connected channel succeeds
/// throughout and appends them to the queue in order.
pub proof fn lemma_sends_append<T>(v: ChannelView<T>, xs: Seq<T>)
    requires
        v.wf(),
        v.is_clean(),
        v.connected(),
        v.filled_count() + xs.len() <= 8,
    ensures
        send_state(v, xs, xs.len() as int).wf(),
        send_state(v, xs, xs.len() as int).is_clean(),
        send_state(v, xs, xs.len() as int).connected(),
        send_state(v, xs, xs.len() as int).senders == v.senders,
        send_state(v, xs, xs.len() as int).filled_count() == v.filled_count() + xs.len(),
        send_state(v, xs, xs.len() as int).queue() =~= v.queue() + xs,
        forall|k: int|
            0 <= k < xs.len() ==> #[trigger] send_state(v, xs, k).send_result(xs[k]) is Ok,
    decreases xs.len(),
{
    lemma_filled_count_bounds(v.slots);
    lemma_contents_len(v.slots);
    if xs.len() == 0 {
        assert(send_state(v, xs, 0).queue() =~= v.queue() + xs);
    } else {
        let x = xs[0];
        let rest = xs.drop_first();
        lemma_clean_send(v, x);
        lemma_send_post_fields(v, x);
        lemma_send_contents(v, x);
        let v1 = v.send_post(x);
        assert(v1.contents().len() == v.contents().len() + 1) by {
            broadcast use vstd::multiset::group_multiset_properties;

        }
        lemma_contents_len(v1.slots);
        lemma_sends_append(v1, rest);
        assert(send_state(v, xs, xs.len() as int) == send_state(v1, rest, rest.len() as int));
        assert(send_state(v1, rest, rest.len() as int).queue() =~= v1.queue() + rest);
        assert(v1.queue() + rest =~= v.queue() + xs) by {
            assert(v1.queue() =~= v.queue().push(x));
        }
        assert forall|k: int|
            0 <= k < xs.len() implies #[trigger] send_state(v, xs, k).send_result(xs[k]) is Ok by {
            if k == 0 {
                assert(send_state(v, xs, 0) == v);
            } else {
                assert(send_state(v, xs, k) == send_state(v1, rest, k - 1));
                assert(send_state(v1, rest, k - 1).send_result(rest[k - 1]) is Ok);
            }
        }
    }
}

/// Law: disconnecting a sender neither moves nor loses values: the queue of
/// a clean channel stands, only the sender count drops (and the last sender
/// out wakes the receiver).
pub proof fn lemma_drop_sender_keeps_queue<T>(v: ChannelView<T>)
    requires
        v.wf(),
        v.is_clean(),
        v.senders >= 1,
    ensures
        v.drop_sender_post().wf(),
        v.drop_sender_post().is_clean(),
        v.drop_sender_post().senders == v.senders - 1,
        v.drop_sender_post().queue() =~= v.queue(),
        v.drop_sender_post().receiver == v.receiver,
        v.drop_sender_post().manager == v.manager,
{
    assert(v.drop_sender_post().slots == v.slots);
    assert(v.drop_sender_post().cursor == v.cursor);
}

/// Law: on a fresh channel into which `K` values were successfully sent
/// before the sender disconnected, the first `K` receives return exactly
/// those values in send order, and the receive after them reports
/// `Disconnected`.
pub proof fn lemma_sent_then_disconnected_drains_in_order<T>(xs: Seq<T>, key: u64)
    requires
        xs.len() <= 8,
    ensures
        ({
            let sent = send_state(fresh_view::<T>(key), xs, xs.len() as int);
            let dropped = sent.drop_sender_post();
            &&& (forall|k: int|
                0 <= k < xs.len() ==> #[trigger] send_state(fresh_view::<T>(key), xs, k).send_result(
                    xs[k],
                ) is Ok)
            &&& (forall|j: int|
                0 <= j < xs.len() ==> #[trigger] recv_state(dropped, j).recv_result() == Ok::<
                    T,
                    RecvError,
                >(xs[j]))
            &&& recv_state(dropped, xs.len() as int).recv_result() == Err::<T, RecvError>(
                RecvError::Disconnected,
            )
        }),
{
    let v0 = fresh_view::<T>(key);
    lemma_fresh_clean::<T>(key);
    lemma_sends_append(v0, xs);
    let sent = send_state(v0, xs, xs.len() as int);
    lemma_drop_sender_keeps_queue(sent);
    let dropped = sent.drop_sender_post();
    assert(dropped.queue() =~= xs) by {
        assert(sent.queue() =~= v0.queue() + xs);
        assert(v0.queue() + xs =~= xs);
    }
    assert(dropped.filled_count() == xs.len()) by {
        lemma_contents_len(dropped.slots);
        lemma_contents_len(sent.slots);
        assert(dropped.slots == sent.slots);
    }
    assert forall|j: int|
        0 <= j < xs.len() implies #[trigger] recv_state(dropped, j).recv_result() == Ok::<
        T,
        RecvError,
    >(xs[j]) by {
        lemma_drain_after_disconnect(dropped, j);
        assert(dropped.queue()[j] == xs[j]);
    }
    lemma_drain_after_disconnect(dropped, xs.len() as int);
}

/// A channel whose filled count is zero holds nothing in any slot.
proof fn lemma_no_fills<T>(slots: Seq<Option<T>>)
    requires
        spec_filled_count(slots) == 0,
    ensures
        forall|i: int| 0 <= i < slots.len() ==> #[trigger] slots[i] is None,
    decreases slots.len(),
{
    if slots.len() > 0 {
        lemma_filled_count_bounds(slots.drop_last());
        lemma_no_fills(slots.drop_last());
        assert forall|i: int| 0 <= i < slots.len() implies #[trigger] slots[i] is None by {
            if i < slots.len() - 1 {
                assert(slots[i] == slots.drop_last()[i]);
            }
        }
    }
}

/// A receive from a channel that holds nothing fails: with `Empty` while a
/// sender is alive, with `Disconnected` once none is.
pub proof fn lemma_empty_recv_fails<T>(v: ChannelView<T>)
    requires
        v.wf(),
        v.filled_count() == 0,
    ensures
        v.recv_result() == (if v.senders == 0 {
            Err::<T, RecvError>(RecvError::Disconnected)
        } else {
            Err::<T, RecvError>(RecvError::Empty)
        }),
{
    lemma_no_fills(v.slots);
    crate::inbox::lemma_scan_none(v.slots, v.cursor, 0, true);
}

/// The values that the sends of `ops`, applied to `v` in order, successfully
/// put into the channel — as a sequence, in send order.
pub open spec fn sent_list<T>(v: ChannelView<T>, ops: Seq<ChanOp<T>>) -> Seq<T>
    decreases ops.len(),
{
    if ops.len() == 0 {
        Seq::empty()
    } else {
        let rest = sent_list(apply_op(v, ops[0]), ops.drop_first());
        match ops[0] {
            ChanOp::Send(x) => if v.send_result(x) is Ok {
                seq![x] + rest
            } else {
                rest
            },
            ChanOp::Recv => rest,
        }
    }
}

/// The values that the receives of `ops`, applied to `v` in order,
/// successfully took out of the channel — as a sequence, in receive order.
pub open spec fn received_list<T>(v: ChannelView<T>, ops: Seq<ChanOp<T>>) -> Seq<T>
    decreases ops.len(),
{
    if ops.len() == 0 {
        Seq::empty()
    } else {
        let rest = received_list(apply_op(v, ops[0]), ops.drop_first());
        match ops[0] {
            ChanOp::Send(_) => rest,
            ChanOp::Recv => match v.recv_result() {
                Ok(y) => seq![y] + rest,
                Err(_) => rest,
            },
        }
    }
}

/// Law, FIFO order over whole traces: across any sequence of uncontended
/// operations on a cursor-aligned channel, the queue it started with
/// followed by the values sent equals the values received followed by the
/// queue it ends with — the channel behaves as one queue.
pub proof fn lemma_fifo_trace<T>(v: ChannelView<T>, ops: Seq<ChanOp<T>>)
    requires
        v.wf(),
        v.is_clean(),
    ensures
        apply_ops(v, ops).wf(),
        apply_ops(v, ops).is_clean(),
        v.queue() + sent_list(v, ops) =~= received_list(v, ops) + apply_ops(v, ops).queue(),
    decreases ops.len(),
{
    lemma_filled_count_bounds(v.slots);
    if ops.len() == 0 {
        assert(v.queue() + sent_list(v, ops) =~= received_list(v, ops) + v.queue());
    } else {
        let v1 = apply_op(v, ops[0]);
        let rest = ops.drop_first();
        match ops[0] {
            ChanOp::Send(x) => {
                lemma_send_post_fields(v, x);
                if v.connected() && v.filled_count() < 8 {
                    lemma_clean_send(v, x);
                    lemma_fifo_trace(v1, rest);
                    assert(v.queue() + sent_list(v, ops) =~= received_list(v, ops) + apply_ops(
                        v,
                        ops,
                    ).queue()) by {
                        assert(v.queue() + (seq![x] + sent_list(v1, rest)) =~= v1.queue()
                            + sent_list(v1, rest));
                    }
                } else {
                    // The send is rejected — the channel is not connected,
                    // or it is full — and changes nothing.
                    if v.connected() {
                        crate::inbox::lemma_scan_none(v.slots, v.cursor, 0, false);
                        assert(v.find_empty() is None);
                    }
                    assert(v1 == v);
                    assert(v.send_result(x) is Err);
                    lemma_fifo_trace(v1, rest);
                    assert(v.queue() + sent_list(v, ops) =~= received_list(v, ops) + apply_ops(
                        v,
                        ops,
                    ).queue());
                }
            },
            ChanOp::Recv => {
                lemma_recv_post_fields(v);
                lemma_clean_recv(v);
                lemma_fifo_trace(v1, rest);
                if v.filled_count() > 0 {
                    assert(v.queue() + sent_list(v, ops) =~= received_list(v, ops) + apply_ops(
                        v,
                        ops,
                    ).queue()) by {
                        assert(v.queue() =~= seq![v.queue()[0]] + v1.queue());
                        assert((seq![v.queue()[0]] + v1.queue()) + sent_list(v1, rest)
                            =~= seq![v.queue()[0]] + (v1.queue() + sent_list(v1, rest)));
                        assert(seq![v.queue()[0]] + (received_list(v1, rest) + apply_ops(
                            v1,
                            rest,
                        ).queue()) =~= (seq![v.queue()[0]] + received_list(v1, rest)) + apply_ops(
                            v1,
                            rest,
                        ).queue());
                    }
                } else {
                    assert(v.queue() + sent_list(v, ops) =~= received_list(v, ops) + apply_ops(
                        v,
                        ops,
                    ).queue()) by {
                        assert(v.queue() =~= Seq::<T>::empty());
                        assert(v1.queue() =~= Seq::<T>::empty());
                        assert(v.queue() + sent_list(v1, rest) =~= v1.queue() + sent_list(
                            v1,
                            rest,
                        ));
                    }
                }
            },
        }
    }
}

/// Law: on a channel that starts empty, the values received, in order, are
/// exactly the first received-many values sent, in order — first in, first
/// out, to the extent the receives go through.
pub proof fn lemma_received_prefix_of_sent<T>(v: ChannelView<T>, ops: Seq<ChanOp<T>>)
    requires
        v.wf(),
        v.is_clean(),
        v.filled_count() == 0,
    ensures
        received_list(v, ops) =~= sent_list(v, ops).take(received_list(v, ops).len() as int),
{
    lemma_fifo_trace(v, ops);
    assert(v.queue() =~= Seq::<T>::empty());
    let sent = sent_list(v, ops);
    let received = received_list(v, ops);
    let left = apply_ops(v, ops).queue();
    assert(sent =~= received + left);
    assert forall|i: int| 0 <= i < received.len() implies received[i] == sent.take(
        received.len() as int,
    )[i] by {
        assert(sent[i] == (received + left)[i]);
    }
}

} // verus!
