//! The channel's global guarantees, proved from the contracts in
//! [`crate::channel`].
//!
//! Each lemma is stated over the model in [`crate::model`]: the states it
//! relates are exactly the ones the executable methods' `ensures` clauses
//! describe, so the lemmas apply to every run of the channel.

use vstd::prelude::*;

use crate::model::SubView;
use crate::model::all_consumers_open;
use crate::model::consumer_closed;
use crate::model::deregistered;
use crate::model::fresh_sub;
use crate::model::has_sub;
use crate::model::index_of;
use crate::model::inv;
use crate::model::lemma_index_of;
use crate::model::lemma_index_unique;
use crate::model::live;
use crate::model::sent_ok;
use crate::model::step_at;
use crate::model::sub_of;
use crate::model::subscribed;
use crate::model::unsubscribed;

verus! {

/// A completed broadcast changes no subscriber's identity or liveness:
/// positions, identifiers and both end-of-life flags are preserved, and the
/// state stays well formed.
pub proof fn lemma_sent_ok_frame<T: Clone>(a: Seq<SubView<T>>, b: Seq<SubView<T>>, v: T)
    requires
        inv(a),
        sent_ok(a, b, v),
    ensures
        inv(b),
        forall|k: int| 0 <= k < a.len() ==> (#[trigger] b[k]).id == a[k].id,
        forall|k: int| 0 <= k < a.len() ==> (#[trigger] b[k]).registered == a[k].registered,
        forall|k: int| 0 <= k < a.len() ==> (#[trigger] b[k]).open == a[k].open,
{
    assert forall|k: int| 0 <= k < a.len() implies (#[trigger] b[k]).id == a[k].id
        && b[k].registered == a[k].registered && b[k].open == a[k].open
        && (!b[k].open ==> b[k].pending.len() == 0) by {
        assert(step_at(a[k], b[k], v));
    }
}

/// Removing one subscriber record keeps the state well formed.
pub proof fn lemma_remove_preserves_inv<T>(s: Seq<SubView<T>>, k: int)
    requires
        inv(s),
        0 <= k < s.len(),
    ensures
        inv(s.remove(k)),
{
    let u = s.remove(k);
    assert forall|i: int, j: int|
        0 <= i < u.len() && 0 <= j < u.len() && i != j implies u[i].id != u[j].id by {
        let i0 = if i < k { i } else { i + 1 };
        let j0 = if j < k { j } else { j + 1 };
        assert(u[i] == s[i0]);
        assert(u[j] == s[j0]);
    }
    assert forall|i: int| 0 <= i < u.len() implies (u[i].registered || u[i].open)
        && (!u[i].open ==> u[i].pending.len() == 0) by {
        let i0 = if i < k { i } else { i + 1 };
        assert(u[i] == s[i0]);
    }
}

/// After removing the record for `id`, no record carries `id` any more,
/// every other subscriber keeps its record unchanged, and no new
/// identifiers appear.
pub proof fn lemma_unsubscribed<T>(s: Seq<SubView<T>>, id: u64)
    requires
        inv(s),
    ensures
        inv(unsubscribed(s, id)),
        !has_sub(unsubscribed(s, id), id),
        forall|id2: u64|
            id2 != id ==> (#[trigger] has_sub(unsubscribed(s, id), id2)) == has_sub(s, id2),
        forall|id2: u64|
            id2 != id && has_sub(s, id2) ==> #[trigger] sub_of(unsubscribed(s, id), id2) == sub_of(
                s,
                id2,
            ),
{
    let u = unsubscribed(s, id);
    if !has_sub(s, id) {
        assert(u == s);
        assert forall|id2: u64| id2 != id implies (#[trigger] has_sub(u, id2)) == has_sub(s, id2) by {}
    } else {
        let k = index_of(s, id);
        lemma_index_of(s, id);
        assert(u == s.remove(k));
        lemma_remove_preserves_inv(s, k);
        assert forall|i: int| 0 <= i < u.len() implies u[i].id != id by {
            let i0 = if i < k { i } else { i + 1 };
            assert(u[i] == s[i0]);
        }
        assert(!has_sub(u, id));
        assert forall|id2: u64| id2 != id implies (#[trigger] has_sub(u, id2)) == has_sub(s, id2) by {
            if has_sub(s, id2) {
                let k2 = index_of(s, id2);
                lemma_index_of(s, id2);
                let pos = if k2 < k { k2 } else { k2 - 1 };
                assert(u[pos] == s[k2]);
                assert(has_sub(u, id2));
            }
            if has_sub(u, id2) {
                let k2 = choose|i: int| 0 <= i < u.len() && u[i].id == id2;
                let i0 = if k2 < k { k2 } else { k2 + 1 };
                assert(u[k2] == s[i0]);
                assert(has_sub(s, id2));
            }
        }
        assert forall|id2: u64| id2 != id && has_sub(s, id2) implies #[trigger] sub_of(u, id2)
            == sub_of(s, id2) by {
            let k2 = index_of(s, id2);
            lemma_index_of(s, id2);
            let pos = if k2 < k { k2 } else { k2 - 1 };
            assert(u[pos] == s[k2]);
            lemma_index_unique(u, id2, pos);
        }
    }
}

/// Fan-out duplication: one broadcast delivers an independent copy of the
/// value to each of two distinct live subscribers — cloning a receiving
/// handle duplicates the stream rather than splitting it.
pub proof fn lemma_fan_out_duplication<T: Clone>(
    a: Seq<SubView<T>>,
    b: Seq<SubView<T>>,
    v: T,
    id1: u64,
    id2: u64,
)
    requires
        inv(a),
        id1 != id2,
        has_sub(a, id1) && live(sub_of(a, id1)),
        has_sub(a, id2) && live(sub_of(a, id2)),
        sent_ok(a, b, v),
    ensures
        has_sub(b, id1) && has_sub(b, id2),
        sub_of(b, id1).pending == sub_of(a, id1).pending.push(sub_of(b, id1).pending.last()),
        cloned(v, sub_of(b, id1).pending.last()),
        sub_of(b, id2).pending == sub_of(a, id2).pending.push(sub_of(b, id2).pending.last()),
        cloned(v, sub_of(b, id2).pending.last()),
{
    lemma_sent_ok_frame(a, b, v);
    let k1 = index_of(a, id1);
    lemma_index_of(a, id1);
    assert(step_at(a[k1], b[k1], v));
    lemma_index_unique(b, id1, k1);
    let k2 = index_of(a, id2);
    lemma_index_of(a, id2);
    assert(step_at(a[k2], b[k2], v));
    lemma_index_unique(b, id2, k2);
}

/// Post-drop exclusion: destroy subscriber `id2`, then broadcast.  The
/// broadcast is owed success (no error arises from the destroyed
/// subscriber's absence), it still delivers to the surviving subscriber
/// `id1`, and no record of `id2` exists for it to touch.
pub proof fn lemma_post_drop_exclusion<T: Clone>(
    a: Seq<SubView<T>>,
    c: Seq<SubView<T>>,
    v: T,
    id1: u64,
    id2: u64,
)
    requires
        inv(a),
        id1 != id2,
        has_sub(a, id1) && live(sub_of(a, id1)),
        all_consumers_open(a),
        sent_ok(unsubscribed(a, id2), c, v),
    ensures
        all_consumers_open(unsubscribed(a, id2)),
        !has_sub(unsubscribed(a, id2), id2),
        !has_sub(c, id2),
        has_sub(c, id1),
        sub_of(c, id1).pending == sub_of(a, id1).pending.push(sub_of(c, id1).pending.last()),
        cloned(v, sub_of(c, id1).pending.last()),
{
    let b = unsubscribed(a, id2);
    lemma_unsubscribed(a, id2);
    assert forall|i: int| 0 <= i < b.len() && #[trigger] b[i].registered implies b[i].open by {
        if has_sub(a, id2) {
            let k = index_of(a, id2);
            let i0 = if i < k { i } else { i + 1 };
            assert(b[i] == a[i0]);
        }
    }
    lemma_sent_ok_frame(b, c, v);
    let k1 = index_of(b, id1);
    lemma_index_of(b, id1);
    assert(step_at(b[k1], c[k1], v));
    lemma_index_unique(c, id1, k1);
    assert(sub_of(b, id1) == sub_of(a, id1));
    assert forall|i: int| 0 <= i < c.len() implies c[i].id != id2 by {
        assert(step_at(b[i], c[i], v));
    }
}

/// FIFO per subscriber: two successive broadcasts append their copies to a
/// live subscriber's queue in exactly the order they were sent, behind
/// everything already pending.
pub proof fn lemma_fifo_per_subscriber<T: Clone>(
    a: Seq<SubView<T>>,
    b: Seq<SubView<T>>,
    c: Seq<SubView<T>>,
    v1: T,
    v2: T,
    id: u64,
)
    requires
        inv(a),
        has_sub(a, id) && live(sub_of(a, id)),
        sent_ok(a, b, v1),
        sent_ok(b, c, v2),
    ensures
        has_sub(b, id) && has_sub(c, id),
        sub_of(c, id).pending == sub_of(a, id).pending.push(sub_of(b, id).pending.last()).push(
            sub_of(c, id).pending.last(),
        ),
        cloned(v1, sub_of(b, id).pending.last()),
        cloned(v2, sub_of(c, id).pending.last()),
{
    lemma_sent_ok_frame(a, b, v1);
    let k = index_of(a, id);
    lemma_index_of(a, id);
    assert(step_at(a[k], b[k], v1));
    lemma_index_unique(b, id, k);
    lemma_sent_ok_frame(b, c, v2);
    assert(step_at(b[k], c[k], v2));
    lemma_index_unique(c, id, k);
    assert(sub_of(c, id).pending == sub_of(a, id).pending.push(sub_of(b, id).pending.last()).push(
        sub_of(c, id).pending.last(),
    ));
}

/// Broadcast count: one completed broadcast grows every live subscriber's
/// queue by exactly one value and leaves every other record untouched —
/// after `n` broadcasts a subscriber that was live throughout and never
/// received holds exactly `n` more values than before.
pub proof fn lemma_broadcast_count<T: Clone>(a: Seq<SubView<T>>, b: Seq<SubView<T>>, v: T)
    requires
        inv(a),
        sent_ok(a, b, v),
    ensures
        b.len() == a.len(),
        forall|k: int|
            0 <= k < a.len() && live(a[k]) ==> (#[trigger] b[k]).pending.len() == a[k].pending.len()
                + 1,
        forall|k: int| 0 <= k < a.len() && !live(a[k]) ==> (#[trigger] b[k]) == a[k],
{
    assert forall|k: int| 0 <= k < a.len() implies (live(a[k]) ==> (#[trigger] b[k]).pending.len()
        == a[k].pending.len() + 1) && (!live(a[k]) ==> b[k] == a[k]) by {
        assert(step_at(a[k], b[k], v));
    }
}

/// A run of completed broadcasts: `states` are the successive channel
/// states, `vs` the values sent, with `states[i]` turning into
/// `states[i + 1]` by a completed broadcast of `vs[i]`.
pub open spec fn sent_chain<T: Clone>(states: Seq<Seq<SubView<T>>>, vs: Seq<T>) -> bool {
    &&& states.len() == vs.len() + 1
    &&& forall|i: int| 0 <= i < vs.len() ==> sent_ok(states[i], states[i + 1], #[trigger] vs[i])
}

/// FIFO per subscriber, in general: a run of completed broadcasts appends
/// to a live subscriber's queue exactly one copy of each value sent, in
/// the order the sends happened, behind everything already pending.  In
/// particular the queue grows by exactly the number of sends.
pub proof fn lemma_fifo_chain<T: Clone>(states: Seq<Seq<SubView<T>>>, vs: Seq<T>, id: u64)
    requires
        states.len() >= 1,
        inv(states[0]),
        has_sub(states[0], id) && live(sub_of(states[0], id)),
        sent_chain(states, vs),
    ensures
        inv(states.last()),
        has_sub(states.last(), id) && live(sub_of(states.last(), id)),
        index_of(states.last(), id) == index_of(states[0], id),
        exists|ws: Seq<T>|
            #![auto]
            ws.len() == vs.len() && sub_of(states.last(), id).pending == sub_of(
                states[0],
                id,
            ).pending + ws && (forall|i: int| 0 <= i < vs.len() ==> cloned(vs[i], ws[i])),
    decreases vs.len(),
{
    let k = index_of(states[0], id);
    lemma_index_of(states[0], id);
    if vs.len() == 0 {
        let ws = Seq::<T>::empty();
        assert(sub_of(states[0], id).pending + ws =~= sub_of(states[0], id).pending);
    } else {
        let a = states[0];
        let b = states[1];
        assert(sent_ok(states[0], states[1], vs[0]));
        lemma_sent_ok_frame(a, b, vs[0]);
        assert(step_at(a[k], b[k], vs[0]));
        lemma_index_unique(b, id, k);
        let w0 = b[k].pending.last();
        let tail_states = states.drop_first();
        let tail_vs = vs.drop_first();
        assert(tail_states[0] == b);
        assert forall|i: int| 0 <= i < tail_vs.len() implies sent_ok(
            tail_states[i],
            tail_states[i + 1],
            #[trigger] tail_vs[i],
        ) by {
            assert(sent_ok(states[i + 1], states[(i + 1) + 1], vs[i + 1]));
            assert(tail_states[i] == states[i + 1]);
            assert(tail_states[i + 1] == states[i + 2]);
            assert(tail_vs[i] == vs[i + 1]);
        }
        lemma_fifo_chain(tail_states, tail_vs, id);
        assert(tail_states.last() == states.last());
        let ws_tail = choose|ws: Seq<T>|
            #![auto]
            ws.len() == tail_vs.len() && sub_of(tail_states.last(), id).pending == sub_of(
                b,
                id,
            ).pending + ws && (forall|i: int| 0 <= i < tail_vs.len() ==> cloned(tail_vs[i], ws[i]));
        let ws = seq![w0] + ws_tail;
        assert(sub_of(b, id).pending == sub_of(a, id).pending.push(w0));
        assert(sub_of(a, id).pending.push(w0) + ws_tail =~= sub_of(a, id).pending + ws);
        assert forall|i: int| 0 <= i < vs.len() implies cloned(vs[i], ws[i]) by {
            if i > 0 {
                assert(cloned(tail_vs[i - 1], ws_tail[i - 1]));
                assert(ws[i] == ws_tail[i - 1]);
            }
        }
        assert(ws.len() == vs.len() && sub_of(states.last(), id).pending == sub_of(
            states[0],
            id,
        ).pending + ws && (forall|i: int| 0 <= i < vs.len() ==> cloned(vs[i], ws[i])));
    }
}

/// A subscriber registered before a broadcast begins is guaranteed that
/// broadcast: its first pending value is a copy of the first value sent
/// after it subscribed.
pub proof fn lemma_subscribe_then_send<T: Clone>(
    a: Seq<SubView<T>>,
    c: Seq<SubView<T>>,
    v: T,
    id: u64,
)
    requires
        inv(a),
        !has_sub(a, id),
        sent_ok(subscribed(a, id), c, v),
    ensures
        has_sub(c, id),
        sub_of(c, id).pending.len() == 1,
        cloned(v, sub_of(c, id).pending[0]),
{
    let b = subscribed(a, id);
    let k = a.len() as int;
    assert(b[k] == fresh_sub::<T>(id));
    assert forall|i: int, j: int|
        0 <= i < b.len() && 0 <= j < b.len() && i != j implies b[i].id != b[j].id by {
        if i < k && j < k {
        } else if i == k {
            assert(b[j] == a[j]);
            assert(!has_sub(a, id) ==> a[j].id != id);
        } else if j == k {
            assert(b[i] == a[i]);
        }
    }
    assert(inv(b));
    lemma_sent_ok_frame(b, c, v);
    assert(step_at(b[k], c[k], v));
    lemma_index_unique(c, id, k);
    assert(sub_of(c, id).pending =~= seq![sub_of(c, id).pending.last()]);
}

/// Destroying a subscriber is the same as removing its registry entry and
/// then destroying its consumer end: the one-step removal a dropped
/// receiving handle performs agrees with the two registry operations taken
/// separately, whatever state the subscriber's two ends are in.
pub proof fn lemma_destroy_decomposes<T>(s: Seq<SubView<T>>, id: u64)
    requires
        inv(s),
    ensures
        consumer_closed(deregistered(s, id), id) == unsubscribed(s, id),
{
    if has_sub(s, id) {
        let k = index_of(s, id);
        lemma_index_of(s, id);
        let e = s[k];
        if e.registered {
            if e.open {
                let s1 = s.update(k, SubView { registered: false, ..e });
                assert forall|i: int, j: int|
                    0 <= i < s1.len() && 0 <= j < s1.len() && i != j implies s1[i].id
                    != s1[j].id by {}
                assert(inv(s1));
                lemma_index_unique(s1, id, k);
                assert(consumer_closed(s1, id) == s1.remove(k));
                assert(s1.remove(k) =~= s.remove(k));
            } else {
                let s1 = s.remove(k);
                lemma_remove_preserves_inv(s, k);
                assert forall|i: int| 0 <= i < s1.len() implies s1[i].id != id by {
                    let i0 = if i < k { i } else { i + 1 };
                    assert(s1[i] == s[i0]);
                }
                assert(!has_sub(s1, id));
                assert(consumer_closed(s1, id) == s1);
            }
        } else {
            assert(deregistered(s, id) == s);
            assert(consumer_closed(s, id) == s.remove(k));
        }
    }
}

/// Idempotent destruction: destroying a subscriber a second time changes
/// nothing, and destroying it never disturbs any other subscriber's
/// record.
pub proof fn lemma_destroy_idempotent<T>(s: Seq<SubView<T>>, id: u64)
    requires
        inv(s),
    ensures
        inv(unsubscribed(s, id)),
        unsubscribed(unsubscribed(s, id), id) == unsubscribed(s, id),
        forall|id2: u64|
            id2 != id ==> (#[trigger] has_sub(unsubscribed(s, id), id2)) == has_sub(s, id2),
        forall|id2: u64|
            id2 != id && has_sub(s, id2) ==> #[trigger] sub_of(unsubscribed(s, id), id2) == sub_of(
                s,
                id2,
            ),
{
    lemma_unsubscribed(s, id);
}

} // verus!
