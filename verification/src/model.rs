//! Mathematical model of a broadcast channel.
//!
//! A channel state is a sequence of [`SubView`] records, one per subscriber
//! whose producer end (registry entry) or consumer end is still alive.  The
//! spec functions here define what each channel operation does to that
//! sequence; the executable code in [`crate::channel`] is verified against
//! them, and the lemmas in [`crate::laws`] are stated over them.

use vstd::prelude::*;

verus! {

/// One subscriber, as the specification sees it.
///
/// `registered` says the registry still holds this subscriber's queue
/// producer end; `open` says the consumer end (the receiving handle) is
/// still alive.  A record is kept only while at least one end lives.
pub ghost struct SubView<T> {
    /// The subscriber identifier, unique within one channel state.
    pub id: u64,
    /// The values broadcast to this subscriber and not yet received,
    /// oldest first.
    pub pending: Seq<T>,
    /// Whether the registry entry (queue producer end) is present.
    pub registered: bool,
    /// Whether the consumer end is still alive.
    pub open: bool,
}

/// A subscriber that can currently be delivered to: registered and with a
/// live consumer end.
pub open spec fn live<T>(s: SubView<T>) -> bool {
    s.registered && s.open
}

/// Channel-state invariant: identifiers are distinct, every record has at
/// least one live end, and a dead consumer end keeps no pending values.
pub open spec fn inv<T>(s: Seq<SubView<T>>) -> bool {
    &&& (forall|i: int, j: int|
        0 <= i < s.len() && 0 <= j < s.len() && i != j ==> s[i].id != s[j].id)
    &&& (forall|i: int| 0 <= i < s.len() ==> s[i].registered || s[i].open)
    &&& (forall|i: int| 0 <= i < s.len() ==> !s[i].open ==> s[i].pending.len() == 0)
}

/// Whether some subscriber record carries identifier `id`.
pub open spec fn has_sub<T>(s: Seq<SubView<T>>, id: u64) -> bool {
    exists|k: int| 0 <= k < s.len() && s[k].id == id
}

/// The position of the subscriber record carrying `id`.
pub open spec fn index_of<T>(s: Seq<SubView<T>>, id: u64) -> int {
    choose|k: int| 0 <= k < s.len() && s[k].id == id
}

/// The subscriber record carrying `id`.
pub open spec fn sub_of<T>(s: Seq<SubView<T>>, id: u64) -> SubView<T> {
    s[index_of(s, id)]
}

/// A subscriber as it starts out: empty queue, both ends alive.
pub open spec fn fresh_sub<T>(id: u64) -> SubView<T> {
    SubView { id, pending: Seq::empty(), registered: true, open: true }
}

/// Registering a fresh subscriber appends its record.
pub open spec fn subscribed<T>(s: Seq<SubView<T>>, id: u64) -> Seq<SubView<T>> {
    s.push(fresh_sub(id))
}

/// Removing the registry entry for `id`: the producer end dies; pending
/// values stay for the consumer to drain; the record disappears once the
/// consumer end is dead too.  A no-op when no entry for `id` is registered.
pub open spec fn deregistered<T>(s: Seq<SubView<T>>, id: u64) -> Seq<SubView<T>> {
    if has_sub(s, id) && sub_of(s, id).registered {
        let k = index_of(s, id);
        if s[k].open {
            s.update(k, SubView { registered: false, ..s[k] })
        } else {
            s.remove(k)
        }
    } else {
        s
    }
}

/// Destroying the consumer end for `id`: undelivered values are discarded;
/// the record disappears once the producer end is dead too.  A no-op when
/// the consumer end is already gone.
pub open spec fn consumer_closed<T>(s: Seq<SubView<T>>, id: u64) -> Seq<SubView<T>> {
    if has_sub(s, id) && sub_of(s, id).open {
        let k = index_of(s, id);
        if s[k].registered {
            s.update(k, SubView { open: false, pending: Seq::empty(), ..s[k] })
        } else {
            s.remove(k)
        }
    } else {
        s
    }
}

/// Destroying a whole subscriber (both ends at once): its record is removed.
/// A no-op when `id` has no record, so destruction is idempotent.
pub open spec fn unsubscribed<T>(s: Seq<SubView<T>>, id: u64) -> Seq<SubView<T>> {
    if has_sub(s, id) {
        s.remove(index_of(s, id))
    } else {
        s
    }
}

/// Receiving from `id`'s queue: the front value is popped.
pub open spec fn popped<T>(s: Seq<SubView<T>>, id: u64) -> Seq<SubView<T>> {
    let k = index_of(s, id);
    s.update(k, SubView { pending: s[k].pending.drop_first(), ..s[k] })
}

/// One broadcast step delivered `v` to subscriber `a`, turning it into `b`:
/// everything is unchanged but the queue, which gained one copy of `v` at
/// the back.
pub open spec fn delivered<T: Clone>(a: SubView<T>, b: SubView<T>, v: T) -> bool {
    &&& b.id == a.id
    &&& b.registered == a.registered
    &&& b.open == a.open
    &&& b.pending.len() == a.pending.len() + 1
    &&& b.pending == a.pending.push(b.pending.last())
    &&& cloned(v, b.pending.last())
}

/// What a broadcast of `v` does to one subscriber record: a copy of `v` is
/// appended for a live subscriber, and nothing changes otherwise.
pub open spec fn step_at<T: Clone>(a: SubView<T>, b: SubView<T>, v: T) -> bool {
    if live(a) {
        delivered(a, b, v)
    } else {
        b == a
    }
}

/// A completed broadcast of `v`: every live subscriber got one copy, every
/// other record is untouched.
pub open spec fn sent_ok<T: Clone>(a: Seq<SubView<T>>, b: Seq<SubView<T>>, v: T) -> bool {
    &&& b.len() == a.len()
    &&& forall|k: int| 0 <= k < a.len() ==> #[trigger] step_at(a[k], b[k], v)
}

/// A broadcast of `v` that stopped at position `j`, the first subscriber
/// still registered whose consumer end is gone: subscribers before `j` were
/// delivered to as in a completed broadcast, and no record from `j` on was
/// touched.
pub open spec fn sent_blocked<T: Clone>(
    a: Seq<SubView<T>>,
    b: Seq<SubView<T>>,
    v: T,
    j: int,
) -> bool {
    &&& b.len() == a.len()
    &&& 0 <= j < a.len()
    &&& a[j].registered && !a[j].open
    &&& (forall|k: int| 0 <= k < j ==> (#[trigger] a[k].registered ==> a[k].open))
    &&& (forall|k: int| 0 <= k < j ==> #[trigger] step_at(a[k], b[k], v))
    &&& (forall|k: int| j <= k < a.len() ==> b[k] == a[k])
}

/// Whether every registered subscriber still has a live consumer end: the
/// condition under which a broadcast reaches everyone and reports success.
pub open spec fn all_consumers_open<T>(s: Seq<SubView<T>>) -> bool {
    forall|i: int| 0 <= i < s.len() ==> (#[trigger] s[i].registered ==> s[i].open)
}

/// The record `index_of` picks does carry the identifier looked up.
pub proof fn lemma_index_of<T>(s: Seq<SubView<T>>, id: u64)
    requires
        has_sub(s, id),
    ensures
        0 <= index_of(s, id) < s.len(),
        s[index_of(s, id)].id == id,
{
}

/// With distinct identifiers, any position holding `id` is the one
/// `index_of` picks.
pub proof fn lemma_index_unique<T>(s: Seq<SubView<T>>, id: u64, k: int)
    requires
        inv(s),
        0 <= k < s.len(),
        s[k].id == id,
    ensures
        has_sub(s, id),
        index_of(s, id) == k,
        sub_of(s, id) == s[k],
{
    assert(has_sub(s, id));
    lemma_index_of(s, id);
}

} // verus!
