//! The executable broadcast channel.
//!
//! [`Channel`] owns the subscriber registry and every subscriber's FIFO
//! queue, and is the one shared resource of a channel; handle types that
//! share it across threads keep it behind their own lock and call the
//! methods here for every decision.  Each method's contract says exactly
//! what it does to the channel's model, a `Seq` of [`SubView`] records.

use vstd::prelude::*;

use crate::model::SubView;
use crate::model::all_consumers_open;
use crate::model::consumer_closed;
use crate::model::delivered;
use crate::model::deregistered;
use crate::model::has_sub;
use crate::model::inv;
use crate::model::lemma_index_unique;
use crate::model::live;
use crate::model::popped;
use crate::model::sent_blocked;
use crate::model::sent_ok;
use crate::model::step_at;
use crate::model::sub_of;
use crate::model::subscribed;
use crate::model::unsubscribed;

verus! {

/// Returned by [`Channel::send`] when some registered subscriber's consumer
/// end is gone; it carries the value back to the caller.
#[derive(Debug)]
pub struct SendError<T>(pub T);

/// Returned by [`Channel::try_recv`] when nothing can be received right now.
#[derive(Clone, Copy, Debug, PartialEq, Eq, Structural)]
pub enum TryRecvError {
    /// The queue is empty but its producer end is still registered; a value
    /// may arrive later.
    Empty,
    /// The queue is empty and its producer end is gone; no value will ever
    /// arrive.
    Disconnected,
}

/// The error of a blocking receive: the queue is empty and its producer end
/// is gone.  Receiving handles built on top of [`Channel::try_recv`] report
/// it once [`TryRecvError::Disconnected`] is observed.
#[derive(Clone, Copy, Debug, PartialEq, Eq, Structural)]
pub struct RecvError;

/// One subscriber: its identifier, its pending queue (oldest value first),
/// and which of its two ends are still alive.
struct Slot<T> {
    id: u64,
    pending: Vec<T>,
    registered: bool,
    open: bool,
}

impl<T> View for Slot<T> {
    type V = SubView<T>;

    closed spec fn view(&self) -> SubView<T> {
        SubView {
            id: self.id,
            pending: self.pending@,
            registered: self.registered,
            open: self.open,
        }
    }
}

/// A broadcast channel: the subscriber registry together with every
/// subscriber's queue.
///
/// Identifiers are minted from a counter that only grows, so an identifier
/// is never reused and two simultaneously registered subscribers never
/// collide — the registry's central invariant.
pub struct Channel<T> {
    slots: Vec<Slot<T>>,
    next_id: u64,
}

impl<T> View for Channel<T> {
    type V = Seq<SubView<T>>;

    closed spec fn view(&self) -> Seq<SubView<T>> {
        Seq::new(self.slots@.len(), |i: int| self.slots@[i]@)
    }
}

impl<T> Channel<T> {
    /// How many identifiers this channel has minted so far.
    pub closed spec fn minted(&self) -> u64 {
        self.next_id
    }

    /// Every subscriber identifier was minted by this channel.
    pub closed spec fn ids_bounded(&self) -> bool {
        forall|k: int| 0 <= k < self@.len() ==> (#[trigger] self@[k].id) < self.next_id
    }

    /// A well-formed channel: the model invariant holds and identifiers do
    /// not run ahead of the mint counter.
    pub open spec fn wf(&self) -> bool {
        inv(self@) && self.ids_bounded()
    }

    /// Whether a fresh identifier can still be minted.
    pub open spec fn can_mint(&self) -> bool {
        self.minted() < u64::MAX
    }

    /// Whether a fresh subscriber can still be registered; callers outside
    /// verified code test this before [`Channel::subscribe`].
    pub fn has_fresh_ids(&self) -> (r: bool)
        ensures
            r == self.can_mint(),
    {
        self.next_id < u64::MAX
    }

    /// Registers a fresh subscriber: a new empty queue under an identifier
    /// no current subscriber carries, with both ends alive.
    pub fn subscribe(&mut self) -> (id: u64)
        requires
            old(self).wf(),
            old(self).can_mint(),
        ensures
            final(self).wf(),
            final(self)@ == subscribed(old(self)@, id),
            !has_sub(old(self)@, id),
            final(self).minted() == old(self).minted() + 1,
    {
        let id = self.next_id;
        self.next_id = self.next_id + 1;
        self.slots.push(Slot { id, pending: Vec::new(), registered: true, open: true });
        proof {
            assert(self@ =~= subscribed(old(self)@, id));
        }
        id
    }
}

impl<T> Channel<T> {
    /// Where the subscriber carrying `id` sits, if anywhere.
    fn position_of(&self, id: u64) -> (r: Option<usize>)
        ensures
            (match r {
                Some(i) => i < self@.len() && self@[i as int].id == id,
                None => !has_sub(self@, id),
            }),
    {
        let n = self.slots.len();
        let mut i: usize = 0;
        while i < n
            invariant
                n == self.slots.len(),
                i <= n,
                forall|j: int| 0 <= j < i ==> self@[j].id != id,
            decreases n - i,
        {
            if self.slots[i].id == id {
                return Some(i);
            }
            i = i + 1;
        }
        None
    }

    /// Removes the registry entry for `id`: future broadcasts no longer
    /// reach this subscriber, while values already queued stay receivable.
    /// A no-op when no entry for `id` is registered, so removal is safe to
    /// repeat.
    pub fn deregister(&mut self, id: u64)
        requires
            old(self).wf(),
        ensures
            final(self).wf(),
            final(self)@ == deregistered(old(self)@, id),
    {
        let ghost a = self@;
        match self.position_of(id) {
            None => {},
            Some(i) => {
                proof {
                    lemma_index_unique(a, id, i as int);
                }
                if self.slots[i].registered {
                    if self.slots[i].open {
                        let mut s = self.slots.remove(i);
                        s.registered = false;
                        self.slots.insert(i, s);
                        proof {
                            assert(self@ =~= a.update(
                                i as int,
                                (SubView { registered: false, ..a[i as int] }),
                            ));
                        }
                    } else {
                        let _dead = self.slots.remove(i);
                        proof {
                            assert(self@ =~= a.remove(i as int));
                        }
                    }
                }
            },
        }
    }

    /// Destroys the consumer end for `id`: values still queued are
    /// discarded, and a broadcast that reaches this subscriber while its
    /// registry entry is still present fails.  A no-op when the consumer
    /// end is already gone.
    pub fn close(&mut self, id: u64)
        requires
            old(self).wf(),
        ensures
            final(self).wf(),
            final(self)@ == consumer_closed(old(self)@, id),
    {
        let ghost a = self@;
        match self.position_of(id) {
            None => {},
            Some(i) => {
                proof {
                    lemma_index_unique(a, id, i as int);
                }
                if self.slots[i].open {
                    if self.slots[i].registered {
                        let mut s = self.slots.remove(i);
                        s.open = false;
                        s.pending.clear();
                        self.slots.insert(i, s);
                        proof {
                            assert(self@ =~= a.update(
                                i as int,
                                (SubView { open: false, pending: Seq::empty(), ..a[i as int] }),
                            ));
                        }
                    } else {
                        let _dead = self.slots.remove(i);
                        proof {
                            assert(self@ =~= a.remove(i as int));
                        }
                    }
                }
            },
        }
    }

    /// Destroys the subscriber `id` altogether: registry entry, queue and
    /// consumer end.  This is what dropping a receiving handle does, and it
    /// is idempotent: a second call under the same identifier changes
    /// nothing.
    pub fn unsubscribe(&mut self, id: u64)
        requires
            old(self).wf(),
        ensures
            final(self).wf(),
            final(self)@ == unsubscribed(old(self)@, id),
    {
        let ghost a = self@;
        match self.position_of(id) {
            None => {},
            Some(i) => {
                proof {
                    lemma_index_unique(a, id, i as int);
                }
                let _dead = self.slots.remove(i);
                proof {
                    assert(self@ =~= a.remove(i as int));
                }
            },
        }
    }

    /// Whether the registry currently holds an entry for `id`, so that
    /// broadcasts still try to deliver to it.
    pub fn is_registered(&self, id: u64) -> (r: bool)
        requires
            self.wf(),
        ensures
            r == (has_sub(self@, id) && sub_of(self@, id).registered),
    {
        match self.position_of(id) {
            None => false,
            Some(i) => {
                proof {
                    lemma_index_unique(self@, id, i as int);
                }
                self.slots[i].registered
            },
        }
    }

    /// How many broadcast values subscriber `id` has not yet received.
    pub fn pending_len(&self, id: u64) -> (n: usize)
        requires
            self.wf(),
        ensures
            has_sub(self@, id) ==> n == sub_of(self@, id).pending.len(),
            !has_sub(self@, id) ==> n == 0,
    {
        match self.position_of(id) {
            None => 0,
            Some(i) => {
                proof {
                    lemma_index_unique(self@, id, i as int);
                }
                self.slots[i].pending.len()
            },
        }
    }

    /// Receives the oldest pending value of subscriber `id` without
    /// blocking.
    ///
    /// Returns [`TryRecvError::Empty`] when the queue is empty but still
    /// registered, and [`TryRecvError::Disconnected`] when the queue is
    /// empty with its producer end gone — or when `id` has no record at
    /// all, which a caller holding a live handle never observes.
    pub fn try_recv(&mut self, id: u64) -> (r: Result<T, TryRecvError>)
        requires
            old(self).wf(),
        ensures
            final(self).wf(),
            ({
                let a = old(self)@;
                if has_sub(a, id) && sub_of(a, id).pending.len() > 0 {
                    r == Ok::<T, TryRecvError>(sub_of(a, id).pending[0])
                        && final(self)@ == popped(a, id)
                } else if has_sub(a, id) && sub_of(a, id).registered && sub_of(a, id).open {
                    r == Err::<T, TryRecvError>(TryRecvError::Empty) && final(self)@ == a
                } else {
                    r == Err::<T, TryRecvError>(TryRecvError::Disconnected) && final(self)@ == a
                }
            }),
    {
        let ghost a = self@;
        match self.position_of(id) {
            None => Err(TryRecvError::Disconnected),
            Some(i) => {
                proof {
                    lemma_index_unique(a, id, i as int);
                }
                if self.slots[i].pending.len() > 0 {
                    let mut s = self.slots.remove(i);
                    let x = s.pending.remove(0);
                    self.slots.insert(i, s);
                    proof {
                        assert(a[i as int].pending.remove(0) =~= a[i as int].pending.drop_first());
                        assert(self@ =~= popped(a, id));
                    }
                    Ok(x)
                } else if self.slots[i].registered && self.slots[i].open {
                    Err(TryRecvError::Empty)
                } else {
                    Err(TryRecvError::Disconnected)
                }
            },
        }
    }
}

impl<T: Clone> Channel<T> {
    /// Broadcasts `v`: walks the registry in subscription order and appends
    /// one copy of `v` to each registered subscriber's queue.
    ///
    /// Succeeds exactly when every registered subscriber still has a live
    /// consumer end.  On the first registered subscriber whose consumer end
    /// is gone the broadcast stops and hands `v` back, leaving the copies
    /// already delivered in place and every later subscriber untouched.
    pub fn send(&mut self, v: T) -> (r: Result<(), SendError<T>>)
        requires
            old(self).wf(),
        ensures
            final(self).wf(),
            r is Ok <==> all_consumers_open(old(self)@),
            r is Ok ==> sent_ok(old(self)@, final(self)@, v),
            (r matches Err(e) ==> cloned(v, e.0) && exists|j: int|
                sent_blocked(old(self)@, final(self)@, v, j)),
    {
        let ghost a = self@;
        let n = self.slots.len();
        let mut i: usize = 0;
        while i < n
            invariant
                old(self).wf(),
                a == old(self)@,
                n == self.slots.len(),
                i <= n,
                self.wf(),
                self.next_id == old(self).next_id,
                self@.len() == a.len(),
                forall|k: int| i <= k < a.len() ==> self@[k] == a[k],
                forall|k: int| 0 <= k < i ==> #[trigger] step_at(a[k], self@[k], v),
                forall|k: int| 0 <= k < i ==> (#[trigger] a[k].registered ==> a[k].open),
            decreases n - i,
        {
            if self.slots[i].registered {
                if !self.slots[i].open {
                    proof {
                        assert(sent_blocked(a, self@, v, i as int));
                        assert(!all_consumers_open(a));
                    }
                    return Err(SendError(v));
                }
                let w = v.clone();
                let ghost pre = self@;
                let mut s = self.slots.remove(i);
                s.pending.push(w);
                self.slots.insert(i, s);
                proof {
                    assert(self@ =~= pre.update(
                        i as int,
                        (SubView { pending: a[i as int].pending.push(w), ..a[i as int] }),
                    ));
                    assert(delivered(a[i as int], self@[i as int], v));
                }
            }
            i = i + 1;
        }
        proof {
            assert(sent_ok(a, self@, v));
        }
        Ok(())
    }
}

/// Creates a channel with exactly one initial subscriber and returns the
/// channel together with that subscriber's identifier.
pub fn new<T>() -> (r: (Channel<T>, u64))
    ensures
        r.0.wf(),
        r.0.minted() == 1,
        r.0@ == subscribed(Seq::<SubView<T>>::empty(), r.1),
{
    let mut channel = Channel { slots: Vec::new(), next_id: 0 };
    proof {
        assert(channel@ =~= Seq::<SubView<T>>::empty());
    }
    let id = channel.subscribe();
    (channel, id)
}

} // verus!
