//! The bounded, ordered mailbox that carries work items from producers to
//! the single worker.
//!
//! The buffer has a fixed capacity chosen at construction. Once it is full a
//! submission is refused with [`SubmitOutcome::MustWait`]: the caller must
//! suspend and retry after a take, and no item is ever dropped, overwritten
//! or reordered. The consumer always removes the oldest item, so dispatch
//! order equals submission order.

use vstd::prelude::*;

use crate::work::WorkItem;

verus! {

/// What `submit` did with the offered item.
#[derive(PartialEq, Eq, Structural, Clone, Copy, Debug)]
pub enum SubmitOutcome {
    /// The item is now buffered, behind everything submitted before it.
    Enqueued,
    /// The buffer is at capacity; the producer must suspend and offer the
    /// item again after the consumer has taken something.
    MustWait,
}

/// The state a mailbox reaches when an item is offered to `s`: appended when
/// there is room, otherwise unchanged (never dropped or overwritten).
pub open spec fn submit_spec(s: Seq<WorkItem>, capacity: nat, item: WorkItem) -> Seq<WorkItem> {
    if s.len() < capacity {
        s.push(item)
    } else {
        s
    }
}

/// What one take returns out of `s`: the oldest item, if any.
pub open spec fn take_front(s: Seq<WorkItem>) -> Option<WorkItem> {
    if s.len() > 0 {
        Some(s[0])
    } else {
        None
    }
}

/// The state a mailbox holding `s` reaches after one take.
pub open spec fn take_rest(s: Seq<WorkItem>) -> Seq<WorkItem> {
    if s.len() > 0 {
        s.drop_first()
    } else {
        s
    }
}

/// The state reached when the items of `pending` are offered in order to a
/// mailbox holding `s`, each offer happening immediately (a full buffer
/// refuses the offer and the item is not retried here).
pub open spec fn submit_all(s: Seq<WorkItem>, capacity: nat, pending: Seq<WorkItem>) -> Seq<
    WorkItem,
>
    decreases pending.len(),
{
    if pending.len() == 0 {
        s
    } else {
        submit_all(submit_spec(s, capacity, pending[0]), capacity, pending.drop_first())
    }
}

/// The items that `n` successive takes remove from a mailbox holding `s`,
/// in the order they come out.
pub open spec fn drain_spec(s: Seq<WorkItem>, n: nat) -> Seq<WorkItem>
    decreases n,
{
    if n == 0 {
        Seq::empty()
    } else {
        match take_front(s) {
            Some(item) => seq![item] + drain_spec(take_rest(s), (n - 1) as nat),
            None => Seq::empty(),
        }
    }
}

/// A bounded multi-producer, single-consumer buffer of work items. The view
/// is the buffered sequence, oldest first.
pub struct Mailbox {
    buffer: Vec<WorkItem>,
    capacity: usize,
}

impl View for Mailbox {
    type V = Seq<WorkItem>;

    closed spec fn view(&self) -> Seq<WorkItem> {
        self.buffer@
    }
}

impl Mailbox {
    /// The fixed capacity the mailbox was created with; it never changes.
    pub closed spec fn cap(&self) -> nat {
        self.capacity as nat
    }

    pub open spec fn well_formed(&self) -> bool {
        self@.len() <= self.cap() && self.cap() >= 1
    }

    /// An empty mailbox that will buffer at most `capacity` items.
    pub fn new(capacity: usize) -> (m: Mailbox)
        requires
            capacity >= 1,
        ensures
            m.well_formed(),
            m@ == Seq::<WorkItem>::empty(),
            m.cap() == capacity as nat,
    {
        Mailbox { buffer: Vec::new(), capacity }
    }

    /// How many items are buffered right now.
    pub fn len(&self) -> (n: usize)
        ensures
            n == self@.len(),
    {
        self.buffer.len()
    }

    /// The fixed capacity.
    pub fn capacity(&self) -> (c: usize)
        ensures
            c == self.cap(),
    {
        self.capacity
    }

    /// Offer one item. It is appended behind every earlier item when there
    /// is room; a full mailbox is left exactly as it was and the caller is
    /// told to wait. Nothing is ever dropped or reordered.
    pub fn submit(&mut self, item: WorkItem) -> (r: SubmitOutcome)
        requires
            old(self).well_formed(),
        ensures
            final(self).well_formed(),
            final(self).cap() == old(self).cap(),
            final(self)@ == submit_spec(old(self)@, old(self).cap(), item),
            r == SubmitOutcome::Enqueued <==> old(self)@.len() < old(self).cap(),
            r == SubmitOutcome::MustWait <==> old(self)@.len() >= old(self).cap(),
    {
        if self.buffer.len() < self.capacity {
            self.buffer.push(item);
            SubmitOutcome::Enqueued
        } else {
            SubmitOutcome::MustWait
        }
    }

    /// Remove and return the oldest item, or report an empty mailbox.
    pub fn take(&mut self) -> (r: Option<WorkItem>)
        requires
            old(self).well_formed(),
        ensures
            final(self).well_formed(),
            final(self).cap() == old(self).cap(),
            final(self)@ == take_rest(old(self)@),
            r == take_front(old(self)@),
            r is Some <==> old(self)@.len() > 0,
    {
        if self.buffer.len() == 0 {
            None
        } else {
            let item = self.buffer.remove(0);
            proof {
                assert(self.buffer@ =~= old(self)@.drop_first());
            }
            Some(item)
        }
    }

    /// Create-on-first-use: fills an empty slot with a fresh mailbox of the
    /// given capacity and leaves an already filled slot untouched, so
    /// however many times it runs, exactly one mailbox ever exists in the
    /// slot. Returns whether this call was the one that created it.
    pub fn init_once(slot: &mut Option<Mailbox>, capacity: usize) -> (created: bool)
        requires
            capacity >= 1,
            (*old(slot)) matches Some(m) ==> m.well_formed(),
        ensures
            (*final(slot)) is Some,
            (*final(slot)) matches Some(m) ==> m.well_formed(),
            (*old(slot)) is Some ==> *final(slot) == *old(slot),
            created <==> (*old(slot)) is None,
            (*old(slot)) is None ==> ((*final(slot)) matches Some(m) && m@ == Seq::<
                WorkItem,
            >::empty() && m.cap() == capacity as nat),
    {
        if slot.is_none() {
            *slot = Some(Mailbox::new(capacity));
            true
        } else {
            false
        }
    }
}

/// Offering items that all fit appends them, in order and in full.
pub proof fn lemma_submit_all_within_capacity(
    s: Seq<WorkItem>,
    capacity: nat,
    pending: Seq<WorkItem>,
)
    requires
        s.len() + pending.len() <= capacity,
    ensures
        submit_all(s, capacity, pending) == s + pending,
    decreases pending.len(),
{
    if pending.len() == 0 {
        assert(s + pending =~= s);
    } else {
        lemma_submit_all_within_capacity(s.push(pending[0]), capacity, pending.drop_first());
        assert(s.push(pending[0]) + pending.drop_first() =~= s + pending);
    }
}

/// Offering one run of items after another is the same as offering the
/// concatenation.
pub proof fn lemma_submit_all_append(
    s: Seq<WorkItem>,
    capacity: nat,
    a: Seq<WorkItem>,
    b: Seq<WorkItem>,
)
    ensures
        submit_all(s, capacity, a + b) == submit_all(submit_all(s, capacity, a), capacity, b),
    decreases a.len(),
{
    if a.len() == 0 {
        assert(a + b =~= b);
    } else {
        assert((a + b)[0] == a[0]);
        assert((a + b).drop_first() =~= a.drop_first() + b);
        lemma_submit_all_append(submit_spec(s, capacity, a[0]), capacity, a.drop_first(), b);
    }
}

/// Successive takes return a prefix of the buffered sequence, in order.
pub proof fn lemma_drain_in_order(s: Seq<WorkItem>, n: nat)
    requires
        n <= s.len(),
    ensures
        drain_spec(s, n) == s.take(n as int),
    decreases n,
{
    if n == 0 {
        assert(s.take(0) =~= Seq::<WorkItem>::empty());
    } else {
        lemma_drain_in_order(s.drop_first(), (n - 1) as nat);
        assert(seq![s[0]] + s.drop_first().take(n as int - 1) =~= s.take(n as int));
    }
}

/// Law: dispatch order equals submission order. Any sequence of items
/// submitted by a single producer into an empty mailbox with room for all
/// of them is buffered whole, and successive takes hand the consumer
/// exactly that sequence, first in, first out.
pub proof fn lemma_fifo_order(pending: Seq<WorkItem>, capacity: nat)
    requires
        pending.len() <= capacity,
    ensures
        submit_all(Seq::empty(), capacity, pending) == pending,
        drain_spec(submit_all(Seq::empty(), capacity, pending), pending.len()) == pending,
{
    lemma_submit_all_within_capacity(Seq::empty(), capacity, pending);
    assert(Seq::<WorkItem>::empty() + pending =~= pending);
    lemma_drain_in_order(pending, pending.len());
    assert(pending.take(pending.len() as int) =~= pending);
}

/// Law: backpressure never loses data. Offering one item more than the
/// capacity to an empty mailbox buffers exactly the first `capacity` items
/// in order; the overflowing offer leaves the mailbox untouched — nothing
/// is dropped, overwritten or reordered, the producer merely waits — and as
/// soon as one take frees a slot, the waiting item enqueues behind all the
/// others.
pub proof fn lemma_backpressure(pending: Seq<WorkItem>, capacity: nat)
    requires
        capacity >= 1,
        pending.len() == capacity + 1,
    ensures
        submit_all(Seq::empty(), capacity, pending) == pending.take(capacity as int),
        submit_spec(pending.take(capacity as int), capacity, pending.last()) == pending.take(
            capacity as int,
        ),
        submit_spec(take_rest(pending.take(capacity as int)), capacity, pending.last())
            == pending.take(capacity as int).drop_first().push(pending.last()),
{
    let full = pending.take(capacity as int);
    assert(pending =~= full + seq![pending.last()]);
    lemma_submit_all_append(Seq::empty(), capacity, full, seq![pending.last()]);
    lemma_submit_all_within_capacity(Seq::empty(), capacity, full);
    assert(Seq::<WorkItem>::empty() + full =~= full);
    assert(submit_all(full, capacity, seq![pending.last()]) == submit_all(
        submit_spec(full, capacity, pending.last()),
        capacity,
        seq![pending.last()].drop_first(),
    ));
    assert(seq![pending.last()].drop_first() =~= Seq::<WorkItem>::empty());
}

} // verus!
