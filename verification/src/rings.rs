//! The two ends of a lock-free single-producer single-consumer ring of frame descriptors.
//!
//! The rings are those of the `ringbuf` crate. An end caches the index of the opposite end
//! and fetches it anew only when, by its cached copy, it cannot go on. So an end knows a
//! sequence of descriptors in the ring, and that is what its contracts speak of: for the
//! write end those that it does not know to have been popped, for the read end those that it
//! knows to have been pushed.
//!
//! What the opposite end has done in the meantime is open. How a pop moves the read end is not:
//! the descriptor that it returns, and no other, has left the ring.
//!
//! Each end also records, for the proofs only, every attempt that was made on it and its
//! answer. The record tells a step that asked the ring from one that did not.

use crate::frame::FrameDesc;
use ringbuf::traits::{Consumer, Producer, SplitRef};
use ringbuf::wrap::caching::{CachingCons, CachingProd};
use ringbuf::HeapRb;
use vstd::arithmetic::div_mod::lemma_fundamental_div_mod_converse;
use vstd::prelude::*;

verus! {

/// The write end of a `ringbuf` ring.
#[verifier::external_body]
pub struct ProducerEnd {
    inner: CachingProd<&'static HeapRb<FrameDesc>>,
}

/// The read end of a `ringbuf` ring.
#[verifier::external_body]
pub struct ConsumerEnd {
    inner: CachingCons<&'static HeapRb<FrameDesc>>,
}

/// The descriptors that lie in the ring as far as the write end knows, oldest first: those
/// between its cached read index and its write index.
pub uninterp spec fn producer_contents(end: ProducerEnd) -> Seq<FrameDesc>;

/// The number of slots of the ring of a write end.
pub uninterp spec fn producer_capacity(end: ProducerEnd) -> nat;

/// The descriptors that lie in the ring as far as the read end knows, oldest first: those
/// between its read index and its cached write index.
pub uninterp spec fn consumer_contents(end: ConsumerEnd) -> Seq<FrameDesc>;

/// The descriptors that have left the ring through a read end, in order.
pub uninterp spec fn consumer_taken(end: ConsumerEnd) -> Seq<FrameDesc>;

/// The read index of a read end. It counts modulo twice the number of slots.
pub uninterp spec fn consumer_index(end: ConsumerEnd) -> nat;

/// The number of slots of the ring of a read end.
pub uninterp spec fn consumer_capacity(end: ConsumerEnd) -> nat;

/// What a push of `desc` that answered `sent` has done to the write end.
///
/// While the end knows of a free slot the push succeeds. When it knows of none it looks at
/// the ring anew: the push succeeds if at least one descriptor has been popped since, and
/// fails and changes nothing otherwise.
pub open spec fn push_outcome(
    before: Seq<FrameDesc>,
    capacity: nat,
    desc: FrameDesc,
    after: Seq<FrameDesc>,
    sent: bool,
) -> bool {
    if before.len() < capacity {
        sent && after == before.push(desc)
    } else if sent {
        exists|popped: int|
            0 < popped <= before.len() && after == (#[trigger] before.skip(popped)).push(desc)
    } else {
        after == before
    }
}

/// What a pop that answered `desc` has done to the read end.
///
/// While the end knows of a descriptor it takes the oldest. When it knows of none it looks at
/// the ring anew: it takes the oldest of those that have been pushed since, if there is one.
pub open spec fn pop_outcome(
    before: Seq<FrameDesc>,
    desc: Option<FrameDesc>,
    after: Seq<FrameDesc>,
) -> bool {
    if before.len() > 0 {
        desc == Some(before[0]) && after == before.skip(1)
    } else {
        desc is None ==> after.len() == 0
    }
}

/// The descriptors that have left through a read end after a pop that answered `desc`.
pub open spec fn taken_after(taken: Seq<FrameDesc>, desc: Option<FrameDesc>) -> Seq<FrameDesc> {
    match desc {
        Some(desc) => taken.push(desc),
        None => taken,
    }
}

/// The read index after a pop: one further when a descriptor was taken, else the same.
pub open spec fn index_after(index: nat, capacity: nat, taken: bool) -> nat {
    if taken {
        (index + 1) % (2 * capacity)
    } else {
        index
    }
}

/// A push adds the descriptor as the youngest and nothing else. It succeeds whenever the end
/// knows of a free slot; one that succeeds on a full ring needs a pop in between; one that
/// fails leaves everything as it was.
pub proof fn law_push(
    before: Seq<FrameDesc>,
    capacity: nat,
    desc: FrameDesc,
    after: Seq<FrameDesc>,
    sent: bool,
)
    requires
        push_outcome(before, capacity, desc, after, sent),
    ensures
        before.len() < capacity ==> sent,
        !sent ==> after == before,
        sent ==> after.len() > 0 && after.last() == desc,
        sent && before.len() < capacity ==> after.drop_last() == before,
        sent && before.len() >= capacity ==> after.len() <= before.len(),
        sent ==> forall|i: int|
            0 <= i < after.len() - 1 ==> #[trigger] after[i] == before[before.len() - (after.len()
                - 1) + i],
{
    if sent && before.len() < capacity {
        assert(after.drop_last() =~= before);
    }
}

/// A pop takes the oldest descriptor that the end knows of and leaves the others; it answers
/// none only when the ring shows none. What it returns, and no more, has left the ring.
pub proof fn law_pop(
    before: Seq<FrameDesc>,
    desc: Option<FrameDesc>,
    after: Seq<FrameDesc>,
    taken: Seq<FrameDesc>,
)
    requires
        pop_outcome(before, desc, after),
    ensures
        before.len() > 0 ==> desc == Some(before[0]) && seq![before[0]] + after == before,
        desc is None ==> before.len() == 0 && after.len() == 0,
        desc is None ==> taken_after(taken, desc) == taken,
        desc is Some ==> taken_after(taken, desc) == taken + seq![desc->0],
{
    if before.len() > 0 {
        assert(seq![before[0]] + after =~= before);
    }
    if desc is Some {
        assert(taken_after(taken, desc) =~= taken + seq![desc->0]);
    }
}

/// The read index runs through twice as many values as there are slots: a pop that takes a
/// descriptor moves it to the next one, and from the last to the first.
pub proof fn law_index_cycles(index: nat, capacity: nat)
    requires
        index < 2 * capacity,
    ensures
        index_after(index, capacity, false) == index,
        index + 1 < 2 * capacity ==> index_after(index, capacity, true) == index + 1,
        index + 1 == 2 * capacity ==> index_after(index, capacity, true) == 0,
{
    let next = index as int + 1;
    let modulus = 2 * capacity as int;
    if next < modulus {
        lemma_fundamental_div_mod_converse(next, modulus, 0, next);
    } else {
        lemma_fundamental_div_mod_converse(next, modulus, 1, 0);
    }
}

/// Calls `ringbuf::HeapRb::new`, which panics on capacity zero or when the slots would exceed
/// the largest allocation (a descriptor takes at most 32 bytes), and `split_ref` on the new
/// ring. Claims that both ends start out empty and know that the ring has `capacity` slots,
/// that nothing has left through the read end, and that its index is zero. The ring lives as
/// long as the program.
#[verifier::external_body]
fn make_ring(capacity: usize) -> (ends: (ProducerEnd, ConsumerEnd))
    requires
        0 < capacity <= isize::MAX / 32,
    ensures
        producer_contents(ends.0) == Seq::<FrameDesc>::empty(),
        producer_capacity(ends.0) == capacity,
        consumer_contents(ends.1) == Seq::<FrameDesc>::empty(),
        consumer_taken(ends.1) == Seq::<FrameDesc>::empty(),
        consumer_index(ends.1) == 0,
        consumer_capacity(ends.1) == capacity,
{
    let ring: &'static mut HeapRb<FrameDesc> = Box::leak(Box::new(HeapRb::new(capacity)));
    let (producer, consumer) = ring.split_ref();
    (ProducerEnd { inner: producer }, ConsumerEnd { inner: consumer })
}

/// Calls `try_push` of `ringbuf::wrap::caching::CachingProd`. Claims that it pushes and
/// answers as `push_outcome` says, hands the descriptor back when it fails, and never holds
/// more than the ring has slots for. Whether a descriptor has been popped in the meantime is
/// left open: the opposite end decides that.
#[verifier::external_body]
fn push_frame(end: &mut ProducerEnd, desc: FrameDesc) -> (sent: Result<(), FrameDesc>)
    ensures
        producer_capacity(*final(end)) == producer_capacity(*old(end)),
        producer_contents(*final(end)).len() <= producer_capacity(*final(end)),
        push_outcome(
            producer_contents(*old(end)),
            producer_capacity(*old(end)),
            desc,
            producer_contents(*final(end)),
            sent is Ok,
        ),
        sent matches Err(back) ==> back == desc,
{
    end.inner.try_push(desc)
}

/// Calls `try_pop` of `ringbuf::wrap::caching::CachingCons`, which removes the eldest item and
/// returns it. Claims that it pops and answers as `pop_outcome` says, that exactly the
/// descriptor it returns leaves the ring, and that the read index moves by one when there is
/// one and stays otherwise. Which descriptors have been pushed in the meantime is left open:
/// the opposite end decides that.
#[verifier::external_body]
fn pop_frame(end: &mut ConsumerEnd) -> (desc: Option<FrameDesc>)
    ensures
        pop_outcome(consumer_contents(*old(end)), desc, consumer_contents(*final(end))),
        consumer_taken(*final(end)) == taken_after(consumer_taken(*old(end)), desc),
        consumer_capacity(*final(end)) == consumer_capacity(*old(end)),
        consumer_index(*final(end)) == index_after(
            consumer_index(*old(end)),
            consumer_capacity(*old(end)),
            desc is Some,
        ),
{
    end.inner.try_pop()
}

/// The write end of a ring of frame descriptors.
pub struct FrameProducer {
    end: ProducerEnd,
    tried: Ghost<Seq<(FrameDesc, bool)>>,
}

/// The read end of a ring of frame descriptors.
pub struct FrameConsumer {
    end: ConsumerEnd,
    polls: Ghost<Seq<Option<FrameDesc>>>,
}

impl View for FrameProducer {
    type V = Seq<FrameDesc>;

    /// What lies in the ring as far as this end knows.
    closed spec fn view(&self) -> Seq<FrameDesc> {
        producer_contents(self.end)
    }
}

impl View for FrameConsumer {
    type V = Seq<FrameDesc>;

    /// What lies in the ring as far as this end knows.
    closed spec fn view(&self) -> Seq<FrameDesc> {
        consumer_contents(self.end)
    }
}

/// A new ring with `capacity` slots: its write end and its read end.
pub fn frame_ring(capacity: usize) -> (ends: (FrameProducer, FrameConsumer))
    requires
        0 < capacity <= isize::MAX / 32,
    ensures
        ends.0@ == Seq::<FrameDesc>::empty(),
        ends.0.capacity() == capacity,
        ends.0.tried() == Seq::<(FrameDesc, bool)>::empty(),
        ends.1@ == Seq::<FrameDesc>::empty(),
        ends.1.taken() == Seq::<FrameDesc>::empty(),
        ends.1.index() == 0,
        ends.1.capacity() == capacity,
        ends.1.polls() == Seq::<Option<FrameDesc>>::empty(),
{
    let (producer, consumer) = make_ring(capacity);
    (
        FrameProducer { end: producer, tried: Ghost(Seq::empty()) },
        FrameConsumer { end: consumer, polls: Ghost(Seq::empty()) },
    )
}

/// What the contracts of the two ends speak of is what their `ringbuf` ends hold.
proof fn law_ends_are_shown(producer: FrameProducer, consumer: FrameConsumer)
    ensures
        producer@ == producer_contents(producer.end),
        producer.capacity() == producer_capacity(producer.end),
        consumer@ == consumer_contents(consumer.end),
        consumer.taken() == consumer_taken(consumer.end),
        consumer.index() == consumer_index(consumer.end),
        consumer.capacity() == consumer_capacity(consumer.end),
{
}

impl FrameProducer {
    /// The number of slots of the ring.
    pub closed spec fn capacity(&self) -> nat {
        producer_capacity(self.end)
    }

    /// Every descriptor that was tried on this end and whether the ring took it, in order.
    pub closed spec fn tried(&self) -> Seq<(FrameDesc, bool)> {
        self.tried@
    }

    /// Adds a descriptor, or hands it back when the ring is full.
    pub fn try_push(&mut self, desc: FrameDesc) -> (sent: Result<(), FrameDesc>)
        ensures
            push_outcome(old(self)@, old(self).capacity(), desc, final(self)@, sent is Ok),
            sent matches Err(back) ==> back == desc,
            final(self).tried() == old(self).tried().push((desc, sent is Ok)),
            final(self)@.len() <= final(self).capacity(),
            final(self).capacity() == old(self).capacity(),
    {
        let sent = push_frame(&mut self.end, desc);
        proof {
            self.tried@ = self.tried@.push((desc, sent is Ok));
        }
        sent
    }
}

impl FrameConsumer {
    /// The descriptors that have left the ring through this end, in order.
    pub closed spec fn taken(&self) -> Seq<FrameDesc> {
        consumer_taken(self.end)
    }

    /// The read index of this end, counted modulo twice the number of slots.
    pub closed spec fn index(&self) -> nat {
        consumer_index(self.end)
    }

    /// The number of slots of the ring.
    pub closed spec fn capacity(&self) -> nat {
        consumer_capacity(self.end)
    }

    /// The answer to every poll of this end, in order: the descriptor that was popped, or none.
    pub closed spec fn polls(&self) -> Seq<Option<FrameDesc>> {
        self.polls@
    }

    /// Takes the oldest descriptor, if there is one: what leaves the ring is what is returned.
    pub fn try_pop(&mut self) -> (desc: Option<FrameDesc>)
        ensures
            pop_outcome(old(self)@, desc, final(self)@),
            final(self).taken() == taken_after(old(self).taken(), desc),
            final(self).capacity() == old(self).capacity(),
            final(self).index() == index_after(
                old(self).index(),
                old(self).capacity(),
                desc is Some,
            ),
            final(self).polls() == old(self).polls().push(desc),
    {
        let desc = pop_frame(&mut self.end);
        proof {
            self.polls@ = self.polls@.push(desc);
        }
        desc
    }
}

} // verus!
