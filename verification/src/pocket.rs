//! A fixed-capacity ring of frame descriptors that wait for the fill queue.

use crate::frame::FrameDesc;
use vstd::arithmetic::div_mod::lemma_fundamental_div_mod_converse;
use vstd::arithmetic::power2::{
    is_pow2, is_pow2_equiv, lemma_pow2, lemma_pow2_strictly_increases, lemma_pow2_unfold,
    pow2,
};
use vstd::bits::lemma_usize_low_bits_mask_is_mod;
use vstd::prelude::*;
use vstd::slice::slice_subrange;

verus! {

/// A small fixed-capacity ring of frame descriptors pending return to the fill queue. The
/// capacity is a power of two, so that a position wraps around by a mask. Nothing is
/// allocated after construction.
pub struct RingPocket {
    data: Vec<FrameDesc>,
    head: usize,
    len: usize,
    capacity: usize,
}

/// A position below twice the capacity, wrapped around the ring.
pub open spec fn wrap(position: int, capacity: int) -> int {
    if position < capacity {
        position
    } else {
        position - capacity
    }
}

/// The exponent of a power of two that a `usize` holds is less than the number of bits.
proof fn lemma_exponent_bound(exponent: nat)
    requires
        pow2(exponent) <= usize::MAX,
    ensures
        exponent < usize::BITS,
{
    let bits = usize::BITS as nat;
    vstd::layout::unsigned_int_max_values();
    assert(pow2(bits) > usize::MAX);
    if exponent > bits {
        lemma_pow2_strictly_increases(bits, exponent);
    }
}

/// Masking a position with `capacity - 1` wraps it around the ring.
proof fn lemma_mask_wraps(position: usize, capacity: usize)
    requires
        is_pow2(capacity as int),
        position < 2 * capacity,
    ensures
        position & (capacity - 1) as usize == wrap(position as int, capacity as int),
{
    is_pow2_equiv(capacity as int);
    let exponent = choose|i: nat| vstd::arithmetic::power::pow(2, i) == capacity as int;
    lemma_pow2(exponent);
    lemma_exponent_bound(exponent);
    lemma_usize_low_bits_mask_is_mod(position, exponent);
    let c = capacity as int;
    let p = position as int;
    if p < c {
        lemma_fundamental_div_mod_converse(p, c, 0, p);
    } else {
        lemma_fundamental_div_mod_converse(p, c, 1, p - c);
    }
}

/// Positions below twice the capacity fit a `usize`.
proof fn lemma_positions_fit(capacity: usize)
    requires
        is_pow2(capacity as int),
    ensures
        2 * capacity - 1 <= usize::MAX,
{
    is_pow2_equiv(capacity as int);
    let exponent = choose|i: nat| vstd::arithmetic::power::pow(2, i) == capacity as int;
    lemma_pow2(exponent);
    lemma_exponent_bound(exponent);
    let bits = usize::BITS as nat;
    vstd::layout::unsigned_int_max_values();
    lemma_pow2_unfold(exponent + 1);
    if exponent + 1 < bits {
        lemma_pow2_strictly_increases(exponent + 1, bits);
    }
}

/// A power of two is positive.
proof fn lemma_pow2_positive(capacity: int)
    requires
        is_pow2(capacity),
    ensures
        capacity > 0,
{
    reveal(is_pow2);
}

impl RingPocket {
    #[verifier::type_invariant]
    closed spec fn wf(self) -> bool {
        &&& is_pow2(self.capacity as int)
        &&& self.data@.len() == self.capacity
        &&& self.head < self.capacity
        &&& self.len <= self.capacity
    }

    /// The pending descriptors, oldest first: those in the slots from the head on.
    pub open spec fn view(&self) -> Seq<FrameDesc> {
        Seq::new(
            self.pending(),
            |i: int| self.slots()[wrap(self.head() + i, self.capacity() as int)],
        )
    }

    /// What every slot holds, pending or not.
    pub closed spec fn slots(&self) -> Seq<FrameDesc> {
        self.data@
    }

    /// How many descriptors are pending.
    pub closed spec fn pending(&self) -> nat {
        self.len as nat
    }

    /// The most descriptors that the pocket holds.
    pub closed spec fn capacity(&self) -> nat {
        self.capacity as nat
    }

    /// The slot of the oldest descriptor.
    pub closed spec fn head(&self) -> nat {
        self.head as nat
    }

    /// How many descriptors, from the oldest, lie before the ring wraps around.
    pub open spec fn first_len(&self) -> int {
        if self@.len() <= self.capacity() - self.head() {
            self@.len() as int
        } else {
            self.capacity() - self.head()
        }
    }

    /// The pocket with its `count` oldest descriptors gone. The slots keep what they hold.
    pub open spec fn advanced(before: RingPocket, count: int, after: RingPocket) -> bool {
        &&& after@ == before@.skip(count)
        &&& after.head() == wrap(before.head() + count, before.capacity() as int)
        &&& after.capacity() == before.capacity()
        &&& after.slots() == before.slots()
    }

    /// An empty pocket; every slot holds the default descriptor.
    pub fn new(capacity: usize) -> (pocket: Self)
        requires
            is_pow2(capacity as int),
        ensures
            pocket@ == Seq::<FrameDesc>::empty(),
            pocket.head() == 0,
            pocket.capacity() == capacity,
            pocket.slots().len() == capacity,
            forall|i: int|
                0 <= i < capacity ==> pocket.slots()[i] == (FrameDesc {
                    addr: 0,
                    options: 0,
                    headroom_len: 0,
                    data_len: 0,
                }),
    {
        proof {
            lemma_pow2_positive(capacity as int);
        }
        RingPocket { data: vec![FrameDesc::default(); capacity], head: 0, len: 0, capacity }
    }

    /// How many descriptors are pending.
    pub fn len(&self) -> (len: usize)
        ensures
            len == self@.len(),
            len <= self.capacity(),
            self.head() < self.capacity(),
            self.slots().len() == self.capacity(),
    {
        proof {
            use_type_invariant(self);
        }
        self.len
    }

    /// Whether no descriptor can be added.
    pub fn is_full(&self) -> (full: bool)
        ensures
            full <==> self@.len() == self.capacity(),
            self@.len() <= self.capacity(),
    {
        proof {
            use_type_invariant(self);
        }
        self.len == self.capacity
    }

    /// Adds a descriptor as the youngest.
    pub fn push(&mut self, desc: FrameDesc)
        requires
            old(self)@.len() < old(self).capacity(),
        ensures
            final(self)@ == old(self)@.push(desc),
            final(self).slots() == old(self).slots().update(
                wrap((old(self).head() + old(self)@.len()) as int, old(self).capacity() as int),
                desc,
            ),
            final(self).head() == old(self).head(),
            final(self).capacity() == old(self).capacity(),
    {
        proof {
            use_type_invariant(&*self);
            lemma_positions_fit(self.capacity);
            lemma_mask_wraps((self.head + self.len) as usize, self.capacity);
        }
        let tail: usize = (self.head + self.len) & (self.capacity - 1);
        self.data[tail] = desc;
        self.len = self.len + 1;
        assert(self@ =~= old(self)@.push(desc));
    }

    /// The count of the first contiguous run.
    fn first_run(&self) -> (count: usize)
        ensures
            count == self.first_len(),
    {
        proof {
            use_type_invariant(self);
        }
        if self.len <= self.capacity - self.head {
            self.len
        } else {
            self.capacity - self.head
        }
    }

    /// Drops the `count` oldest descriptors.
    fn advance(&mut self, count: usize)
        requires
            count <= old(self)@.len(),
        ensures
            Self::advanced(*old(self), count as int, *final(self)),
    {
        proof {
            use_type_invariant(&*self);
            lemma_positions_fit(self.capacity);
            lemma_mask_wraps((self.head + count) as usize, self.capacity);
        }
        self.head = (self.head + count) & (self.capacity - 1);
        self.len = self.len - count;
        assert(self@ =~= old(self)@.skip(count as int));
    }

    /// Begins to drain the pocket into the fill queue: the slice to offer first, up to where
    /// the ring wraps around. There is none when nothing is pending.
    pub fn produce_into(&self) -> (offer: Option<&[FrameDesc]>)
        ensures
            offer is None <==> self@.len() == 0,
            offer matches Some(slice) ==> slice@ == self@.take(self.first_len()) && slice@.len()
                > 0,
            0 <= self.first_len() <= self@.len(),
    {
        proof {
            use_type_invariant(self);
        }
        if self.len == 0 {
            return None;
        }
        let count: usize = self.first_run();
        let slice = slice_subrange(self.data.as_slice(), self.head, self.head + count);
        assert(slice@ =~= self@.take(self.first_len()));
        Some(slice)
    }

    /// Takes in how many descriptors of the first slice the fill queue accepted. When it
    /// took the whole slice and the ring wraps around, nothing is dropped yet and the second
    /// slice is due; otherwise what it took is dropped and the drain is over.
    pub fn produced_first(&mut self, produced: usize) -> (second_due: bool)
        requires
            produced <= old(self).first_len(),
        ensures
            second_due <==> produced == old(self).first_len() && old(self)@.len() > produced,
            second_due ==> *final(self) == *old(self),
            !second_due ==> Self::advanced(*old(self), produced as int, *final(self)),
            produced == 0 ==> *final(self) == *old(self),
    {
        proof {
            use_type_invariant(&*self);
        }
        if produced == 0 {
            assert(self@.skip(0) =~= self@);
            return false;
        }
        if produced < self.first_run() {
            self.advance(produced);
            return false;
        }
        if self.len > produced {
            return true;
        }
        self.advance(produced);
        false
    }

    /// The slice to offer second: what lies past the wrap-around.
    pub fn second_slice(&self) -> (slice: &[FrameDesc])
        ensures
            slice@ == self@.skip(self.first_len()),
            0 <= self.first_len() <= self@.len(),
    {
        proof {
            use_type_invariant(self);
        }
        let remaining: usize = self.len - self.first_run();
        let slice = slice_subrange(self.data.as_slice(), 0, remaining);
        assert(slice@ =~= self@.skip(self.first_len()));
        slice
    }

    /// Takes in how many descriptors of the second slice the fill queue accepted, after it
    /// took the whole first slice: drops what it took of both.
    pub fn produced_second(&mut self, produced: usize)
        requires
            produced <= old(self)@.len() - old(self).first_len(),
        ensures
            Self::advanced(
                *old(self),
                old(self).first_len() + produced,
                *final(self),
            ),
    {
        proof {
            use_type_invariant(&*self);
            lemma_positions_fit(self.capacity);
        }
        let total: usize = self.first_run() + produced;
        self.advance(total);
    }
}

/// A position wraps around to its remainder modulo the capacity.
pub proof fn law_wrap_is_remainder(position: int, capacity: int)
    requires
        0 <= position < 2 * capacity,
    ensures
        wrap(position, capacity) == position % capacity,
{
    if position < capacity {
        lemma_fundamental_div_mod_converse(position, capacity, 0, position);
    } else {
        lemma_fundamental_div_mod_converse(position, capacity, 1, position - capacity);
    }
}

/// What is pending lies in consecutive slots from the head on, around the ring: as many as are
/// pending, oldest first.
pub proof fn law_pending_slots(pocket: RingPocket)
    requires
        pocket.head() < pocket.capacity(),
        pocket.pending() <= pocket.capacity(),
    ensures
        pocket@.len() == pocket.pending(),
        forall|i: int|
            0 <= i < pocket.pending() ==> #[trigger] pocket@[i] == pocket.slots()[(pocket.head()
                + i) % (pocket.capacity() as int)],
{
    assert forall|i: int| 0 <= i < pocket.pending() implies #[trigger] pocket@[i]
        == pocket.slots()[(pocket.head() + i) % (pocket.capacity() as int)] by {
        law_wrap_is_remainder(pocket.head() + i, pocket.capacity() as int);
    }
}

/// The first slice of a drain is as long as it can be: it holds everything that is pending, or
/// it reaches the last slot.
pub proof fn law_first_slice_longest(pocket: RingPocket)
    requires
        pocket.head() < pocket.capacity(),
        pocket@.len() <= pocket.capacity(),
    ensures
        0 <= pocket.first_len() <= pocket@.len(),
        pocket.head() + pocket.first_len() <= pocket.capacity(),
        pocket.first_len() == pocket@.len() || pocket.head() + pocket.first_len()
            == pocket.capacity(),
        pocket@.len() > 0 ==> pocket.first_len() > 0,
{
}

/// A drain of `count` descriptors drops exactly the `count` oldest, moves the head on by as many
/// slots around the ring, and touches nothing else.
pub proof fn law_drain_drops_oldest(before: RingPocket, count: int, after: RingPocket)
    requires
        RingPocket::advanced(before, count, after),
        before.head() < before.capacity(),
        0 <= count <= before@.len() <= before.capacity(),
    ensures
        after@.len() == before@.len() - count,
        forall|i: int| 0 <= i < after@.len() ==> #[trigger] after@[i] == before@[count + i],
        after.head() == (before.head() + count) % (before.capacity() as int),
        after.capacity() == before.capacity(),
        after.slots() == before.slots(),
{
    law_wrap_is_remainder(before.head() + count, before.capacity() as int);
}

/// The two slices of a drain are, one after the other, all pending descriptors from the
/// oldest on.
pub proof fn law_slices_cover(pocket: RingPocket)
    requires
        0 <= pocket.first_len() <= pocket@.len(),
    ensures
        pocket@.take(pocket.first_len()) + pocket@.skip(pocket.first_len()) == pocket@,
{
    assert(pocket@.take(pocket.first_len()) + pocket@.skip(pocket.first_len()) =~= pocket@);
}

/// A drain changes nothing but where the pending descriptors begin and how many they are: the
/// slots and the capacity stay as they were, and no descriptor is added.
pub proof fn law_drain_keeps_slots(before: RingPocket, count: int, after: RingPocket)
    requires
        0 <= count <= before@.len(),
        RingPocket::advanced(before, count, after),
    ensures
        after.slots() == before.slots(),
        after.capacity() == before.capacity(),
        after@.len() == before@.len() - count,
        before.head() < before.capacity() && before@.len() <= before.capacity()
            ==> after.head() < after.capacity() && after@.len() <= after.capacity(),
        count == 0 && before.head() < before.capacity() ==> after.head() == before.head()
            && after@ == before@,
{
    if count == 0 {
        assert(before@.skip(0) =~= before@);
    }
}

/// Descriptors leave in the order in which they were added: after `count` of them have left,
/// those and the rest, in this order, are what was pending.
pub proof fn law_first_in_first_out(before: RingPocket, count: int, after: RingPocket)
    requires
        0 <= count <= before@.len(),
        RingPocket::advanced(before, count, after),
    ensures
        before@.take(count) + after@ == before@,
        after@.len() == before@.len() - count,
{
    assert(before@.take(count) + after@ =~= before@);
}

} // verus!
