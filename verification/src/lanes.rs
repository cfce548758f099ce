//! Lane-wise equality masks, the building block of the linear membership scans.
//!
//! A mask holds one bit per lane; the bit of a lane is set when the lane of the
//! loaded chunk equals the lane of the broadcast target.

use vstd::prelude::*;

verus! {

/// Whether the bit of `lane` is set in a 64-lane mask.
pub open spec fn lane_set(mask: u64, lane: int) -> bool {
    mask & (1u64 << (lane as u64)) != 0
}

/// A lane is one binary digit of the mask, that of its number: shifted down by as many places,
/// the mask is odd.
pub proof fn law_lane_is_digit(mask: u64, lane: u64)
    requires
        lane < 64,
    ensures
        lane_set(mask, lane as int) <==> (mask >> lane) % 2 == 1,
{
    assert(mask & (1u64 << lane) != 0 <==> (mask >> lane) % 2 == 1) by (bit_vector)
        requires
            lane < 64,
    ;
}

/// No lane of the zero mask is set.
proof fn lemma_zero_mask()
    ensures
        forall|l: int| 0 <= l < 64 ==> !lane_set(0, l),
{
    assert forall|l: int| 0 <= l < 64 implies !lane_set(0, l) by {
        let k = l as u64;
        assert(0u64 & (1u64 << k) == 0) by (bit_vector);
    }
}

/// Merging a bit into a lane leaves every other lane as it was.
proof fn lemma_merge_lane(mask: u64, at: u64, bit: u64, lane: int)
    requires
        at < 64,
        bit <= 1,
        0 <= lane < 64,
    ensures
        lane_set(mask | (bit << at), lane) == (lane_set(mask, lane) || (lane == at && bit == 1)),
{
    let l = lane as u64;
    assert((mask | (bit << at)) & (1u64 << l) != 0 <==> (mask & (1u64 << l) != 0 || (l == at && bit
        == 1))) by (bit_vector)
        requires
            at < 64,
            bit <= 1,
            l < 64,
    ;
}

/// Two masks of 32 lanes, one shifted above the other, make a mask with the lanes of both.
proof fn lemma_join_halves(low: u64, high: u64, lane: int)
    requires
        forall|l: int| 32 <= l < 64 ==> !lane_set(low, l),
        0 <= lane < 64,
    ensures
        lane_set(low | (high << 32), lane) == (if lane < 32 {
            lane_set(low, lane)
        } else {
            lane_set(high, lane - 32)
        }),
{
    let l = lane as u64;
    if lane < 32 {
        assert((low | (high << 32)) & (1u64 << l) != 0 <==> low & (1u64 << l) != 0)
            by (bit_vector)
            requires
                l < 32,
        ;
    } else {
        let below = (lane - 32) as u64;
        assert(!lane_set(low, lane));
        assert((low | (high << 32)) & (1u64 << l) != 0 <==> high & (1u64 << below) != 0)
            by (bit_vector)
            requires
                low & (1u64 << l) == 0,
                32 <= l < 64,
                below == l - 32,
        ;
    }
}

/// The lowest `n` bits of a mask are all ones when the bit of each of the lowest `n`
/// lanes is set.
proof fn lemma_low_ones(mask: u64, n: u64)
    requires
        n <= 32,
        forall|l: int| 0 <= l < n ==> lane_set(mask, l),
    ensures
        mask & ((1u64 << n) - 1) as u64 == ((1u64 << n) - 1) as u64,
    decreases n,
{
    if n == 0 {
        assert(mask & ((1u64 << 0u64) - 1) as u64 == ((1u64 << 0u64) - 1) as u64) by (bit_vector);
    } else {
        let m = (n - 1) as u64;
        lemma_low_ones(mask, m);
        assert(lane_set(mask, m as int));
        assert(mask & ((1u64 << n) - 1) as u64 == ((1u64 << n) - 1) as u64) by (bit_vector)
            requires
                0 < n <= 32,
                m == n - 1,
                mask & ((1u64 << m) - 1) as u64 == ((1u64 << m) - 1) as u64,
                mask & (1u64 << m) != 0,
        ;
    }
}

/// The low half of a mask is all ones exactly when each of its 32 lanes is set.
pub proof fn lemma_low_half_full(mask: u64)
    ensures
        mask & 0xFFFF_FFFF == 0xFFFF_FFFF <==> (forall|l: int| 0 <= l < 32 ==> lane_set(mask, l)),
{
    if mask & 0xFFFF_FFFF == 0xFFFF_FFFF {
        assert forall|l: int| 0 <= l < 32 implies lane_set(mask, l) by {
            let k = l as u64;
            assert(mask & (1u64 << k) != 0) by (bit_vector)
                requires
                    k < 32,
                    mask & 0xFFFF_FFFF == 0xFFFF_FFFF,
            ;
        }
    }
    if forall|l: int| 0 <= l < 32 ==> lane_set(mask, l) {
        lemma_low_ones(mask, 32);
        assert(((1u64 << 32u64) - 1) as u64 == 0xFFFF_FFFF) by (bit_vector);
    }
}

/// The high half of a mask is all ones exactly when each of its 32 lanes is set.
pub proof fn lemma_high_half_full(mask: u64)
    ensures
        mask >> 32 == 0xFFFF_FFFF <==> (forall|l: int| 32 <= l < 64 ==> lane_set(mask, l)),
{
    let high = mask >> 32;
    lemma_low_half_full(high);
    assert(high & 0xFFFF_FFFF == high) by (bit_vector)
        requires
            high == mask >> 32,
    ;
    assert forall|l: int| 32 <= l < 64 implies lane_set(mask, l) == lane_set(high, l - 32) by {
        let k = (l - 32) as u64;
        let j = l as u64;
        assert(high & (1u64 << k) != 0 <==> mask & (1u64 << j) != 0) by (bit_vector)
            requires
                high == mask >> 32,
                k < 32,
                j == k + 32,
        ;
    }
    if forall|l: int| 32 <= l < 64 ==> lane_set(mask, l) {
        assert forall|l: int| 0 <= l < 32 implies lane_set(high, l) by {
            assert(lane_set(mask, l + 32));
        }
    }
}

/// Compares a key with the target byte by byte, in the low 32 lanes of a mask.
fn half_mask(key: &[u8; 32], target: &[u8; 32]) -> (mask: u64)
    ensures
        forall|l: int|
            0 <= l < 64 ==> lane_set(mask, l) == (l < 32 && key[l] == target[l]),
{
    let mut mask: u64 = 0;
    let mut j: usize = 0;
    proof {
        lemma_zero_mask();
    }
    while j < 32
        invariant
            j <= 32,
            forall|l: int| 0 <= l < 64 ==> lane_set(mask, l) == (l < j && key[l] == target[l]),
        decreases 32 - j,
    {
        let ghost before = mask;
        let bit: u64 = if key[j] == target[j] { 1 } else { 0 };
        mask = mask | (bit << (j as u64));
        assert forall|l: int| 0 <= l < 64 implies lane_set(mask, l) == (lane_set(before, l) || (l
            == j && bit == 1)) by {
            lemma_merge_lane(before, j as u64, bit, l);
        }
        j = j + 1;
    }
    mask
}

/// Compares the 64-byte chunk `[first | second]` with the 64-byte target
/// `[target | target]`, byte by byte: bit `l` of the mask tells whether byte `l` of the
/// chunk equals byte `l` of the target.
pub fn equal_byte_mask(first: &[u8; 32], second: &[u8; 32], target: &[u8; 32]) -> (mask: u64)
    ensures
        forall|l: int|
            0 <= l < 64 ==> lane_set(mask, l) == ((first@ + second@)[l] == (target@ + target@)[l]),
{
    let low: u64 = half_mask(first, target);
    let high: u64 = half_mask(second, target);
    let mask: u64 = low | (high << 32);
    assert forall|l: int| 0 <= l < 64 implies lane_set(mask, l) == ((first@ + second@)[l] == (target@
        + target@)[l]) by {
        lemma_join_halves(low, high, l);
    }
    mask
}

/// The lowest `n` bits of a mask are all zeros when no bit of the lowest `n` lanes is set.
proof fn lemma_low_zeros(mask: u64, n: u64)
    requires
        n <= 63,
        forall|l: int| 0 <= l < n ==> !lane_set(mask, l),
    ensures
        mask & ((1u64 << n) - 1) as u64 == 0,
    decreases n,
{
    if n == 0 {
        assert(mask & ((1u64 << 0u64) - 1) as u64 == 0) by (bit_vector);
    } else {
        let m = (n - 1) as u64;
        lemma_low_zeros(mask, m);
        assert(!lane_set(mask, m as int));
        assert(mask & ((1u64 << n) - 1) as u64 == 0) by (bit_vector)
            requires
                0 < n <= 63,
                m == n - 1,
                mask & ((1u64 << m) - 1) as u64 == 0,
                mask & (1u64 << m) == 0,
        ;
    }
}

/// A mask is nonzero exactly when the bit of some lane is set.
pub proof fn lemma_any_lane(mask: u64)
    ensures
        mask != 0 <==> (exists|l: int| 0 <= l < 64 && lane_set(mask, l)),
{
    if forall|l: int| 0 <= l < 64 ==> !lane_set(mask, l) {
        lemma_low_zeros(mask, 63);
        assert(!lane_set(mask, 63));
        assert(mask == 0) by (bit_vector)
            requires
                mask & ((1u64 << 63u64) - 1) as u64 == 0,
                mask & (1u64 << 63u64) == 0,
        ;
    } else {
        let l = choose|l: int| 0 <= l < 64 && lane_set(mask, l);
        let k = l as u64;
        assert(mask != 0) by (bit_vector)
            requires
                mask & (1u64 << k) != 0,
        ;
    }
}

/// Compares the first `lanes` of the 16 words of `words` that begin at `start` with
/// `target`: bit `l` of the mask tells whether word `start + l` equals it. The bits of the
/// other lanes are clear.
pub fn equal_word_mask(words: &[u32; 1024], start: usize, lanes: usize, target: u32) -> (mask: u64)
    requires
        lanes <= 16,
        start + lanes <= 1024,
    ensures
        forall|l: int|
            0 <= l < 64 ==> lane_set(mask, l) == (l < lanes && words[start + l] == target),
{
    let mut mask: u64 = 0;
    let mut j: usize = 0;
    proof {
        lemma_zero_mask();
    }
    while j < lanes
        invariant
            j <= lanes <= 16,
            start + lanes <= 1024,
            forall|l: int|
                0 <= l < 64 ==> lane_set(mask, l) == (l < j && words[start + l] == target),
        decreases lanes - j,
    {
        let ghost before = mask;
        let bit: u64 = if words[start + j] == target { 1 } else { 0 };
        mask = mask | (bit << (j as u64));
        assert forall|l: int| 0 <= l < 64 implies lane_set(mask, l) == (lane_set(before, l) || (l
            == j && bit == 1)) by {
            lemma_merge_lane(before, j as u64, bit, l);
        }
        j = j + 1;
    }
    mask
}

} // verus!
