//! Validator-key membership: a bounded list of 32-byte keys with a pairwise linear scan
//! and a binary search.

use crate::lanes::{equal_byte_mask, lane_set, lemma_high_half_full, lemma_low_half_full};
use vstd::prelude::*;

verus! {

/// The number of key slots.
pub const WHITELIST_CAPACITY: usize = 2048;

/// The validator keys. The first `count` slots hold the trusted keys; what the other
/// slots hold is not trusted.
pub struct ValidatorWhitelist {
    pub count: usize,
    pub keys: [[u8; 32]; 2048],
}

impl View for ValidatorWhitelist {
    type V = Seq<[u8; 32]>;

    /// The trusted keys, in slot order.
    open spec fn view(&self) -> Seq<[u8; 32]> {
        self.keys@.take(self.count as int)
    }
}

/// Lexicographic order of keys: at the first byte where they differ, `a` has the smaller.
pub open spec fn key_less(a: [u8; 32], b: [u8; 32]) -> bool {
    exists|i: int| #![trigger a[i]] 0 <= i < 32 && a[i] < b[i] && a@.take(i) == b@.take(i)
}

/// No key is less than one before it.
pub open spec fn sorted(keys: Seq<[u8; 32]>) -> bool {
    forall|i: int, j: int| 0 <= i <= j < keys.len() ==> !key_less(keys[j], keys[i])
}

/// What the linear scan answers: membership.
pub open spec fn scan_answers(list: Seq<[u8; 32]>, pubkey: [u8; 32], trusted: bool) -> bool {
    trusted == list.contains(pubkey)
}

/// What the binary search answers: membership when the list is sorted; a key that it finds
/// is a member in any case.
pub open spec fn search_answers(list: Seq<[u8; 32]>, pubkey: [u8; 32], trusted: bool) -> bool {
    &&& trusted ==> list.contains(pubkey)
    &&& sorted(list) ==> trusted == list.contains(pubkey)
}

/// The part of `keys` that the slots can hold.
pub open spec fn storable(keys: Seq<[u8; 32]>) -> Seq<[u8; 32]> {
    if keys.len() <= WHITELIST_CAPACITY {
        keys
    } else {
        keys.take(WHITELIST_CAPACITY as int)
    }
}

enum KeyOrder {
    Less,
    Equal,
    Greater,
}

/// Two keys are equal or one is less than the other.
proof fn lemma_key_total(a: [u8; 32], b: [u8; 32], n: int)
    requires
        0 <= n <= 32,
    ensures
        a@.take(n) == b@.take(n) || key_less(a, b) || key_less(b, a),
    decreases n,
{
    if n > 0 {
        lemma_key_total(a, b, n - 1);
        if a@.take(n - 1) == b@.take(n - 1) {
            if a[n - 1] == b[n - 1] {
                assert forall|k: int| 0 <= k < n implies a@.take(n)[k] == b@.take(n)[k] by {
                    if k < n - 1 {
                        assert(a@.take(n - 1)[k] == b@.take(n - 1)[k]);
                    }
                }
                assert(a@.take(n) =~= b@.take(n));
            } else if a[n - 1] < b[n - 1] {
                assert(key_less(a, b));
            } else {
                assert(key_less(b, a));
            }
        }
    }
}

/// A key that is not above one that is below `c` is itself below `c`.
proof fn lemma_key_below(a: [u8; 32], b: [u8; 32], c: [u8; 32])
    requires
        !key_less(b, a),
        key_less(b, c),
    ensures
        key_less(a, c),
{
    lemma_key_total(a, b, 32);
    let i = choose|i: int|
        #![trigger b[i]]
        0 <= i < 32 && b[i] < c[i] && b@.take(i) == c@.take(i);
    if a@.take(32) == b@.take(32) {
        assert(a@ =~= a@.take(32));
        assert(b@ =~= b@.take(32));
        assert(a[i] < c[i]);
    } else {
        let j = choose|j: int|
            #![trigger a[j]]
            0 <= j < 32 && a[j] < b[j] && a@.take(j) == b@.take(j);
        let k = if i < j { i } else { j };
        assert forall|l: int| 0 <= l < k implies a@.take(k)[l] == c@.take(k)[l] by {
            assert(a@.take(j)[l] == b@.take(j)[l]);
            assert(b@.take(i)[l] == c@.take(i)[l]);
        }
        assert(a@.take(k) =~= c@.take(k));
        if i < j {
            assert(a@.take(j)[i] == b@.take(j)[i]);
        } else if j < i {
            assert(b@.take(i)[j] == c@.take(i)[j]);
        }
        assert(a[k] < c[k]);
    }
}

/// A key that is below `b` is below every key that is not itself below `b`.
proof fn lemma_key_above(a: [u8; 32], b: [u8; 32], c: [u8; 32])
    requires
        !key_less(c, b),
        key_less(a, b),
    ensures
        key_less(a, c),
{
    lemma_key_total(b, c, 32);
    if b@.take(32) == c@.take(32) {
        assert(b@ =~= b@.take(32));
        assert(c@ =~= c@.take(32));
        assert(b =~= c);
    } else {
        assert(!key_less(b, a)) by {
            lemma_key_antisymmetric(a, b);
        }
        lemma_key_below(a, b, c);
    }
}

/// The order is antisymmetric, hence irreflexive.
proof fn lemma_key_antisymmetric(a: [u8; 32], b: [u8; 32])
    requires
        key_less(a, b),
    ensures
        !key_less(b, a),
        a != b,
{
    let i = choose|i: int|
        #![trigger a[i]]
        0 <= i < 32 && a[i] < b[i] && a@.take(i) == b@.take(i);
    if key_less(b, a) {
        let j = choose|j: int|
            #![trigger b[j]]
            0 <= j < 32 && b[j] < a[j] && b@.take(j) == a@.take(j);
        if i < j {
            assert(b@.take(j)[i] == a@.take(j)[i]);
        } else if j < i {
            assert(a@.take(i)[j] == b@.take(i)[j]);
        }
    }
}

/// Compares two keys byte by byte.
fn key_order(a: &[u8; 32], b: &[u8; 32]) -> (order: KeyOrder)
    ensures
        order is Less <==> key_less(*a, *b),
        order is Greater <==> key_less(*b, *a),
        order is Equal <==> *a == *b,
{
    let mut i: usize = 0;
    while i < 32
        invariant
            i <= 32,
            a@.take(i as int) == b@.take(i as int),
        decreases 32 - i,
    {
        if a[i] < b[i] {
            assert(key_less(*a, *b));
            proof {
                lemma_key_antisymmetric(*a, *b);
            }
            return KeyOrder::Less;
        }
        if b[i] < a[i] {
            assert(key_less(*b, *a));
            proof {
                lemma_key_antisymmetric(*b, *a);
            }
            return KeyOrder::Greater;
        }
        assert(a@.take(i + 1) =~= a@.take(i as int).push(a[i as int]));
        assert(b@.take(i + 1) =~= b@.take(i as int).push(b[i as int]));
        i = i + 1;
    }
    assert(*a == *b) by {
        assert(a@ =~= a@.take(32));
        assert(b@ =~= b@.take(32));
        assert(*a =~= *b);
    }
    proof {
        if key_less(*a, *b) {
            lemma_key_antisymmetric(*a, *b);
        }
    }
    KeyOrder::Equal
}

impl ValidatorWhitelist {
    /// The count does not exceed the slots.
    pub open spec fn wf(&self) -> bool {
        self.count <= WHITELIST_CAPACITY
    }

    /// An empty whitelist; every slot holds the zero key.
    pub fn new() -> (whitelist: Self)
        ensures
            whitelist.wf(),
            whitelist.count == 0,
            whitelist@ == Seq::<[u8; 32]>::empty(),
            forall|i: int, b: int|
                0 <= i < WHITELIST_CAPACITY && 0 <= b < 32 ==> whitelist.keys[i][b] == 0,
    {
        ValidatorWhitelist { count: 0, keys: [[0u8; 32]; 2048] }
    }

    /// Whether `pubkey` is a trusted key: a linear scan that compares two keys per step.
    ///
    /// Each step compares the chunk `[key_i | key_{i+1}]` with the target
    /// `[pubkey | pubkey]`. The low half of the mask is full when `key_i` matches, the high
    /// half when `key_{i+1}` does. With an odd count the last step has no second key: the
    /// slot past the end is loaded, but its half of the mask is not consulted.
    pub fn is_trusted_avx512(&self, pubkey: &[u8; 32]) -> (trusted: bool)
        requires
            self.wf(),
        ensures
            scan_answers(self@, *pubkey, trusted),
    {
        let mut i: usize = 0;
        while i < self.count
            invariant
                self.wf(),
                i % 2 == 0,
                i <= self.count + 1,
                forall|j: int| 0 <= j < i && j < self.count ==> self@[j] != *pubkey,
            decreases self.count + 1 - i,
        {
            let mask: u64 = equal_byte_mask(&self.keys[i], &self.keys[i + 1], pubkey);
            proof {
                lemma_low_half_full(mask);
                lemma_high_half_full(mask);
                lemma_halves_match(self.keys[i as int], self.keys[i + 1], *pubkey, mask);
            }
            if (mask & 0xFFFF_FFFF) == 0xFFFF_FFFF {
                assert(self@[i as int] == *pubkey);
                return true;
            }
            if i + 1 < self.count && (mask >> 32) == 0xFFFF_FFFF {
                assert(self@[i + 1] == *pubkey);
                return true;
            }
            i = i + 2;
        }
        false
    }

    /// Whether `pubkey` is a trusted key: a binary search, for a sorted list.
    pub fn is_trusted(&self, pubkey: &[u8; 32]) -> (trusted: bool)
        requires
            self.wf(),
        ensures
            search_answers(self@, *pubkey, trusted),
    {
        let mut low: usize = 0;
        let mut high: usize = self.count;
        while low < high
            invariant
                self.wf(),
                low <= high <= self.count,
                sorted(self@) ==> forall|j: int| 0 <= j < low ==> key_less(self@[j], *pubkey),
                sorted(self@) ==> forall|j: int|
                    high <= j < self.count ==> key_less(*pubkey, self@[j]),
            decreases high - low,
        {
            let mid: usize = low + (high - low) / 2;
            assert(self@[mid as int] == self.keys[mid as int]);
            match key_order(&self.keys[mid], pubkey) {
                KeyOrder::Equal => {
                    return true;
                },
                KeyOrder::Less => {
                    proof {
                        if sorted(self@) {
                            assert forall|j: int| 0 <= j < mid + 1 implies key_less(
                                self@[j],
                                *pubkey,
                            ) by {
                                lemma_key_below(self@[j], self@[mid as int], *pubkey);
                            }
                        }
                    }
                    low = mid + 1;
                },
                KeyOrder::Greater => {
                    proof {
                        if sorted(self@) {
                            assert forall|j: int| mid <= j < self.count implies key_less(
                                *pubkey,
                                self@[j],
                            ) by {
                                lemma_key_above(*pubkey, self@[mid as int], self@[j]);
                            }
                        }
                    }
                    high = mid;
                },
            }
        }
        proof {
            if sorted(self@) && self@.contains(*pubkey) {
                let j = choose|j: int| 0 <= j < self@.len() && self@[j] == *pubkey;
                lemma_key_antisymmetric(*pubkey, *pubkey);
            }
        }
        false
    }

    /// Sets how many slots are trusted, at most all of them. The slots keep what they hold.
    pub fn set_count(&mut self, count: usize)
        ensures
            counted(*old(self), count, *final(self)),
    {
        self.count = if count <= WHITELIST_CAPACITY { count } else { WHITELIST_CAPACITY };
    }
}

/// How `set_count` changes the whitelist: the count becomes `count`, cut at the capacity.
pub open spec fn counted(
    before: ValidatorWhitelist,
    count: usize,
    after: ValidatorWhitelist,
) -> bool {
    &&& after.count == (if count <= WHITELIST_CAPACITY {
        count
    } else {
        WHITELIST_CAPACITY
    })
    &&& after.keys == before.keys
}

/// The halves of the mask of `[first | second]` against `[target | target]` tell which of
/// the two keys is the target.
proof fn lemma_halves_match(first: [u8; 32], second: [u8; 32], target: [u8; 32], mask: u64)
    requires
        forall|l: int|
            0 <= l < 64 ==> lane_set(mask, l) == ((first@ + second@)[l] == (target@ + target@)[l]),
    ensures
        (forall|l: int| 0 <= l < 32 ==> lane_set(mask, l)) <==> first == target,
        (forall|l: int| 32 <= l < 64 ==> lane_set(mask, l)) <==> second == target,
{
    if forall|l: int| 0 <= l < 32 ==> lane_set(mask, l) {
        assert forall|l: int| 0 <= l < 32 implies first[l] == target[l] by {
            assert(lane_set(mask, l));
        }
        assert(first =~= target);
    }
    if forall|l: int| 32 <= l < 64 ==> lane_set(mask, l) {
        assert forall|l: int| 0 <= l < 32 implies second[l] == target[l] by {
            assert(lane_set(mask, l + 32));
        }
        assert(second =~= target);
    }
}

/// How `update_static_keys` changes the whitelist: the trusted keys become `sorted_keys`, cut
/// at the capacity; the slots past them keep what they hold.
pub open spec fn updated(
    before: ValidatorWhitelist,
    sorted_keys: Seq<[u8; 32]>,
    after: ValidatorWhitelist,
) -> bool {
    &&& after.wf()
    &&& after@ == storable(sorted_keys)
    &&& after.keys@.skip(after.count as int) == before.keys@.skip(after.count as int)
}

/// Replaces the trusted keys. `sorted_keys` is expected in ascending order, which the binary
/// search relies on.
pub fn update_static_keys(whitelist: &mut ValidatorWhitelist, sorted_keys: &[[u8; 32]])
    ensures
        updated(*old(whitelist), sorted_keys@, *final(whitelist)),
{
    let len: usize = sorted_keys.len();
    let count: usize = if len <= WHITELIST_CAPACITY { len } else { WHITELIST_CAPACITY };
    let mut i: usize = 0;
    while i < count
        invariant
            i <= count <= WHITELIST_CAPACITY,
            count <= sorted_keys@.len(),
            forall|j: int| 0 <= j < i ==> whitelist.keys[j] == sorted_keys@[j],
            forall|j: int|
                i <= j < WHITELIST_CAPACITY ==> whitelist.keys[j] == old(whitelist).keys[j],
        decreases count - i,
    {
        whitelist.keys[i] = sorted_keys[i];
        i = i + 1;
    }
    whitelist.set_count(count);
    assert(whitelist@ =~= storable(sorted_keys@));
    assert(whitelist.keys@.skip(count as int) =~= old(whitelist).keys@.skip(count as int));
}

/// On a sorted list the linear scan and the binary search give the same answer for every
/// key.
pub proof fn law_checks_agree(
    list: Seq<[u8; 32]>,
    pubkey: [u8; 32],
    scanned: bool,
    searched: bool,
)
    requires
        sorted(list),
        scan_answers(list, pubkey, scanned),
        search_answers(list, pubkey, searched),
    ensures
        scanned == searched,
{
}

/// After an update with any keys, the scan answers yes for every key that was stored and no
/// for every other key. All keys are stored when they fit.
pub proof fn law_update_then_scan(
    before: ValidatorWhitelist,
    keys: Seq<[u8; 32]>,
    after: ValidatorWhitelist,
    pubkey: [u8; 32],
    scanned: bool,
)
    requires
        updated(before, keys, after),
        scan_answers(after@, pubkey, scanned),
    ensures
        scanned == storable(keys).contains(pubkey),
        keys.len() <= WHITELIST_CAPACITY ==> scanned == keys.contains(pubkey),
{
}

/// After an update with sorted keys, the binary search answers yes for every key that was
/// stored and no for every other key. All keys are stored when they fit.
pub proof fn law_update_then_search(
    before: ValidatorWhitelist,
    sorted_keys: Seq<[u8; 32]>,
    after: ValidatorWhitelist,
    pubkey: [u8; 32],
    searched: bool,
)
    requires
        sorted(sorted_keys),
        updated(before, sorted_keys, after),
        search_answers(after@, pubkey, searched),
    ensures
        searched == storable(sorted_keys).contains(pubkey),
        sorted_keys.len() <= WHITELIST_CAPACITY ==> searched == sorted_keys.contains(pubkey),
{
    assert(sorted(storable(sorted_keys)));
}

/// An update replaces the whole list: the trusted keys afterwards do not depend on those
/// before, so a key that the new list lacks is no longer trusted.
pub proof fn law_update_replaces(
    before: ValidatorWhitelist,
    other: ValidatorWhitelist,
    sorted_keys: Seq<[u8; 32]>,
    after_before: ValidatorWhitelist,
    after_other: ValidatorWhitelist,
)
    requires
        updated(before, sorted_keys, after_before),
        updated(other, sorted_keys, after_other),
    ensures
        after_before@ == after_other@,
{
}

/// Lowering the count keeps a prefix of the trusted keys, and setting it back restores them.
pub proof fn law_count_restores(
    whitelist: ValidatorWhitelist,
    count: usize,
    lowered: ValidatorWhitelist,
    restored: ValidatorWhitelist,
)
    requires
        whitelist.wf(),
        count <= whitelist.count,
        counted(whitelist, count, lowered),
        counted(lowered, whitelist.count, restored),
    ensures
        lowered@ == whitelist@.take(count as int),
        restored == whitelist,
{
    assert(lowered@ =~= whitelist@.take(count as int));
}

/// Keys are ordered by the first byte where they differ: the one with the smaller byte there is
/// the lesser, whatever the bytes after it.
pub proof fn law_key_order(a: [u8; 32], b: [u8; 32], i: int)
    requires
        0 <= i < 32,
        forall|k: int| 0 <= k < i ==> a[k] == b[k],
        a[i] < b[i],
    ensures
        key_less(a, b),
        !key_less(b, a),
        a != b,
{
    assert(a@.take(i) =~= b@.take(i));
    assert(key_less(a, b));
    lemma_key_antisymmetric(a, b);
}

/// No key is less than itself, and of two keys with a different byte one is less.
pub proof fn law_key_order_total(a: [u8; 32], b: [u8; 32])
    ensures
        !key_less(a, a),
        (exists|k: int| 0 <= k < 32 && a[k] != b[k]) ==> key_less(a, b) != key_less(b, a),
{
    if key_less(a, a) {
        lemma_key_antisymmetric(a, a);
    }
    if exists|k: int| 0 <= k < 32 && a[k] != b[k] {
        let k = choose|k: int| 0 <= k < 32 && a[k] != b[k];
        lemma_key_total(a, b, 32);
        assert(a@.take(32)[k] != b@.take(32)[k]);
        if key_less(a, b) {
            lemma_key_antisymmetric(a, b);
        }
    }
}

/// In a list whose neighbours are in order, no key is less than one before it.
proof fn lemma_neighbours_sort(keys: Seq<[u8; 32]>, i: int, j: int)
    requires
        0 <= i <= j < keys.len(),
        forall|n: int|
            0 <= n < keys.len() - 1 ==> (#[trigger] keys[n]) == keys[n + 1] || key_less(
                keys[n],
                keys[n + 1],
            ),
    ensures
        !key_less(keys[j], keys[i]),
    decreases j - i,
{
    if i == j {
        law_key_order_total(keys[i], keys[i]);
    } else {
        lemma_neighbours_sort(keys, i, j - 1);
        let n = j - 1;
        assert(keys[n] == keys[n + 1] || key_less(keys[n], keys[n + 1]));
        if key_less(keys[n], keys[j]) && key_less(keys[j], keys[i]) {
            lemma_key_antisymmetric(keys[n], keys[j]);
            lemma_key_below(keys[n], keys[j], keys[i]);
        }
    }
}

/// A list is sorted when each key equals the next or has the smaller byte at the first byte
/// where the two differ.
pub proof fn law_sorted_bytewise(keys: Seq<[u8; 32]>)
    requires
        forall|n: int|
            0 <= n < keys.len() - 1 ==> (#[trigger] keys[n]) == keys[n + 1] || exists|i: int|
                0 <= i < 32 && (#[trigger] keys[n][i]) < keys[n + 1][i] && forall|k: int|
                    0 <= k < i ==> keys[n][k] == keys[n + 1][k],
    ensures
        sorted(keys),
{
    assert forall|n: int| 0 <= n < keys.len() - 1 implies (#[trigger] keys[n]) == keys[n + 1]
        || key_less(keys[n], keys[n + 1]) by {
        if keys[n] != keys[n + 1] {
            let i = choose|i: int|
                0 <= i < 32 && (#[trigger] keys[n][i]) < keys[n + 1][i] && forall|k: int|
                    0 <= k < i ==> keys[n][k] == keys[n + 1][k];
            law_key_order(keys[n], keys[n + 1], i);
        }
    }
    assert forall|i: int, j: int| 0 <= i <= j < keys.len() implies !key_less(keys[j], keys[i]) by {
        lemma_neighbours_sort(keys, i, j);
    }
}

/// The trusted keys are those in the first `count` slots, all of them and in slot order.
pub proof fn law_trusted_slots(whitelist: ValidatorWhitelist)
    requires
        whitelist.count <= WHITELIST_CAPACITY,
    ensures
        whitelist.wf(),
        whitelist@.len() == whitelist.count,
        forall|j: int| 0 <= j < whitelist.count ==> #[trigger] whitelist@[j] == whitelist.keys[j],
{
}

/// The scan answers yes exactly when one of the first `count` slots holds the key.
pub proof fn law_scan_is_membership(
    whitelist: ValidatorWhitelist,
    pubkey: [u8; 32],
    scanned: bool,
)
    requires
        whitelist.count <= WHITELIST_CAPACITY,
        scan_answers(whitelist@, pubkey, scanned),
    ensures
        scanned <==> exists|j: int| 0 <= j < whitelist.count && whitelist.keys[j] == pubkey,
{
    if scanned {
        let j = choose|j: int| 0 <= j < whitelist@.len() && whitelist@[j] == pubkey;
        assert(whitelist.keys[j] == pubkey);
    }
    if exists|j: int| 0 <= j < whitelist.count && whitelist.keys[j] == pubkey {
        let j = choose|j: int| 0 <= j < whitelist.count && whitelist.keys[j] == pubkey;
        assert(whitelist@[j] == pubkey);
    }
}

/// The search answers yes only for a key that one of the first `count` slots holds. When each
/// key there equals the next or has the smaller byte at the first byte where the two differ, it
/// answers yes for every such key.
pub proof fn law_search_is_membership(
    whitelist: ValidatorWhitelist,
    pubkey: [u8; 32],
    searched: bool,
)
    requires
        whitelist.count <= WHITELIST_CAPACITY,
        search_answers(whitelist@, pubkey, searched),
    ensures
        searched ==> exists|j: int| 0 <= j < whitelist.count && whitelist.keys[j] == pubkey,
        (forall|n: int|
            0 <= n < whitelist.count - 1 ==> (#[trigger] whitelist.keys[n]) == whitelist.keys[n + 1]
                || exists|i: int|
                0 <= i < 32 && (#[trigger] whitelist.keys[n][i]) < whitelist.keys[n + 1][i]
                    && forall|k: int|
                    0 <= k < i ==> whitelist.keys[n][k] == whitelist.keys[n + 1][k]) ==> (searched
            <==> exists|j: int| 0 <= j < whitelist.count && whitelist.keys[j] == pubkey),
{
    let list = whitelist@;
    if searched {
        let j = choose|j: int| 0 <= j < list.len() && list[j] == pubkey;
        assert(whitelist.keys[j] == pubkey);
    }
    if forall|n: int|
        0 <= n < whitelist.count - 1 ==> (#[trigger] whitelist.keys[n]) == whitelist.keys[n + 1]
            || exists|i: int|
            0 <= i < 32 && (#[trigger] whitelist.keys[n][i]) < whitelist.keys[n + 1][i]
                && forall|k: int|
                0 <= k < i ==> whitelist.keys[n][k] == whitelist.keys[n + 1][k] {
        assert forall|n: int| 0 <= n < list.len() - 1 implies (#[trigger] list[n]) == list[n + 1]
            || exists|i: int|
            0 <= i < 32 && (#[trigger] list[n][i]) < list[n + 1][i] && forall|k: int|
                0 <= k < i ==> list[n][k] == list[n + 1][k] by {
            assert(list[n] == whitelist.keys[n]);
            assert(list[n + 1] == whitelist.keys[n + 1]);
            if list[n] != list[n + 1] {
                let i = choose|i: int|
                    0 <= i < 32 && (#[trigger] whitelist.keys[n][i]) < whitelist.keys[n + 1][i]
                        && forall|k: int|
                        0 <= k < i ==> whitelist.keys[n][k] == whitelist.keys[n + 1][k];
                assert(list[n][i] < list[n + 1][i]);
            }
        }
        law_sorted_bytewise(list);
        if exists|j: int| 0 <= j < whitelist.count && whitelist.keys[j] == pubkey {
            let j = choose|j: int| 0 <= j < whitelist.count && whitelist.keys[j] == pubkey;
            assert(list[j] == pubkey);
        }
    }
}

/// An update stores the given keys from the first slot on, as many as there are slots, counts
/// exactly those, and leaves the slots past them as they were.
pub proof fn law_update_stores(
    before: ValidatorWhitelist,
    keys: Seq<[u8; 32]>,
    after: ValidatorWhitelist,
)
    requires
        updated(before, keys, after),
    ensures
        keys.len() <= WHITELIST_CAPACITY ==> after.count == keys.len(),
        keys.len() > WHITELIST_CAPACITY ==> after.count == WHITELIST_CAPACITY,
        forall|j: int| 0 <= j < after.count ==> (#[trigger] after.keys[j]) == keys[j],
        forall|j: int|
            after.count <= j < WHITELIST_CAPACITY ==> (#[trigger] after.keys[j]) == before.keys[j],
{
    assert(after@.len() == after.count);
    assert forall|j: int| 0 <= j < after.count implies (#[trigger] after.keys[j]) == keys[j] by {
        assert(after@[j] == after.keys[j]);
    }
    let count = after.count as int;
    assert forall|j: int| count <= j < WHITELIST_CAPACITY implies (#[trigger] after.keys[j])
        == before.keys[j] by {
        assert(after.keys@.skip(count)[j - count] == after.keys[j]);
        assert(before.keys@.skip(count)[j - count] == before.keys[j]);
    }
}

/// Setting the count sets it to the given number, or to the number of slots where that is
/// smaller, and touches no slot.
pub proof fn law_count_set(before: ValidatorWhitelist, count: usize, after: ValidatorWhitelist)
    requires
        counted(before, count, after),
    ensures
        after.count <= count && after.count <= WHITELIST_CAPACITY,
        after.count == count || after.count == WHITELIST_CAPACITY,
        forall|j: int| 0 <= j < WHITELIST_CAPACITY ==> (#[trigger] after.keys[j]) == before.keys[j],
{
}

/// After an update with keys in bytewise order both checks answer yes exactly for the keys that
/// were given and have a slot.
pub proof fn law_updated_keys_are_found(
    before: ValidatorWhitelist,
    keys: Seq<[u8; 32]>,
    after: ValidatorWhitelist,
    pubkey: [u8; 32],
    scanned: bool,
    searched: bool,
)
    requires
        forall|n: int|
            0 <= n < keys.len() - 1 ==> (#[trigger] keys[n]) == keys[n + 1] || exists|i: int|
                0 <= i < 32 && (#[trigger] keys[n][i]) < keys[n + 1][i] && forall|k: int|
                    0 <= k < i ==> keys[n][k] == keys[n + 1][k],
        updated(before, keys, after),
        scan_answers(after@, pubkey, scanned),
        search_answers(after@, pubkey, searched),
    ensures
        scanned <==> exists|j: int|
            0 <= j < keys.len() && j < WHITELIST_CAPACITY && keys[j] == pubkey,
        searched <==> scanned,
{
    law_sorted_bytewise(keys);
    law_update_then_search(before, keys, after, pubkey, searched);
    law_update_then_scan(before, keys, after, pubkey, scanned);
    let stored = storable(keys);
    if scanned {
        let j = choose|j: int| 0 <= j < stored.len() && stored[j] == pubkey;
        assert(keys[j] == pubkey);
    }
    if exists|j: int| 0 <= j < keys.len() && j < WHITELIST_CAPACITY && keys[j] == pubkey {
        let j = choose|j: int| 0 <= j < keys.len() && j < WHITELIST_CAPACITY && keys[j] == pubkey;
        assert(stored[j] == pubkey);
    }
}

} // verus!
