//! Trusted-IP membership: a table of IPv4 addresses scanned 16 at a time.

use crate::lanes::{equal_word_mask, lane_set, lemma_any_lane};
use vstd::prelude::*;

verus! {

/// The number of address slots.
pub const IP_TABLE_CAPACITY: usize = 1024;

/// The number of addresses compared per step.
pub const IP_LANES: usize = 16;

/// The address slots. How many of them, from the first, hold trusted addresses is kept
/// apart.
pub struct AlignedIpTable {
    pub data: [u32; 1024],
}

impl AlignedIpTable {
    /// A table whose slots all hold zero.
    pub fn new() -> (table: Self)
        ensures
            forall|i: int| 0 <= i < IP_TABLE_CAPACITY ==> table.data[i] == 0,
    {
        AlignedIpTable { data: [0u32; 1024] }
    }
}

/// Whether `ip` is in the trusted set, the first `count` addresses of `table`: a linear
/// scan, 16 addresses per step. Lanes past the last trusted address do not count.
pub fn is_ip_trusted(table: &AlignedIpTable, count: usize, ip: u32) -> (trusted: bool)
    requires
        count <= IP_TABLE_CAPACITY,
    ensures
        trusted == table.data@.take(count as int).contains(ip),
{
    let mut i: usize = 0;
    let ghost ips = table.data@.take(count as int);
    while i < count
        invariant
            count <= IP_TABLE_CAPACITY,
            ips == table.data@.take(count as int),
            i <= count + 15,
            forall|j: int| 0 <= j < i && j < count ==> ips[j] != ip,
        decreases count + 15 - i,
    {
        let left: usize = count - i;
        let lanes: usize = if left < IP_LANES { left } else { IP_LANES };
        let mask: u64 = equal_word_mask(&table.data, i, lanes, ip);
        proof {
            lemma_any_lane(mask);
        }
        if mask != 0 {
            proof {
                let l = choose|l: int| 0 <= l < 64 && lane_set(mask, l);
                assert(ips[i + l] == ip);
            }
            return true;
        }
        assert forall|j: int| 0 <= j < i + IP_LANES && j < count implies ips[j] != ip by {
            if j >= i {
                assert(!lane_set(mask, j - i));
            }
        }
        i = i + IP_LANES;
    }
    false
}

} // verus!
