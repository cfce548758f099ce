//! Addresses of the zero-copy DMA region.
//!
//! Addresses are plain numbers here; turning one into a pointer and reading through it is
//! left to the caller.

use vstd::prelude::*;

verus! {

/// The size of a cache line in bytes.
pub const CACHE_LINE: usize = 64;

/// The base address of the zero-copy DMA region (the UMEM base). It is never null.
#[derive(Clone, Copy, Debug)]
pub struct DmaRegion {
    base: usize,
}

impl DmaRegion {
    #[verifier::type_invariant]
    closed spec fn not_null(self) -> bool {
        self.base != 0
    }

    /// The base address.
    pub closed spec fn view(&self) -> usize {
        self.base
    }

    /// The region at a base address, which must not be null.
    pub fn new(ptr: usize) -> (region: Self)
        requires
            ptr != 0,
        ensures
            region@ == ptr,
    {
        DmaRegion { base: ptr }
    }

    /// The base address.
    pub fn as_ptr(self) -> (ptr: usize)
        ensures
            ptr == self@,
            ptr != 0,
    {
        proof {
            use_type_invariant(&self);
        }
        self.base
    }

    /// The addresses of the two cache lines to prefetch for the frame at `offset`: that of the
    /// frame header and that of the line after it.
    pub fn prefetch_at(self, offset: usize) -> (lines: (usize, usize))
        requires
            self@ + offset + CACHE_LINE <= usize::MAX,
        ensures
            lines.0 == self@ + offset,
            lines.1 == self@ + offset + CACHE_LINE,
    {
        let header: usize = self.base + offset;
        (header, header + CACHE_LINE)
    }

    /// The address range of `len` bytes at `offset`, from its first byte to past its last.
    pub fn slice(self, offset: usize, len: usize) -> (range: (usize, usize))
        requires
            self@ + offset + len <= usize::MAX,
        ensures
            range.0 == self@ + offset,
            range.1 == self@ + offset + len,
    {
        let start: usize = self.base + offset;
        (start, start + len)
    }
}

/// The region at a published base address; none while the address is null.
pub fn get_umem_base_dma(published: usize) -> (region: Option<DmaRegion>)
    ensures
        region is None <==> published == 0,
        region matches Some(region) ==> region@ == published,
{
    if published == 0 {
        None
    } else {
        Some(DmaRegion::new(published))
    }
}

/// Where the first and the last frame of a UMEM lie in memory: the address of the data of
/// each, the length of the headroom before that of the first, and the length of that of the
/// last.
#[derive(Clone, Copy, Debug, PartialEq, Eq, Structural)]
pub struct UmemMapping {
    pub first_data: usize,
    pub first_headroom_len: usize,
    pub last_data: usize,
    pub last_data_len: usize,
}

/// Whether the frames lie in one region whose base is not null: the first frame's offset and
/// headroom lie before its data, and the last frame ends at or past the base.
pub open spec fn mapping_valid(mapping: UmemMapping, first_addr: usize) -> bool {
    &&& first_addr + mapping.first_headroom_len < mapping.first_data
    &&& mapping.last_data + mapping.last_data_len <= usize::MAX
    &&& mapping.last_data + mapping.last_data_len >= mapping.first_data - first_addr
        - mapping.first_headroom_len
}

/// Every UMEM that begins past the null address, ends within the address space and does not
/// end before it begins is valid.
pub proof fn law_mapping_valid(mapping: UmemMapping, first_addr: usize, base: int, size: nat)
    requires
        base > 0,
        base + first_addr + mapping.first_headroom_len == mapping.first_data,
        base + size == mapping.last_data + mapping.last_data_len,
        base + size <= usize::MAX,
    ensures
        mapping_valid(mapping, first_addr),
{
}

/// The base address and the size of the UMEM, from the offset of its first frame and where
/// the frames lie. The base accounts for the headroom: it lies before the data of the first
/// frame by the frame's offset and its headroom. The UMEM reaches to the end of the last
/// frame.
pub fn umem_extent(mapping: UmemMapping, first_addr: usize) -> (extent: (DmaRegion, usize))
    requires
        mapping_valid(mapping, first_addr),
    ensures
        extent.0@ + first_addr + mapping.first_headroom_len == mapping.first_data,
        extent.0@ + extent.1 == mapping.last_data + mapping.last_data_len,
{
    let base: usize = mapping.first_data - first_addr - mapping.first_headroom_len;
    let end: usize = mapping.last_data + mapping.last_data_len;
    (DmaRegion::new(base), end - base)
}

} // verus!
