//! Frame descriptors and their recycling.

use vstd::prelude::*;

verus! {

/// The size of a UMEM frame in bytes.
pub const FRAME_SIZE: usize = 4096;

/// Clears the offset within a frame from an address.
pub const FRAME_MASK: usize = !4095;

/// Describes a packet in a UMEM frame. `addr` is the offset in bytes of the packet data from
/// the start of the UMEM; the lengths tell how much of the headroom and of the data segment is
/// in use.
#[derive(Clone, Copy, Debug, PartialEq, Eq, Structural)]
pub struct FrameDesc {
    pub addr: usize,
    pub options: u32,
    pub headroom_len: usize,
    pub data_len: usize,
}

impl Default for FrameDesc {
    /// An empty descriptor with address zero.
    fn default() -> (desc: Self)
        ensures
            desc == (FrameDesc { addr: 0, options: 0, headroom_len: 0, data_len: 0 }),
    {
        FrameDesc { addr: 0, options: 0, headroom_len: 0, data_len: 0 }
    }
}

/// The start of the frame that holds the address.
pub open spec fn frame_start(addr: usize) -> usize {
    (addr - addr % FRAME_SIZE) as usize
}

/// The descriptor with its address moved back to the start of its frame.
pub open spec fn recycled(desc: FrameDesc) -> FrameDesc {
    FrameDesc { addr: frame_start(desc.addr), ..desc }
}

/// Every descriptor with its address moved back to the start of its frame.
pub open spec fn all_recycled(descs: Seq<FrameDesc>) -> Seq<FrameDesc> {
    descs.map_values(|desc: FrameDesc| recycled(desc))
}

impl FrameDesc {
    /// The offset of the packet data from the start of the UMEM.
    pub fn addr(&self) -> (addr: usize)
        ensures
            addr == self.addr,
    {
        self.addr
    }

    /// Replaces the address; nothing else changes.
    pub fn set_addr(&mut self, addr: usize)
        ensures
            *final(self) == (FrameDesc { addr, ..*old(self) }),
    {
        self.addr = addr;
    }
}

/// Prepares a descriptor for the fill queue: moves its address back to the start of its
/// frame.
pub fn recycle(desc: FrameDesc) -> (clean: FrameDesc)
    ensures
        clean == recycled(desc),
        clean.addr == desc.addr - desc.addr % FRAME_SIZE,
        clean.options == desc.options,
        clean.headroom_len == desc.headroom_len,
        clean.data_len == desc.data_len,
{
    let mut desc = desc;
    let clean_addr: usize = desc.addr() & FRAME_MASK;
    proof {
        let addr = desc.addr;
        assert(addr & !4095usize == addr - addr % 4096) by (bit_vector);
    }
    desc.set_addr(clean_addr);
    desc
}

/// Recycling keeps a descriptor in its frame, puts it at the start of the frame, changes
/// nothing but the address, and does nothing more when repeated.
pub proof fn law_recycled_frame(desc: FrameDesc)
    ensures
        recycled(desc).addr / FRAME_SIZE == desc.addr / FRAME_SIZE,
        recycled(desc).addr % FRAME_SIZE == 0,
        recycled(desc).addr <= desc.addr < recycled(desc).addr + FRAME_SIZE,
        recycled(desc).options == desc.options,
        recycled(desc).headroom_len == desc.headroom_len,
        recycled(desc).data_len == desc.data_len,
        recycled(recycled(desc)) == recycled(desc),
{
}

/// Recycling a sequence moves every descriptor of it to the start of its frame, whatever the
/// packet: none is left out, added or moved elsewhere, and nothing else of it changes.
pub proof fn law_all_recycled(descs: Seq<FrameDesc>)
    ensures
        all_recycled(descs).len() == descs.len(),
        forall|i: int|
            0 <= i < descs.len() ==> (#[trigger] all_recycled(descs)[i]).addr == descs[i].addr
                - descs[i].addr % FRAME_SIZE,
        forall|i: int|
            0 <= i < descs.len() ==> (#[trigger] all_recycled(descs)[i]).options
                == descs[i].options,
        forall|i: int|
            0 <= i < descs.len() ==> (#[trigger] all_recycled(descs)[i]).headroom_len
                == descs[i].headroom_len,
        forall|i: int|
            0 <= i < descs.len() ==> (#[trigger] all_recycled(descs)[i]).data_len
                == descs[i].data_len,
{
}

} // verus!
