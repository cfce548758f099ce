//! AF_XDP zero-copy packet capture: the capture front-end.
//!
//! Start-up has two phases. `init_sync` derives the UMEM region from what the blocking set-up
//! found and makes the initial state; `run_loop` moves the state and the rings into a worker,
//! which then decides every step of the packet loop.

use crate::dma::{mapping_valid, umem_extent, DmaRegion, UmemMapping};
use crate::frame::FrameDesc;
use crate::rings::{FrameConsumer, FrameProducer};
use crate::worker::{CaptureWorker, Phase, WorkerState, UMEM_FRAME_COUNT};
use vstd::prelude::*;

verus! {

/// The NIC queue that is captured.
pub const GOSSIP_QUEUE_ID: u32 = 14;

/// What the worker starts from: the UMEM region and its size, the initial frame descriptors,
/// the interface and the core to run on.
pub struct AfXdpState {
    pub umem_base: DmaRegion,
    pub umem_size: usize,
    pub descs: Vec<FrameDesc>,
    pub iface: String,
    pub core_id: usize,
}

/// The capture front-end. Owns its ends of the rings to and from the consumer until the
/// worker takes them.
pub struct AfXdpGossipFilter {
    iface: String,
    g_prod: Option<FrameProducer>,
    r_cons: Option<FrameConsumer>,
}

impl AfXdpGossipFilter {
    /// The name of the interface.
    pub closed spec fn iface(&self) -> Seq<char> {
        self.iface@
    }

    /// The write end of the consumer's ring, until the worker takes it.
    pub closed spec fn producer(&self) -> Option<FrameProducer> {
        self.g_prod
    }

    /// The read end of the ring of returned descriptors, until the worker takes it.
    pub closed spec fn consumer(&self) -> Option<FrameConsumer> {
        self.r_cons
    }

    /// A front-end for an interface that forwards to `g_prod` and gets descriptors back from
    /// `r_cons`.
    pub fn new(iface: String, g_prod: FrameProducer, r_cons: FrameConsumer) -> (filter: Self)
        ensures
            filter.iface() == iface@,
            filter.producer() == Some(g_prod),
            filter.consumer() == Some(r_cons),
    {
        AfXdpGossipFilter { iface, g_prod: Some(g_prod), r_cons: Some(r_cons) }
    }

    /// Phase one: makes the initial state from the frame descriptors of the UMEM and from where
    /// its frames lie, and gives the region for the consumer.
    pub fn init_sync(&mut self, core_id: usize, descs: Vec<FrameDesc>, mapping: UmemMapping) -> (ready:
        (AfXdpState, DmaRegion))
        requires
            descs@.len() > 0,
            mapping_valid(mapping, descs@[0].addr),
        ensures
            *final(self) == *old(self),
            ready.0.descs@ == descs@,
            ready.0.iface@ == old(self).iface(),
            ready.0.core_id == core_id,
            ready.0.umem_base == ready.1,
            ready.1@ + descs@[0].addr + mapping.first_headroom_len == mapping.first_data,
            ready.1@ + ready.0.umem_size == mapping.last_data + mapping.last_data_len,
    {
        let (region, umem_size) = umem_extent(mapping, descs[0].addr());
        let state = AfXdpState {
            umem_base: region,
            umem_size,
            descs,
            iface: self.iface.clone(),
            core_id,
        };
        (state, region)
    }

    /// Phase two: moves the initial descriptors and the rings into a worker whose thread is
    /// about to start. The front-end has no rings afterwards.
    pub fn run_loop(&mut self, state: AfXdpState) -> (worker: CaptureWorker)
        requires
            old(self).producer() is Some,
            old(self).consumer() is Some,
            state.descs@.len() <= UMEM_FRAME_COUNT,
        ensures
            final(self).producer() is None,
            final(self).consumer() is None,
            final(self).iface() == old(self).iface(),
            worker@ == (WorkerState {
                phase: Phase::Start,
                core_id: state.core_id,
                pending: state.descs@,
                head: 0,
                capacity: UMEM_FRAME_COUNT as nat,
                gossip: old(self).producer()->0@,
                gossip_capacity: old(self).producer()->0.capacity(),
                tried: old(self).producer()->0.tried(),
                returned: old(self).consumer()->0@,
                taken: old(self).consumer()->0.taken(),
                polls: old(self).consumer()->0.polls(),
                completed: 0,
                received: 0,
            }),
    {
        let gossip_prod = self.g_prod.take().unwrap();
        let return_cons = self.r_cons.take().unwrap();
        CaptureWorker::new(&state.descs, state.core_id, gossip_prod, return_cons)
    }
}

} // verus!
