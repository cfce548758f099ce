//! The capture loop as a state machine.
//!
//! The worker does no I/O. Whoever runs the loop performs the action that the worker asks for
//! and hands back what came of it as the next event. First of all the thread that runs the loop
//! asks to be pinned to its core. Then, in each iteration:
//!
//! 1. recycle the descriptors that the consumer returned;
//! 2. recycle those that the completion queue released;
//! 3. forward received frames to the consumer, or recycle them when its ring is full;
//! 4. refill the fill queue from the pending descriptors, in at most two slices;
//! 5. pause when neither queue had anything.

use crate::frame::{all_recycled, FrameDesc};
use crate::pocket::{wrap, RingPocket};
use crate::recycling::{
    forward_received, forwarded, found, recycle_completed, recycle_returned, returns_recycled,
};
use crate::rings::{FrameConsumer, FrameProducer};
use vstd::arithmetic::power2::is_pow2;
use vstd::prelude::*;

verus! {

/// The number of UMEM frames, and of slots for pending descriptors.
pub const UMEM_FRAME_COUNT: usize = 4096;

/// The most frames that one poll of the receive queue takes.
pub const RX_BATCH_SIZE: usize = 64;

/// The most frames that one poll of the completion queue takes.
pub const COMP_BATCH_SIZE: usize = 32;

/// What the worker waits for.
#[derive(Clone, Copy, Debug, PartialEq, Eq, Structural)]
pub enum Phase {
    /// The start of the thread that runs the loop.
    Start,
    /// That the thread has asked to be pinned.
    Pin,
    /// The value of the stop flag.
    PollStop,
    /// What the completion queue released.
    Complete,
    /// What the receive queue delivered.
    Receive,
    /// How much of the first slice the fill queue accepted.
    FillFirst,
    /// How much of the second slice the fill queue accepted.
    FillSecond,
    /// Nothing: the loop is over.
    Stopped,
}

/// What came of the action that the worker asked for.
pub enum Event<'a> {
    /// The thread that runs the loop has started.
    Started,
    /// The thread has asked to be pinned.
    Pinned,
    /// The stop flag.
    Stop(bool),
    /// The descriptors that the completion queue released.
    Completed(&'a [FrameDesc]),
    /// The descriptors that the receive queue delivered.
    Received(&'a [FrameDesc]),
    /// How many descriptors of the offered slice the fill queue accepted.
    Produced(usize),
}

/// What the worker asks for.
#[derive(Clone, Copy, Debug, PartialEq, Eq, Structural)]
pub enum Action {
    /// Ask for the running thread to be pinned to this core.
    Pin(usize),
    /// Read the stop flag.
    PollStop,
    /// Relax the core for a moment, then read the stop flag.
    Pause,
    /// Poll the completion queue.
    ConsumeCompletions,
    /// Poll the receive queue.
    ConsumeReceived,
    /// Offer the slice that `CaptureWorker::offer` gives to the fill queue.
    Produce,
    /// Leave the loop.
    Exit,
}

/// The worker's state as its contracts see it.
#[verifier::ext_equal]
pub struct WorkerState {
    pub phase: Phase,
    /// The core to run on.
    pub core_id: usize,
    /// The pending descriptors, oldest first, with the slot of the oldest and the number of
    /// slots.
    pub pending: Seq<FrameDesc>,
    pub head: nat,
    pub capacity: nat,
    /// What the consumer's ring holds as far as the worker knows, and its number of slots.
    pub gossip: Seq<FrameDesc>,
    pub gossip_capacity: nat,
    /// Every frame that was tried on the consumer's ring and whether the ring took it.
    pub tried: Seq<(FrameDesc, bool)>,
    /// What the ring of returned descriptors holds as far as the worker knows.
    pub returned: Seq<FrameDesc>,
    /// The descriptors that have left the ring of returned descriptors.
    pub taken: Seq<FrameDesc>,
    /// The answer to every poll of the ring of returned descriptors.
    pub polls: Seq<Option<FrameDesc>>,
    /// How many frames the last polls of the completion and receive queue gave.
    pub completed: nat,
    pub received: nat,
}

/// The pending descriptors fit their slots and begin at one of them.
pub open spec fn state_wf(state: WorkerState) -> bool {
    &&& state.head < state.capacity
    &&& state.pending.len() <= state.capacity
}

/// How many pending descriptors, from the oldest, lie before the ring wraps around.
pub open spec fn first_slice_len(state: WorkerState) -> int {
    if state.pending.len() <= state.capacity - state.head {
        state.pending.len() as int
    } else {
        state.capacity - state.head
    }
}

/// The descriptors to offer to the fill queue next.
pub open spec fn offered(state: WorkerState) -> Seq<FrameDesc> {
    if state.phase == Phase::FillFirst {
        state.pending.take(first_slice_len(state))
    } else {
        state.pending.skip(first_slice_len(state))
    }
}

/// How many descriptors are offered next.
pub open spec fn offered_len(state: WorkerState) -> int {
    if state.phase == Phase::FillFirst {
        first_slice_len(state)
    } else {
        state.pending.len() - first_slice_len(state)
    }
}

/// Whether the event is the one that the worker waits for.
pub open spec fn awaited(state: WorkerState, event: Event) -> bool {
    match event {
        Event::Started => state.phase == Phase::Start,
        Event::Pinned => state.phase == Phase::Pin,
        Event::Stop(_) => state.phase == Phase::PollStop,
        Event::Completed(_) => state.phase == Phase::Complete,
        Event::Received(_) => state.phase == Phase::Receive,
        Event::Produced(_) => state.phase == Phase::FillFirst || state.phase == Phase::FillSecond,
    }
}

/// Whether the worker can take the event: it is the awaited one, the pocket has room for
/// the batch, and no more was accepted than offered.
pub open spec fn accepts(state: WorkerState, event: Event) -> bool {
    &&& awaited(state, event)
    &&& match event {
        Event::Started => true,
        Event::Pinned => true,
        Event::Stop(_) => true,
        Event::Completed(batch) => state.pending.len() + batch@.len() <= state.capacity,
        Event::Received(batch) => state.pending.len() + batch@.len() <= state.capacity,
        Event::Produced(count) => count <= offered_len(state),
    }
}

/// What ends an iteration: a pause when both queues were idle.
pub open spec fn iteration_end(completed: nat, received: nat) -> Action {
    if completed == 0 && received == 0 {
        Action::Pause
    } else {
        Action::PollStop
    }
}

/// The polls of the ring of returned descriptors that a step made.
pub open spec fn new_polls(before: WorkerState, after: WorkerState) -> Seq<Option<FrameDesc>> {
    after.polls.skip(before.polls.len() as int)
}

/// The attempts on the consumer's ring that a step made.
pub open spec fn new_tries(before: WorkerState, after: WorkerState) -> Seq<(FrameDesc, bool)> {
    after.tried.skip(before.tried.len() as int)
}

/// How the worker's state changes on an event, and what the worker asks for.
pub open spec fn step_outcome(
    before: WorkerState,
    event: Event,
    after: WorkerState,
    action: Action,
) -> bool {
    match event {
        Event::Started => {
            &&& action == Action::Pin(before.core_id)
            &&& after == (WorkerState { phase: Phase::Pin, ..before })
        },
        Event::Pinned => {
            &&& action == Action::PollStop
            &&& after == (WorkerState { phase: Phase::PollStop, ..before })
        },
        Event::Stop(stop) => if stop {
            &&& action == Action::Exit
            &&& after == (WorkerState { phase: Phase::Stopped, ..before })
        } else {
            &&& action == Action::ConsumeCompletions
            &&& returns_recycled(
                before.pending,
                before.capacity,
                before.returned,
                new_polls(before, after),
                after.pending,
                after.returned,
            )
            &&& after == (WorkerState {
                phase: Phase::Complete,
                pending: after.pending,
                returned: after.returned,
                taken: before.taken + found(new_polls(before, after)),
                polls: before.polls + new_polls(before, after),
                ..before
            })
        },
        Event::Completed(batch) => {
            &&& action == Action::ConsumeReceived
            &&& after == (WorkerState {
                phase: Phase::Receive,
                pending: before.pending + all_recycled(batch@),
                completed: batch@.len(),
                ..before
            })
        },
        Event::Received(batch) => {
            &&& exists|rings: Seq<Seq<FrameDesc>>| #[trigger]
                forwarded(
                    batch@,
                    new_tries(before, after),
                    rings,
                    before.gossip_capacity,
                    before.pending,
                    after.pending,
                ) && rings[0] == before.gossip && rings.last() == after.gossip
            &&& action == (if after.pending.len() == 0 {
                iteration_end(before.completed, batch@.len())
            } else {
                Action::Produce
            })
            &&& after == (WorkerState {
                phase: if after.pending.len() == 0 {
                    Phase::PollStop
                } else {
                    Phase::FillFirst
                },
                pending: after.pending,
                gossip: after.gossip,
                tried: before.tried + new_tries(before, after),
                received: batch@.len(),
                ..before
            })
        },
        Event::Produced(count) => {
            let first = first_slice_len(before);
            if before.phase == Phase::FillFirst && count == first && first
                < before.pending.len() {
                &&& action == Action::Produce
                &&& after == (WorkerState { phase: Phase::FillSecond, ..before })
            } else {
                let total = if before.phase == Phase::FillFirst {
                    count as int
                } else {
                    first + count
                };
                &&& action == iteration_end(before.completed, before.received)
                &&& after == (WorkerState {
                    phase: Phase::PollStop,
                    pending: before.pending.skip(total),
                    head: wrap(before.head + total, before.capacity as int) as nat,
                    ..before
                })
            }
        },
    }
}

/// The capture worker: its ends of the two rings and the pending descriptors.
pub struct CaptureWorker {
    gossip_prod: FrameProducer,
    return_cons: FrameConsumer,
    pending_fill: RingPocket,
    phase: Phase,
    core_id: usize,
    n_comp: usize,
    n_rx: usize,
}

impl View for CaptureWorker {
    type V = WorkerState;

    closed spec fn view(&self) -> WorkerState {
        WorkerState {
            phase: self.phase,
            core_id: self.core_id,
            pending: self.pending_fill@,
            head: self.pending_fill.head(),
            capacity: self.pending_fill.capacity(),
            gossip: self.gossip_prod@,
            gossip_capacity: self.gossip_prod.capacity(),
            tried: self.gossip_prod.tried(),
            returned: self.return_cons@,
            taken: self.return_cons.taken(),
            polls: self.return_cons.polls(),
            completed: self.n_comp as nat,
            received: self.n_rx as nat,
        }
    }
}

/// What the contracts of the worker speak of is what its rings and its pocket hold.
proof fn law_parts_are_shown(worker: CaptureWorker)
    ensures
        worker@.phase == worker.phase,
        worker@.core_id == worker.core_id,
        worker@.pending == worker.pending_fill@,
        worker@.head == worker.pending_fill.head(),
        worker@.capacity == worker.pending_fill.capacity(),
        worker@.gossip == worker.gossip_prod@,
        worker@.gossip_capacity == worker.gossip_prod.capacity(),
        worker@.tried == worker.gossip_prod.tried(),
        worker@.returned == worker.return_cons@,
        worker@.taken == worker.return_cons.taken(),
        worker@.polls == worker.return_cons.polls(),
        worker@.completed == worker.n_comp,
        worker@.received == worker.n_rx,
{
}

impl CaptureWorker {
    /// A worker whose pending descriptors are the initial ones, before its thread starts.
    pub fn new(
        descs: &Vec<FrameDesc>,
        core_id: usize,
        gossip_prod: FrameProducer,
        return_cons: FrameConsumer,
    ) -> (worker: Self)
        requires
            descs@.len() <= UMEM_FRAME_COUNT,
        ensures
            worker@ == (WorkerState {
                phase: Phase::Start,
                core_id,
                pending: descs@,
                head: 0,
                capacity: UMEM_FRAME_COUNT as nat,
                gossip: gossip_prod@,
                gossip_capacity: gossip_prod.capacity(),
                tried: gossip_prod.tried(),
                returned: return_cons@,
                taken: return_cons.taken(),
                polls: return_cons.polls(),
                completed: 0,
                received: 0,
            }),
    {
        proof {
            reveal_with_fuel(is_pow2, 13);
        }
        let mut pending_fill = RingPocket::new(UMEM_FRAME_COUNT);
        let mut i: usize = 0;
        while i < descs.len()
            invariant
                i <= descs@.len() <= UMEM_FRAME_COUNT,
                pending_fill@ == descs@.take(i as int),
                pending_fill.head() == 0,
                pending_fill.capacity() == UMEM_FRAME_COUNT,
            decreases descs@.len() - i,
        {
            pending_fill.push(descs[i]);
            assert(pending_fill@ =~= descs@.take(i + 1));
            i = i + 1;
        }
        assert(pending_fill@ =~= descs@);
        CaptureWorker {
            gossip_prod,
            return_cons,
            pending_fill,
            phase: Phase::Start,
            core_id,
            n_comp: 0,
            n_rx: 0,
        }
    }

    /// What the worker waits for.
    pub fn phase(&self) -> (phase: Phase)
        ensures
            phase == self@.phase,
    {
        self.phase
    }

    /// How many descriptors are pending.
    pub fn pending_len(&self) -> (len: usize)
        ensures
            len == self@.pending.len(),
            state_wf(self@),
    {
        self.pending_fill.len()
    }

    /// The slice to offer to the fill queue.
    pub fn offer(&self) -> (slice: &[FrameDesc])
        requires
            self@.phase == Phase::FillFirst || self@.phase == Phase::FillSecond,
        ensures
            slice@ == offered(self@),
            slice@.len() == offered_len(self@),
    {
        if self.phase == Phase::FillFirst {
            match self.pending_fill.produce_into() {
                Some(slice) => slice,
                None => self.pending_fill.second_slice(),
            }
        } else {
            self.pending_fill.second_slice()
        }
    }

    /// Ends an iteration.
    fn finish_iteration(&mut self) -> (action: Action)
        ensures
            action == iteration_end(old(self)@.completed, old(self)@.received),
            final(self)@ == (WorkerState { phase: Phase::PollStop, ..old(self)@ }),
    {
        self.phase = Phase::PollStop;
        if self.n_rx == 0 && self.n_comp == 0 {
            Action::Pause
        } else {
            Action::PollStop
        }
    }

    /// Takes in what came of the last action and decides on the next.
    pub fn step(&mut self, event: Event) -> (action: Action)
        requires
            accepts(old(self)@, event),
        ensures
            step_outcome(old(self)@, event, final(self)@, action),
    {
        match event {
            Event::Started => {
                self.phase = Phase::Pin;
                Action::Pin(self.core_id)
            },
            Event::Pinned => {
                self.phase = Phase::PollStop;
                Action::PollStop
            },
            Event::Stop(stop) => {
                if stop {
                    self.phase = Phase::Stopped;
                    return Action::Exit;
                }
                recycle_returned(&mut self.pending_fill, &mut self.return_cons);
                self.phase = Phase::Complete;
                Action::ConsumeCompletions
            },
            Event::Completed(batch) => {
                recycle_completed(&mut self.pending_fill, batch);
                self.n_comp = batch.len();
                self.phase = Phase::Receive;
                Action::ConsumeReceived
            },
            Event::Received(batch) => {
                forward_received(&mut self.pending_fill, &mut self.gossip_prod, batch);
                self.n_rx = batch.len();
                if self.pending_fill.len() == 0 {
                    self.finish_iteration()
                } else {
                    self.phase = Phase::FillFirst;
                    Action::Produce
                }
            },
            Event::Produced(count) => {
                if self.phase == Phase::FillFirst {
                    if self.pending_fill.produced_first(count) {
                        self.phase = Phase::FillSecond;
                        return Action::Produce;
                    }
                } else {
                    self.pending_fill.produced_second(count);
                }
                self.finish_iteration()
            },
        }
    }
}

} // verus!
