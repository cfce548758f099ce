//! What one step of the capture worker does, on the fields of the states before and after it:
//! a law for each event, and one that says which events the worker takes.

use crate::frame::{all_recycled, recycled, FrameDesc};
use crate::pocket::law_wrap_is_remainder;
use crate::recycling::{
    answered, forwarded, found, law_batch_tried_and_kept, law_returns_polled_out, lemma_all_found,
};
use crate::worker::{
    accepts, new_polls, new_tries, offered, offered_len, state_wf, step_outcome, Action, Event,
    Phase, WorkerState,
};
use vstd::prelude::*;

verus! {

/// The worker takes every event that it waits for: either value of the stop flag, every batch
/// that the pocket has room for, and every number of descriptors up to what it offered.
pub proof fn law_awaited_events_are_taken(state: WorkerState, batch: &[FrameDesc], count: usize)
    requires
        state.head < state.capacity,
        state.pending.len() <= state.capacity,
    ensures
        state_wf(state),
        state.phase == Phase::Start ==> accepts(state, Event::Started),
        state.phase == Phase::Pin ==> accepts(state, Event::Pinned),
        state.phase == Phase::PollStop ==> accepts(state, Event::Stop(true)) && accepts(
            state,
            Event::Stop(false),
        ),
        state.phase == Phase::Complete && state.pending.len() + batch@.len() <= state.capacity
            ==> accepts(state, Event::Completed(batch)),
        state.phase == Phase::Receive && state.pending.len() + batch@.len() <= state.capacity
            ==> accepts(state, Event::Received(batch)),
        state.phase == Phase::FillFirst && count <= state.pending.len() && state.head + count
            <= state.capacity ==> accepts(state, Event::Produced(count)),
        state.phase == Phase::FillSecond && state.capacity - state.head + count
            <= state.pending.len() ==> accepts(state, Event::Produced(count)),
{
}

/// The start of the thread is answered with the request to pin it to the worker's core, and
/// that with the first look at the stop flag, without a pause. Neither changes anything else.
pub proof fn law_start_step(before: WorkerState, after: WorkerState, action: Action)
    ensures
        step_outcome(before, Event::Started, after, action) ==> action == Action::Pin(
            before.core_id,
        ) && after == (WorkerState { phase: Phase::Pin, ..before }),
        step_outcome(before, Event::Pinned, after, action) ==> action == Action::PollStop && after
            == (WorkerState { phase: Phase::PollStop, ..before }),
{
}

/// A set stop flag ends the loop and changes nothing else.
pub proof fn law_set_flag_step(before: WorkerState, after: WorkerState, action: Action)
    requires
        step_outcome(before, Event::Stop(true), after, action),
    ensures
        action == Action::Exit,
        after == (WorkerState { phase: Phase::Stopped, ..before }),
{
}

/// A stop flag that is not set begins an iteration with the ring of returned descriptors,
/// whatever the iteration before it saw. The ring is polled until a poll finds nothing or the
/// pocket is full. Each descriptor that comes out is recycled behind what was pending, in order,
/// and those known to lie in the ring come first: where the pocket has room for them, all of
/// them are recycled in this step.
pub proof fn law_clear_flag_step(before: WorkerState, after: WorkerState, action: Action)
    requires
        before.pending.len() <= before.capacity,
        step_outcome(before, Event::Stop(false), after, action),
    ensures
        action == Action::ConsumeCompletions,
        before.polls.len() <= after.polls.len(),
        forall|i: int| 0 <= i < before.polls.len() ==> after.polls[i] == before.polls[i],
        before.pending.len() < before.capacity ==> after.polls.len() > before.polls.len() && (
        after.polls.last() is None || after.pending.len() == after.capacity),
        before.pending.len() == before.capacity ==> after.polls == before.polls,
        forall|i: int|
            before.polls.len() <= i < after.polls.len() - 1 ==> #[trigger] after.polls[i] is Some,
        after.pending.len() - before.pending.len() == after.taken.len() - before.taken.len(),
        after.taken.len() - before.taken.len() == after.polls.len() - before.polls.len() - (
        if after.polls.len() > before.polls.len() && after.polls.last() is None {
            1int
        } else {
            0
        }),
        forall|i: int| 0 <= i < before.pending.len() ==> after.pending[i] == before.pending[i],
        forall|i: int| 0 <= i < before.taken.len() ==> after.taken[i] == before.taken[i],
        forall|i: int|
            before.polls.len() <= i < after.polls.len() && #[trigger] after.polls[i] is Some
                ==> after.pending[before.pending.len() + i - before.polls.len()] == recycled(
                after.polls[i]->0,
            ) && after.taken[before.taken.len() + i - before.polls.len()] == after.polls[i]->0,
        forall|i: int|
            0 <= i < before.returned.len() && before.polls.len() + i < after.polls.len()
                ==> after.polls[before.polls.len() + i] == Some(#[trigger] before.returned[i]),
        before.pending.len() + before.returned.len() <= before.capacity ==> forall|i: int|
            0 <= i < before.returned.len() ==> after.pending.len() > before.pending.len() + i
                && after.pending[before.pending.len() + i] == recycled(
                #[trigger] before.returned[i],
            ),
        after.pending.len() < after.capacity ==> after.returned.len() == 0,
        after.pending.len() - before.pending.len() <= before.returned.len() ==> after.returned
            == before.returned.skip(after.pending.len() - before.pending.len()),
        after == (WorkerState {
            phase: Phase::Complete,
            pending: after.pending,
            returned: after.returned,
            taken: after.taken,
            polls: after.polls,
            ..before
        }),
{
    let answers = new_polls(before, after);
    law_returns_polled_out(
        before.pending,
        before.capacity,
        before.returned,
        answers,
        after.pending,
        after.returned,
    );
    let past = before.polls.len() as int;
    assert(after.polls == before.polls + answers);
    assert forall|i: int| 0 <= i < answers.len() implies after.polls[past + i]
        == #[trigger] answers[i] by {}
    if answers.len() > 0 {
        assert(answers.last() == after.polls.last());
    } else {
        assert(after.polls =~= before.polls);
    }
    lemma_taken(before, after, answers);
    assert forall|i: int|
        past <= i < after.polls.len() && #[trigger] after.polls[i] is Some implies
        after.pending[before.pending.len() + i - past] == recycled(after.polls[i]->0)
        && after.taken[before.taken.len() + i - past] == after.polls[i]->0 by {
        assert(answers[i - past] is Some);
        assert(after.taken[before.taken.len() + (i - past)] == answers[i - past]->0);
    }
    assert forall|i: int| past <= i < after.polls.len() - 1 implies #[trigger] after.polls[i]
        is Some by {
        assert(answers[i - past] is Some);
    }
    assert forall|i: int|
        0 <= i < before.returned.len() && past + i < after.polls.len() implies after.polls[past + i]
        == Some(#[trigger] before.returned[i]) by {
        assert(answers[i] == Some(before.returned[i]));
    }
    if before.pending.len() + before.returned.len() <= before.capacity {
        assert forall|i: int| 0 <= i < before.returned.len() implies after.pending.len()
            > before.pending.len() + i && after.pending[before.pending.len() + i] == recycled(
            #[trigger] before.returned[i],
        ) by {
            if i < answers.len() {
                assert(answers[i] == Some(before.returned[i]));
                assert(after.polls[past + i] is Some);
                if i == answers.len() - 1 {
                    assert(answers.last() == answers[i]);
                }
            } else {
                assert(after.pending.len() == before.pending.len() + answers.len());
                if answers.len() > 0 {
                    let last = answers.len() - 1;
                    assert(answers[last] == Some(before.returned[last]));
                }
                assert(after.pending.len() < before.capacity);
            }
        }
    }
}

/// What has left the ring of returned descriptors in a step are the descriptors among the
/// answers, in order.
proof fn lemma_taken(before: WorkerState, after: WorkerState, answers: Seq<Option<FrameDesc>>)
    requires
        after.taken == before.taken + found(answers),
        forall|i: int| 0 <= i < answers.len() - 1 ==> #[trigger] answers[i] is Some,
    ensures
        after.taken.len() == before.taken.len() + answers.len() - (if answers.len() > 0
            && answers.last() is None {
            1int
        } else {
            0
        }),
        forall|i: int|
            0 <= i < answers.len() && #[trigger] answers[i] is Some
                ==> after.taken[before.taken.len() + i] == answers[i]->0,
{
    let ended = answers.len() > 0 && answers.last() is None;
    let some = if ended {
        answers.drop_last()
    } else {
        answers
    };
    assert forall|i: int| 0 <= i < some.len() implies #[trigger] some[i] is Some by {
        assert(some[i] == answers[i]);
        if i == answers.len() - 1 {
            assert(answers.last() == answers[i]);
        }
    }
    lemma_all_found(some);
    let popped = found(answers);
    assert(popped == found(some));
    assert forall|i: int| 0 <= i < answers.len() && #[trigger] answers[i] is Some implies
        after.taken[before.taken.len() + i] == answers[i]->0 by {
        if i == answers.len() - 1 {
            assert(answers.last() == answers[i]);
        }
        assert(some[i] == answers[i]);
        assert(Some(popped[i]) == some[i]);
    }
}

/// Every descriptor that the completion queue released is recycled behind what was pending, in
/// order; then the receive queue is due. How many there were is kept for the end of the
/// iteration.
pub proof fn law_completed_step(
    before: WorkerState,
    batch: &[FrameDesc],
    after: WorkerState,
    action: Action,
)
    requires
        step_outcome(before, Event::Completed(batch), after, action),
    ensures
        action == Action::ConsumeReceived,
        after.pending.len() == before.pending.len() + batch@.len(),
        forall|i: int| 0 <= i < before.pending.len() ==> after.pending[i] == before.pending[i],
        forall|i: int|
            0 <= i < batch@.len() ==> after.pending[before.pending.len() + i] == recycled(
                #[trigger] batch@[i],
            ),
        after == (WorkerState {
            phase: Phase::Receive,
            pending: after.pending,
            completed: batch@.len(),
            ..before
        }),
{
    assert forall|i: int| 0 <= i < batch@.len() implies after.pending[before.pending.len() + i]
        == recycled(#[trigger] batch@[i]) by {
        assert(all_recycled(batch@)[i] == recycled(batch@[i]));
    }
}

/// Every frame of a received batch, however long, is tried once on the consumer's ring, in
/// order and as it is. Those that the ring took and those that it refused are together the
/// batch: none is lost or doubled. The refused ones are recycled behind what was pending. A
/// frame is refused only when the ring may be full, so with room for the batch all of it is
/// added to the ring and nothing is recycled.
pub proof fn law_received_step(
    before: WorkerState,
    batch: &[FrameDesc],
    after: WorkerState,
    action: Action,
)
    requires
        step_outcome(before, Event::Received(batch), after, action),
    ensures
        after.tried.len() == before.tried.len() + batch@.len(),
        forall|i: int| 0 <= i < before.tried.len() ==> after.tried[i] == before.tried[i],
        forall|i: int|
            0 <= i < batch@.len() ==> after.tried[before.tried.len() + i].0
                == #[trigger] batch@[i],
        forall|i: int|
            0 <= i < batch@.len() && before.gossip.len() + i < before.gossip_capacity
                ==> #[trigger] after.tried[before.tried.len() + i].1,
        ({
            let tries = after.tried.skip(before.tried.len() as int);
            let sent = answered(tries, true);
            let refused = answered(tries, false);
            &&& sent.to_multiset().add(refused.to_multiset()) == batch@.to_multiset()
            &&& sent.len() + refused.len() == batch@.len()
            &&& after.pending.len() == before.pending.len() + refused.len()
            &&& forall|i: int|
                0 <= i < refused.len() ==> after.pending[before.pending.len() + i] == recycled(
                    #[trigger] refused[i],
                )
            &&& exists|popped: int|
                0 <= popped <= before.gossip.len() + sent.len() && after.gossip == #[trigger] (
                before.gossip + sent).skip(popped)
        }),
        forall|i: int| 0 <= i < before.pending.len() ==> after.pending[i] == before.pending[i],
        before.gossip.len() + batch@.len() <= before.gossip_capacity ==> after.gossip
            == before.gossip + batch@ && after.pending == before.pending,
        (forall|i: int|
            0 <= i < batch@.len() ==> !(#[trigger] after.tried[before.tried.len() + i].1))
            ==> after.gossip == before.gossip && after.pending.len() == before.pending.len()
            + batch@.len() && forall|i: int|
            0 <= i < batch@.len() ==> after.pending[before.pending.len() + i] == recycled(
                #[trigger] batch@[i],
            ),
        after == (WorkerState {
            phase: after.phase,
            pending: after.pending,
            gossip: after.gossip,
            tried: after.tried,
            received: batch@.len(),
            ..before
        }),
{
    let tries = new_tries(before, after);
    let past = before.tried.len() as int;
    let rings = choose|rings: Seq<Seq<FrameDesc>>| #[trigger]
        forwarded(
            batch@,
            tries,
            rings,
            before.gossip_capacity,
            before.pending,
            after.pending,
        ) && rings[0] == before.gossip && rings.last() == after.gossip;
    law_batch_tried_and_kept(
        batch@,
        tries,
        rings,
        before.gossip_capacity,
        before.pending,
        after.pending,
    );
    assert(after.tried == before.tried + tries);
    assert forall|i: int| 0 <= i < batch@.len() implies after.tried[past + i]
        == #[trigger] tries[i] by {}
    assert forall|i: int| 0 <= i < batch@.len() implies after.tried[past + i].0
        == #[trigger] batch@[i] by {
        assert(tries[i].0 == batch@[i]);
    }
    assert forall|i: int|
        0 <= i < batch@.len() && before.gossip.len() + i
            < before.gossip_capacity implies #[trigger] after.tried[past + i].1 by {
        assert(tries[i].1);
    }
    if forall|i: int| 0 <= i < batch@.len() ==> !(#[trigger] after.tried[past + i].1) {
        assert forall|i: int| 0 <= i < batch@.len() implies !(#[trigger] tries[i]).1 by {
            assert(!after.tried[past + i].1);
        }
        assert(answered(tries, false) == batch@);
    }
}

/// After the receive queue, whatever it delivered, the pending descriptors are offered to the
/// fill queue in the same iteration, exactly when there are any. When there are none the
/// iteration is over, with a pause exactly when both queues were idle in it.
pub proof fn law_refill_is_due(
    before: WorkerState,
    batch: &[FrameDesc],
    after: WorkerState,
    action: Action,
)
    requires
        step_outcome(before, Event::Received(batch), after, action),
    ensures
        after.pending.len() > 0 <==> action == Action::Produce,
        after.pending.len() > 0 <==> after.phase == Phase::FillFirst,
        after.pending.len() == 0 <==> after.phase == Phase::PollStop,
        after.pending.len() == 0 && before.completed == 0 && batch@.len() == 0 <==> action
            == Action::Pause,
        after.pending.len() == 0 && (before.completed > 0 || batch@.len() > 0) <==> action
            == Action::PollStop,
        before.pending.len() > 0 ==> action == Action::Produce,
{
    law_received_step(before, batch, after, action);
}

/// What is offered first are the oldest pending descriptors, in order: all of them, or those up
/// to the last slot. What is offered second is all the rest.
pub proof fn law_offered_slices(state: WorkerState)
    requires
        state.head < state.capacity,
        state.pending.len() <= state.capacity,
    ensures
        state.phase == Phase::FillFirst ==> ({
            let slice = offered(state);
            &&& slice.len() == offered_len(state)
            &&& slice.len() == state.pending.len() || state.head + slice.len() == state.capacity
            &&& state.head + slice.len() <= state.capacity
            &&& state.pending.len() > 0 ==> slice.len() > 0
            &&& slice.len() <= state.pending.len()
            &&& forall|i: int| 0 <= i < slice.len() ==> #[trigger] slice[i] == state.pending[i]
        }),
        state.phase == Phase::FillSecond && state.head + state.pending.len() >= state.capacity
            ==> ({
            let slice = offered(state);
            &&& slice.len() == offered_len(state)
            &&& slice.len() == state.head + state.pending.len() - state.capacity
            &&& forall|i: int|
                0 <= i < slice.len() ==> #[trigger] slice[i] == state.pending[state.capacity
                    - state.head + i]
        }),
{
}

/// What the fill queue accepted is dropped from the oldest on, and nothing else. When it
/// accepted all up to the last slot and more is pending, the second slice is offered before
/// anything is dropped. The iteration then ends, with a pause exactly when both queues were
/// idle in it.
pub proof fn law_produced_step(
    before: WorkerState,
    count: usize,
    after: WorkerState,
    action: Action,
)
    requires
        before.head < before.capacity,
        before.pending.len() <= before.capacity,
        accepts(before, Event::Produced(count)),
        step_outcome(before, Event::Produced(count), after, action),
    ensures
        before.phase == Phase::FillFirst || before.phase == Phase::FillSecond,
        before.phase == Phase::FillFirst ==> (action == Action::Produce <==> before.head + count
            == before.capacity && count < before.pending.len()),
        action == Action::Produce ==> before.phase == Phase::FillFirst && after == (WorkerState {
            phase: Phase::FillSecond,
            ..before
        }),
        action != Action::Produce ==> (action == Action::Pause <==> before.completed == 0
            && before.received == 0),
        action == Action::Produce || action == Action::Pause || action == Action::PollStop,
        action != Action::Produce && before.phase == Phase::FillFirst ==> ({
            &&& after.pending.len() == before.pending.len() - count
            &&& forall|i: int|
                0 <= i < after.pending.len() ==> #[trigger] after.pending[i] == before.pending[count
                    + i]
            &&& after.head == (before.head + count) % (before.capacity as int)
        }),
        before.phase == Phase::FillSecond && before.head + before.pending.len() >= before.capacity
            ==> ({
            let total = before.capacity - before.head + count;
            &&& after.pending.len() == before.pending.len() - total
            &&& forall|i: int|
                0 <= i < after.pending.len() ==> #[trigger] after.pending[i] == before.pending[total
                    + i]
            &&& after.head == (before.head + total) % (before.capacity as int)
        }),
        action != Action::Produce ==> after == (WorkerState {
            phase: Phase::PollStop,
            pending: after.pending,
            head: after.head,
            ..before
        }),
{
    let capacity = before.capacity as int;
    if before.phase == Phase::FillFirst {
        law_wrap_is_remainder(before.head + count, capacity);
    } else if before.head + before.pending.len() >= before.capacity {
        law_wrap_is_remainder(before.head + (capacity - before.head + count), capacity);
    }
}

} // verus!
