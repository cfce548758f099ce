//! Laws of what the capture worker's steps have in common and of whole runs of its loop.

use crate::frame::{all_recycled, FrameDesc};
use crate::recycling::{answered, forwarded, found, law_every_frame_kept};
use crate::steps::{
    law_clear_flag_step, law_completed_step, law_received_step, law_set_flag_step,
};
use crate::worker::{
    accepts, awaited, first_slice_len, new_polls, new_tries, offered, offered_len, state_wf,
    step_outcome, Action, Event, Phase, WorkerState,
};
use vstd::prelude::*;

verus! {

/// The descriptors that the fill queue has not accepted yet. Between the two slices of a
/// drain the first is accepted though it is still pending.
pub open spec fn waiting(state: WorkerState) -> Seq<FrameDesc> {
    if state.phase == Phase::FillSecond {
        state.pending.skip(first_slice_len(state))
    } else {
        state.pending
    }
}

/// The descriptors that the fill queue accepted before a step.
pub open spec fn step_accepted(before: WorkerState, event: Event) -> Seq<FrameDesc> {
    match event {
        Event::Produced(count) => offered(before).take(count as int),
        _ => Seq::empty(),
    }
}

/// The descriptors that a step recycles, in order: those that the consumer returned, those
/// that the completion queue released, or those that the consumer's ring refused.
pub open spec fn step_recycled(
    before: WorkerState,
    event: Event,
    after: WorkerState,
) -> Seq<FrameDesc> {
    match event {
        Event::Started => Seq::empty(),
        Event::Pinned => Seq::empty(),
        Event::Stop(_) => all_recycled(found(new_polls(before, after))),
        Event::Completed(batch) => all_recycled(batch@),
        Event::Received(_) => all_recycled(answered(new_tries(before, after), false)),
        Event::Produced(_) => Seq::empty(),
    }
}

/// Whether each state of a run follows from the one before by a step that the worker accepts.
pub open spec fn valid_run(
    states: Seq<WorkerState>,
    events: Seq<Event>,
    actions: Seq<Action>,
) -> bool {
    &&& states.len() == events.len() + 1
    &&& actions.len() == events.len()
    &&& forall|i: int|
        0 <= i < events.len() ==> accepts(states[i], #[trigger] events[i]) && step_outcome(
            states[i],
            events[i],
            states[i + 1],
            actions[i],
        )
}

/// What the fill queue accepted in the first `n` steps of a run.
pub open spec fn run_accepted(
    states: Seq<WorkerState>,
    events: Seq<Event>,
    n: nat,
) -> Seq<FrameDesc>
    decreases n,
{
    if n == 0 {
        Seq::empty()
    } else {
        run_accepted(states, events, (n - 1) as nat) + step_accepted(
            states[n - 1],
            events[n - 1],
        )
    }
}

/// What was recycled in the first `n` steps of a run.
pub open spec fn run_recycled(
    states: Seq<WorkerState>,
    events: Seq<Event>,
    n: nat,
) -> Seq<FrameDesc>
    decreases n,
{
    if n == 0 {
        Seq::empty()
    } else {
        run_recycled(states, events, (n - 1) as nat) + step_recycled(
            states[n - 1],
            events[n - 1],
            states[n as int],
        )
    }
}

/// The worker goes through its phases in order, and what it asks for is what it then waits
/// for: after each step only the event that the action yields is awaited, and the loop is left
/// exactly when the stop flag is set.
pub proof fn law_action_matches_phase(
    before: WorkerState,
    event: Event,
    after: WorkerState,
    action: Action,
)
    requires
        awaited(before, event),
        step_outcome(before, event, after, action),
    ensures
        action == Action::Exit <==> after.phase == Phase::Stopped,
        action == Action::Exit <==> event == Event::Stop(true),
        action == Action::ConsumeCompletions <==> after.phase == Phase::Complete,
        action == Action::ConsumeReceived <==> after.phase == Phase::Receive,
        action == Action::Produce <==> (after.phase == Phase::FillFirst || after.phase
            == Phase::FillSecond),
        (action == Action::PollStop || action == Action::Pause) <==> after.phase
            == Phase::PollStop,
        action is Pin <==> after.phase == Phase::Pin,
        before.phase == Phase::Start ==> after.phase == Phase::Pin,
        before.phase == Phase::Pin ==> after.phase == Phase::PollStop,
        before.phase == Phase::PollStop ==> after.phase == Phase::Complete || after.phase
            == Phase::Stopped,
        before.phase == Phase::Complete ==> after.phase == Phase::Receive,
        before.phase == Phase::Receive ==> after.phase == Phase::FillFirst || after.phase
            == Phase::PollStop,
        before.phase == Phase::FillFirst ==> after.phase == Phase::FillSecond || after.phase
            == Phase::PollStop,
        before.phase == Phase::FillSecond ==> after.phase == Phase::PollStop,
{
}

/// The worker pauses exactly at the end of an iteration in which neither queue had anything.
pub proof fn law_pause_when_idle(
    before: WorkerState,
    event: Event,
    after: WorkerState,
    action: Action,
)
    requires
        awaited(before, event),
        step_outcome(before, event, after, action),
    ensures
        action == Action::Pause <==> before.phase != Phase::Pin && after.phase == Phase::PollStop
            && after.completed == 0 && after.received == 0,
{
}

/// The worker asks to be pinned to its core before anything else: the first action of a run
/// from the start is that request, no other action repeats it, and until it is made neither
/// ring has been touched and nothing has left the pocket.
pub proof fn law_pinned_first(
    states: Seq<WorkerState>,
    events: Seq<Event>,
    actions: Seq<Action>,
    n: nat,
)
    requires
        valid_run(states, events, actions),
        states[0].phase == Phase::Start,
        n < events.len(),
    ensures
        actions[0] == Action::Pin(states[0].core_id),
        states[1] == (WorkerState { phase: Phase::Pin, ..states[0] }),
        actions[n as int] is Pin <==> n == 0,
        states[(n + 1) as int].phase != Phase::Start,
    decreases n,
{
    assert(accepts(states[n as int], events[n as int]));
    if n > 0 {
        law_pinned_first(states, events, actions, (n - 1) as nat);
    }
}

/// What the fill queue accepts are the oldest pending descriptors, in order; the others stay
/// pending in order. When it accepts both slices whole, nothing is left.
pub proof fn law_fill_takes_oldest(
    before: WorkerState,
    count: usize,
    after: WorkerState,
    action: Action,
)
    requires
        state_wf(before),
        accepts(before, Event::Produced(count)),
        step_outcome(before, Event::Produced(count), after, action),
    ensures
        after.phase == Phase::FillSecond ==> after.pending == before.pending && offered(before)
            + offered(after) == before.pending,
        after.phase == Phase::PollStop && before.phase == Phase::FillFirst ==> offered(
            before,
        ).take(count as int) + after.pending == before.pending,
        before.phase == Phase::FillSecond ==> before.pending.take(first_slice_len(before))
            + offered(before).take(count as int) + after.pending == before.pending,
        before.phase == Phase::FillSecond && count == offered_len(before)
            ==> after.pending.len() == 0,
{
    let first = first_slice_len(before);
    if after.phase == Phase::FillSecond {
        assert(offered(before) + offered(after) =~= before.pending);
    } else if before.phase == Phase::FillFirst {
        assert(offered(before).take(count as int) + after.pending =~= before.pending);
    } else {
        assert(before.pending.take(first) + offered(before).take(count as int) + after.pending
            =~= before.pending);
    }
}

/// In each step, what the fill queue accepted followed by what still waits is what waited
/// before followed by what was recycled: no descriptor is lost, doubled, invented or
/// reordered.
pub proof fn law_step_streams(
    before: WorkerState,
    event: Event,
    after: WorkerState,
    action: Action,
)
    requires
        state_wf(before),
        accepts(before, event),
        step_outcome(before, event, after, action),
    ensures
        state_wf(after),
        step_accepted(before, event) + waiting(after) == waiting(before) + step_recycled(
            before,
            event,
            after,
        ),
{
    let moved = step_accepted(before, event) + waiting(after);
    let kept = waiting(before) + step_recycled(before, event, after);
    match event {
        Event::Started | Event::Pinned => {
            assert(moved =~= kept);
        },
        Event::Stop(stop) => {
            if stop {
                assert(new_polls(before, after) =~= Seq::<Option<FrameDesc>>::empty());
            }
            assert(moved =~= kept);
        },
        Event::Completed(_) => {
            assert(moved =~= kept);
        },
        Event::Received(batch) => {
            let rings = choose|rings: Seq<Seq<FrameDesc>>| #[trigger]
                forwarded(
                    batch@,
                    new_tries(before, after),
                    rings,
                    before.gossip_capacity,
                    before.pending,
                    after.pending,
                ) && rings[0] == before.gossip && rings.last() == after.gossip;
            law_every_frame_kept(batch@, new_tries(before, after));
            assert(moved =~= kept);
        },
        Event::Produced(_) => {
            assert(moved =~= kept);
        },
    }
}

/// What the consumer returned is recycled as it left the ring: a step that reads the stop flag
/// recycles exactly the descriptors that leave the ring of returned ones in it, in order, and
/// none leaves that ring in any other step.
pub proof fn law_returns_come_from_ring(
    before: WorkerState,
    event: Event,
    after: WorkerState,
    action: Action,
)
    requires
        step_outcome(before, event, after, action),
    ensures
        before.taken.is_prefix_of(after.taken),
        event is Stop ==> step_recycled(before, event, after) == all_recycled(
            after.taken.skip(before.taken.len() as int),
        ),
        !(event is Stop) || event == Event::Stop(true) ==> after.taken == before.taken,
{
    if event == Event::Stop(false) {
        let popped = found(new_polls(before, after));
        assert(after.taken.skip(before.taken.len() as int) =~= popped);
    } else if event == Event::Stop(true) {
        assert(new_polls(before, after) =~= Seq::<Option<FrameDesc>>::empty());
        assert(after.taken.skip(before.taken.len() as int) =~= Seq::<FrameDesc>::empty());
    }
}

/// The fill queue gets the initial descriptors, as they are, followed by the recycled ones in
/// the order in which they were recycled: at every moment of a run what it has accepted is a
/// prefix of these, and the rest of them is what waits.
pub proof fn law_fill_stream(
    states: Seq<WorkerState>,
    events: Seq<Event>,
    actions: Seq<Action>,
    n: nat,
)
    requires
        valid_run(states, events, actions),
        state_wf(states[0]),
        states[0].phase != Phase::FillSecond,
        n <= events.len(),
    ensures
        state_wf(states[n as int]),
        run_accepted(states, events, n) + waiting(states[n as int]) == states[0].pending
            + run_recycled(states, events, n),
        run_accepted(states, events, n).is_prefix_of(
            states[0].pending + run_recycled(states, events, n),
        ),
    decreases n,
{
    let initial = states[0].pending;
    if n == 0 {
        assert(run_accepted(states, events, 0) + waiting(states[0]) =~= initial + run_recycled(
            states,
            events,
            0,
        ));
    } else {
        let m = (n - 1) as nat;
        law_fill_stream(states, events, actions, m);
        let event = events[m as int];
        let before = states[m as int];
        let after = states[n as int];
        law_step_streams(before, event, after, actions[m as int]);
        let accepted = run_accepted(states, events, m);
        let recycled = run_recycled(states, events, m);
        let more = step_recycled(before, event, after);
        let taken = step_accepted(before, event);
        assert(accepted + taken + waiting(after) =~= accepted + (taken + waiting(after)));
        assert(accepted + (waiting(before) + more) =~= (accepted + waiting(before)) + more);
        assert((initial + recycled) + more =~= initial + (recycled + more));
    }
    let accepted = run_accepted(states, events, n);
    assert(accepted =~= (accepted + waiting(states[n as int])).take(accepted.len() as int));
}

/// The descriptors that the receive queue delivered in the first `n` events, in order.
pub open spec fn run_received(events: Seq<Event>, n: nat) -> Seq<FrameDesc>
    decreases n,
{
    if n == 0 {
        Seq::empty()
    } else {
        match events[n - 1] {
            Event::Received(batch) => run_received(events, (n - 1) as nat) + batch@,
            _ => run_received(events, (n - 1) as nat),
        }
    }
}

/// The descriptors that the completion queue released in the first `n` events, in order.
pub open spec fn run_completed(events: Seq<Event>, n: nat) -> Seq<FrameDesc>
    decreases n,
{
    if n == 0 {
        Seq::empty()
    } else {
        match events[n - 1] {
            Event::Completed(batch) => run_completed(events, (n - 1) as nat) + batch@,
            _ => run_completed(events, (n - 1) as nat),
        }
    }
}

/// The attempts with a given answer in two runs of attempts, one after the other, are those in
/// the first and then those in the second.
proof fn lemma_answered_append(
    first: Seq<(FrameDesc, bool)>,
    second: Seq<(FrameDesc, bool)>,
    which: bool,
)
    ensures
        answered(first + second, which) == answered(first, which) + answered(second, which),
    decreases second.len(),
{
    if second.len() == 0 {
        assert(first + second =~= first);
    } else {
        lemma_answered_append(first, second.drop_last(), which);
        assert((first + second).drop_last() =~= first + second.drop_last());
    }
    assert(answered(first + second, which) =~= answered(first, which) + answered(second, which));
}

/// Every frame that the receive queue delivers in a run is tried on the consumer's ring once, in
/// the order of delivery and as it was delivered, and nothing else is tried.
pub proof fn law_run_tries_received(
    states: Seq<WorkerState>,
    events: Seq<Event>,
    actions: Seq<Action>,
    n: nat,
)
    requires
        valid_run(states, events, actions),
        n <= events.len(),
    ensures
        states[n as int].tried.len() == states[0].tried.len() + run_received(events, n).len(),
        forall|i: int|
            0 <= i < states[0].tried.len() ==> states[n as int].tried[i] == states[0].tried[i],
        forall|i: int|
            0 <= i < run_received(events, n).len() ==> states[n as int].tried[states[0].tried.len()
                + i].0 == #[trigger] run_received(events, n)[i],
    decreases n,
{
    if n > 0 {
        let m = (n - 1) as nat;
        law_run_tries_received(states, events, actions, m);
        let before = states[m as int];
        let after = states[n as int];
        let event = events[m as int];
        if let Event::Received(batch) = event {
            law_received_step(before, batch, after, actions[m as int]);
            let past = run_received(events, m);
            let all = run_received(events, n);
            assert forall|i: int| 0 <= i < all.len() implies after.tried[states[0].tried.len() + i].0
                == #[trigger] all[i] by {
                if i < past.len() {
                    assert(all[i] == past[i]);
                    assert(before.tried[states[0].tried.len() + i].0 == past[i]);
                } else {
                    let j = i - past.len();
                    assert(all[i] == batch@[j]);
                    assert(after.tried[before.tried.len() + j].0 == batch@[j]);
                }
            }
        } else {
            assert(accepts(before, event));
            assert(after.tried == before.tried);
        }
    }
}

/// The books of a run balance: the descriptors that wait, those that the fill queue accepted
/// and the frames that the consumer's ring took are as many as the initial descriptors, those
/// that left the ring of returned ones, and those that the completion and the receive queue
/// gave. So every received frame is forwarded or recycled, and no frame leaks.
pub proof fn law_run_balances(
    states: Seq<WorkerState>,
    events: Seq<Event>,
    actions: Seq<Action>,
    n: nat,
)
    requires
        valid_run(states, events, actions),
        state_wf(states[0]),
        states[0].phase != Phase::FillSecond,
        n <= events.len(),
    ensures
        waiting(states[n as int]).len() + run_accepted(states, events, n).len() + answered(
            states[n as int].tried.skip(states[0].tried.len() as int),
            true,
        ).len() == states[0].pending.len() + (states[n as int].taken.len()
            - states[0].taken.len()) + run_completed(events, n).len() + run_received(
            events,
            n,
        ).len(),
        states[n as int].tried.len() >= states[0].tried.len(),
        state_wf(states[n as int]),
    decreases n,
{
    let start = states[0].tried.len() as int;
    if n == 0 {
        assert(states[0].tried.skip(start) =~= Seq::<(FrameDesc, bool)>::empty());
    } else {
        let m = (n - 1) as nat;
        law_run_balances(states, events, actions, m);
        let before = states[m as int];
        let after = states[n as int];
        let event = events[m as int];
        let action = actions[m as int];
        assert(accepts(before, event));
        law_step_streams(before, event, after, action);
        let accepted = step_accepted(before, event);
        let recycled = step_recycled(before, event, after);
        assert((accepted + waiting(after)).len() == accepted.len() + waiting(after).len());
        assert((waiting(before) + recycled).len() == waiting(before).len() + recycled.len());
        match event {
            Event::Stop(stop) => {
                if stop {
                    law_set_flag_step(before, after, action);
                } else {
                    law_clear_flag_step(before, after, action);
                }
            },
            Event::Received(batch) => {
                law_received_step(before, batch, after, action);
                let tries = new_tries(before, after);
                assert(after.tried.skip(start) =~= before.tried.skip(start) + tries);
                lemma_answered_append(before.tried.skip(start), tries, true);
            },
            Event::Completed(batch) => {
                law_completed_step(before, batch, after, action);
            },
            _ => {},
        }
    }
}

/// How many frames are away from the worker after a step, when `out` were before: those that
/// the fill queue accepted go, those that are recycled come back.
pub open spec fn out_after(
    before: WorkerState,
    event: Event,
    after: WorkerState,
    out: int,
) -> int {
    out + step_accepted(before, event).len() - step_recycled(before, event, after).len()
}

/// Whether no more frames come back than are away.
pub open spec fn brings_back_at_most(
    before: WorkerState,
    event: Event,
    after: WorkerState,
    out: int,
) -> bool {
    match event {
        Event::Started => true,
        Event::Pinned => true,
        Event::Stop(_) => found(new_polls(before, after)).len() <= out,
        Event::Completed(batch) => batch@.len() <= out,
        Event::Received(batch) => batch@.len() <= out,
        Event::Produced(count) => count <= offered_len(before),
    }
}

/// Frames are conserved: those that wait and those that are away add up to the same number
/// after each step. So when all frames together fit the pocket and no more come back than are
/// away, the pocket has room for each batch, and the same holds for the next step.
pub proof fn law_frames_conserved(
    before: WorkerState,
    event: Event,
    after: WorkerState,
    action: Action,
    out: nat,
)
    requires
        state_wf(before),
        awaited(before, event),
        waiting(before).len() + out <= before.capacity,
        brings_back_at_most(before, event, after, out as int),
        step_outcome(before, event, after, action),
    ensures
        accepts(before, event),
        out_after(before, event, after, out as int) >= 0,
        waiting(after).len() + out_after(before, event, after, out as int) == waiting(before).len()
            + out,
        state_wf(after),
        after.capacity == before.capacity,
{
    law_step_streams(before, event, after, action);
    let accepted = step_accepted(before, event);
    let recycled = step_recycled(before, event, after);
    assert((accepted + waiting(after)).len() == accepted.len() + waiting(after).len());
    assert((waiting(before) + recycled).len() == waiting(before).len() + recycled.len());
    if let Event::Received(batch) = event {
        let rings = choose|rings: Seq<Seq<FrameDesc>>| #[trigger]
            forwarded(
                batch@,
                new_tries(before, after),
                rings,
                before.gossip_capacity,
                before.pending,
                after.pending,
            ) && rings[0] == before.gossip && rings.last() == after.gossip;
        law_every_frame_kept(batch@, new_tries(before, after));
    }
}

/// The most steps that a worker in this phase makes once the stop flag is set.
pub open spec fn steps_left(phase: Phase) -> nat {
    match phase {
        Phase::Stopped => 0,
        Phase::PollStop => 1,
        Phase::Pin => 2,
        Phase::Start => 3,
        Phase::FillSecond => 2,
        Phase::FillFirst => 3,
        Phase::Receive => 4,
        Phase::Complete => 5,
    }
}

/// Within an iteration each step comes nearer to its end, and a stop flag that is set ends the
/// loop at once and changes nothing else: no ring is polled or tried, and nothing is offered.
pub proof fn law_iteration_ends(
    before: WorkerState,
    event: Event,
    after: WorkerState,
    action: Action,
)
    requires
        awaited(before, event),
        step_outcome(before, event, after, action),
    ensures
        before.phase != Phase::PollStop ==> steps_left(after.phase) < steps_left(before.phase),
        event == Event::Stop(true) ==> action == Action::Exit && after == (WorkerState {
            phase: Phase::Stopped,
            ..before
        }),
{
}

/// Once the stop flag is set, the worker finishes at most the iteration it is in and stops: a
/// run in which the flag is read as set whenever it is read has at most as many steps as are
/// left in the phase where it begins. A worker that has not stopped has a step left.
pub proof fn law_stop_ends_loop(
    states: Seq<WorkerState>,
    events: Seq<Event>,
    actions: Seq<Action>,
    n: nat,
)
    requires
        valid_run(states, events, actions),
        forall|i: int| 0 <= i < events.len() ==> (#[trigger] events[i] is Stop ==> events[i]
            == Event::Stop(true)),
        n <= events.len(),
    ensures
        n + steps_left(states[n as int].phase) <= steps_left(states[0].phase) <= 5,
        steps_left(states[n as int].phase) == 0 <==> states[n as int].phase == Phase::Stopped,
    decreases n,
{
    if n > 0 {
        let m = (n - 1) as nat;
        law_stop_ends_loop(states, events, actions, m);
        law_iteration_ends(
            states[m as int],
            events[m as int],
            states[n as int],
            actions[m as int],
        );
        assert(events[m as int] is Stop ==> events[m as int] == Event::Stop(true));
    }
}

/// Whether two states agree in everything that the worker's decisions rest on.
pub open spec fn decide_alike(first: WorkerState, second: WorkerState) -> bool {
    &&& first.phase == second.phase
    &&& first.core_id == second.core_id
    &&& first.pending == second.pending
    &&& first.head == second.head
    &&& first.capacity == second.capacity
    &&& first.completed == second.completed
    &&& first.received == second.received
}

/// Two steps from like states on the same event, with the same answers of the rings, ask for
/// the same action and lead to like states.
pub proof fn law_equal_steps(
    before: WorkerState,
    other_before: WorkerState,
    event: Event,
    after: WorkerState,
    other_after: WorkerState,
    action: Action,
    other_action: Action,
)
    requires
        decide_alike(before, other_before),
        step_outcome(before, event, after, action),
        step_outcome(other_before, event, other_after, other_action),
        new_polls(before, after) == new_polls(other_before, other_after),
        new_tries(before, after) == new_tries(other_before, other_after),
    ensures
        decide_alike(after, other_after),
        action == other_action,
{
}

/// Two runs from like states on the same events, with the same answers of the rings, act
/// alike throughout.
pub proof fn law_equal_runs(
    states: Seq<WorkerState>,
    other_states: Seq<WorkerState>,
    events: Seq<Event>,
    actions: Seq<Action>,
    other_actions: Seq<Action>,
    n: nat,
)
    requires
        valid_run(states, events, actions),
        valid_run(other_states, events, other_actions),
        decide_alike(states[0], other_states[0]),
        forall|i: int|
            0 <= i < events.len() ==> #[trigger] new_polls(states[i], states[i + 1])
                == new_polls(other_states[i], other_states[i + 1]),
        forall|i: int|
            0 <= i < events.len() ==> #[trigger] new_tries(states[i], states[i + 1])
                == new_tries(other_states[i], other_states[i + 1]),
        n <= events.len(),
    ensures
        decide_alike(states[n as int], other_states[n as int]),
        forall|i: int| 0 <= i < n ==> actions[i] == other_actions[i],
    decreases n,
{
    if n > 0 {
        let m = n - 1;
        law_equal_runs(states, other_states, events, actions, other_actions, m as nat);
        assert(accepts(states[m], events[m]));
        assert(accepts(other_states[m], events[m]));
        assert(new_polls(states[m], states[m + 1]) == new_polls(
            other_states[m],
            other_states[m + 1],
        ));
        assert(new_tries(states[m], states[m + 1]) == new_tries(
            other_states[m],
            other_states[m + 1],
        ));
        law_equal_steps(
            states[m],
            other_states[m],
            events[m],
            states[m + 1],
            other_states[m + 1],
            actions[m],
            other_actions[m],
        );
    }
}

} // verus!
