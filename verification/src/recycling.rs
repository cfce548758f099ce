//! Recycling and forwarding of frame descriptors: the steps of the capture loop that move
//! descriptors between the pending pocket and the rings shared with the consumer.

use crate::frame::{all_recycled, recycle, recycled, FrameDesc};
use crate::pocket::{wrap, RingPocket};
use crate::rings::{push_outcome, FrameConsumer, FrameProducer};
use vstd::prelude::*;

verus! {

/// The descriptors that a run of polls found, in order.
pub open spec fn found(answers: Seq<Option<FrameDesc>>) -> Seq<FrameDesc>
    decreases answers.len(),
{
    if answers.len() == 0 {
        Seq::empty()
    } else {
        match answers.last() {
            Some(desc) => found(answers.drop_last()).push(desc),
            None => found(answers.drop_last()),
        }
    }
}

/// The tried descriptors to which the ring answered `which`, in order.
pub open spec fn answered(tries: Seq<(FrameDesc, bool)>, which: bool) -> Seq<FrameDesc>
    decreases tries.len(),
{
    if tries.len() == 0 {
        Seq::empty()
    } else {
        let front = answered(tries.drop_last(), which);
        if tries.last().1 == which {
            front.push(tries.last().0)
        } else {
            front
        }
    }
}

/// Whether `tries` are one attempt for each descriptor of `batch`, in order, each with the
/// descriptor as it is.
pub open spec fn each_tried(batch: Seq<FrameDesc>, tries: Seq<(FrameDesc, bool)>) -> bool {
    &&& tries.len() == batch.len()
    &&& forall|i: int| 0 <= i < batch.len() ==> (#[trigger] tries[i]).0 == batch[i]
}

/// How the pending descriptors and the ring of returned ones change when returned
/// descriptors are recycled, where `answers` are what the polls of the ring gave.
///
/// What the polls found, and nothing else, is appended, recycled and in order. What was known
/// to lie in the ring comes first. The polls go on until one finds nothing, unless the pocket
/// is full before.
pub open spec fn returns_recycled(
    pending: Seq<FrameDesc>,
    capacity: nat,
    returned: Seq<FrameDesc>,
    answers: Seq<Option<FrameDesc>>,
    pending_after: Seq<FrameDesc>,
    returned_after: Seq<FrameDesc>,
) -> bool {
    let popped = found(answers);
    &&& pending_after == pending + all_recycled(popped)
    &&& pending_after.len() <= capacity
    &&& forall|i: int| 0 <= i < answers.len() - 1 ==> #[trigger] answers[i] is Some
    &&& pending_after.len() < capacity <==> (answers.len() > 0 && answers.last() is None)
    &&& pending_after.len() < capacity ==> returned_after.len() == 0
    &&& popped.len() <= returned.len() ==> popped == returned.take(popped.len() as int)
        && returned_after == returned.skip(popped.len() as int)
    &&& popped.len() >= returned.len() ==> popped.take(returned.len() as int) == returned
}

/// How the pending descriptors change when a received batch is forwarded, where `tries` are
/// the attempts on the consumer's ring with their answers.
///
/// Each descriptor of the batch is tried once, in order. `rings` tells what the ring held, as
/// far as the write end knew, before each push and after the last. A descriptor that the ring
/// did not take is appended, recycled, to the pending ones.
pub open spec fn forwarded(
    batch: Seq<FrameDesc>,
    tries: Seq<(FrameDesc, bool)>,
    rings: Seq<Seq<FrameDesc>>,
    ring_capacity: nat,
    pending: Seq<FrameDesc>,
    pending_after: Seq<FrameDesc>,
) -> bool {
    &&& each_tried(batch, tries)
    &&& rings.len() == batch.len() + 1
    &&& forall|i: int|
        0 <= i < batch.len() ==> push_outcome(
            rings[i],
            ring_capacity,
            batch[i],
            rings[i + 1],
            (#[trigger] tries[i]).1,
        )
    &&& pending_after == pending + all_recycled(answered(tries, false))
}

/// Recycles one descriptor into the pocket.
pub fn recycle_into(pending: &mut RingPocket, desc: FrameDesc)
    requires
        old(pending)@.len() < old(pending).capacity(),
    ensures
        final(pending)@ == old(pending)@.push(recycled(desc)),
        final(pending).slots() == old(pending).slots().update(
            wrap(
                (old(pending).head() + old(pending)@.len()) as int,
                old(pending).capacity() as int,
            ),
            recycled(desc),
        ),
        final(pending).head() == old(pending).head(),
        final(pending).capacity() == old(pending).capacity(),
{
    pending.push(recycle(desc));
}

/// Settles a descriptor after an attempt to forward it: one that the consumer's ring did not
/// take is recycled instead of dropped.
pub fn settle(pending: &mut RingPocket, desc: FrameDesc, sent: Result<(), FrameDesc>)
    requires
        sent is Err ==> old(pending)@.len() < old(pending).capacity(),
    ensures
        sent is Ok ==> *final(pending) == *old(pending),
        sent is Err ==> final(pending)@ == old(pending)@.push(recycled(desc)),
        final(pending).head() == old(pending).head(),
        final(pending).capacity() == old(pending).capacity(),
{
    if sent.is_err() {
        recycle_into(pending, desc);
    }
}

/// Recycles the descriptors that the consumer has returned, until the ring shows none or the
/// pocket is full. What leaves the ring is what the polls found.
pub fn recycle_returned(pending: &mut RingPocket, returned: &mut FrameConsumer)
    ensures
        returns_recycled(
            old(pending)@,
            old(pending).capacity(),
            old(returned)@,
            final(returned).polls().skip(old(returned).polls().len() as int),
            final(pending)@,
            final(returned)@,
        ),
        old(returned).polls() + final(returned).polls().skip(old(returned).polls().len() as int)
            == final(returned).polls(),
        final(returned).taken() == old(returned).taken() + found(
            final(returned).polls().skip(old(returned).polls().len() as int),
        ),
        final(returned).capacity() == old(returned).capacity(),
        final(pending).head() == old(pending).head(),
        final(pending).capacity() == old(pending).capacity(),
{
    let ghost start = pending@;
    let ghost ring = returned@;
    let ghost past = returned.polls();
    let ghost gone = returned.taken();
    let ghost mut answers: Seq<Option<FrameDesc>> = Seq::empty();
    let ghost mut popped: Seq<FrameDesc> = Seq::empty();
    assert(start + all_recycled(popped) =~= start);
    assert(ring.take(0) =~= popped);
    assert(ring.skip(0) =~= ring);
    assert(past + answers =~= past);
    assert(gone + popped =~= gone);
    while !pending.is_full()
        invariant
            start == old(pending)@,
            ring == old(returned)@,
            past == old(returned).polls(),
            gone == old(returned).taken(),
            returned.taken() == gone + popped,
            returned.capacity() == old(returned).capacity(),
            pending.capacity() == old(pending).capacity(),
            pending.head() == old(pending).head(),
            returned.polls() == past + answers,
            popped == found(answers),
            forall|i: int| 0 <= i < answers.len() ==> #[trigger] answers[i] is Some,
            pending@ == start + all_recycled(popped),
            popped.len() <= ring.len() ==> popped == ring.take(popped.len() as int) && returned@
                == ring.skip(popped.len() as int),
            popped.len() >= ring.len() ==> popped.take(ring.len() as int) == ring,
        decreases pending.capacity() - pending@.len(),
    {
        let ghost known = returned@;
        let ghost popped_before = popped;
        let ghost answers_before = answers;
        let answer = returned.try_pop();
        proof {
            answers = answers.push(answer);
            assert(answers.drop_last() =~= answers_before);
            assert(past + answers =~= (past + answers_before).push(answer));
            popped = found(answers);
        }
        match answer {
            Some(desc) => {
                recycle_into(pending, desc);
                proof {
                    assert(popped == popped_before.push(desc));
                    assert(returned.taken() =~= gone + popped);
                    assert(pending@ =~= start + all_recycled(popped));
                    if popped.len() <= ring.len() {
                        assert(popped =~= ring.take(popped.len() as int));
                        assert(returned@ =~= ring.skip(popped.len() as int));
                    }
                    if popped.len() >= ring.len() {
                        assert(popped.take(ring.len() as int) =~= ring);
                    }
                }
            },
            None => {
                proof {
                    assert(popped == popped_before);
                    assert(returned@ =~= known);
                    assert(returned.polls().skip(past.len() as int) =~= answers);
                }
                return;
            },
        }
    }
    assert(returned.polls().skip(past.len() as int) =~= answers);
}

/// Recycles the descriptors of the frames that the completion queue released.
pub fn recycle_completed(pending: &mut RingPocket, batch: &[FrameDesc])
    requires
        old(pending)@.len() + batch@.len() <= old(pending).capacity(),
    ensures
        final(pending)@ == old(pending)@ + all_recycled(batch@),
        final(pending).head() == old(pending).head(),
        final(pending).capacity() == old(pending).capacity(),
{
    let mut i: usize = 0;
    assert(pending@ =~= pending@ + all_recycled(batch@.take(0)));
    while i < batch.len()
        invariant
            i <= batch@.len(),
            old(pending)@.len() + batch@.len() <= old(pending).capacity(),
            pending@ == old(pending)@ + all_recycled(batch@.take(i as int)),
            pending.head() == old(pending).head(),
            pending.capacity() == old(pending).capacity(),
        decreases batch@.len() - i,
    {
        recycle_into(pending, batch[i]);
        assert(pending@ =~= old(pending)@ + all_recycled(batch@.take(i + 1)));
        i = i + 1;
    }
    assert(batch@.take(i as int) =~= batch@);
}

/// Forwards received frames to the consumer's ring, and recycles those that the ring does
/// not take. Each frame is tried, whatever became of those before it.
pub fn forward_received(pending: &mut RingPocket, gossip: &mut FrameProducer, batch: &[FrameDesc])
    requires
        old(pending)@.len() + batch@.len() <= old(pending).capacity(),
    ensures
        exists|rings: Seq<Seq<FrameDesc>>| #[trigger]
            forwarded(
                batch@,
                final(gossip).tried().skip(old(gossip).tried().len() as int),
                rings,
                old(gossip).capacity(),
                old(pending)@,
                final(pending)@,
            ) && rings[0] == old(gossip)@ && rings.last() == final(gossip)@,
        old(gossip).tried() + final(gossip).tried().skip(old(gossip).tried().len() as int)
            == final(gossip).tried(),
        final(gossip).capacity() == old(gossip).capacity(),
        final(pending).head() == old(pending).head(),
        final(pending).capacity() == old(pending).capacity(),
{
    let mut i: usize = 0;
    let ghost past = gossip.tried();
    let ghost mut tries: Seq<(FrameDesc, bool)> = Seq::empty();
    let ghost mut rings: Seq<Seq<FrameDesc>> = seq![gossip@];
    assert(pending@ =~= pending@ + all_recycled(answered(tries, false)));
    assert(past + tries =~= past);
    while i < batch.len()
        invariant
            i <= batch@.len(),
            old(pending)@.len() + batch@.len() <= old(pending).capacity(),
            pending@.len() <= old(pending)@.len() + i,
            past == old(gossip).tried(),
            gossip.tried() == past + tries,
            forwarded(
                batch@.take(i as int),
                tries,
                rings,
                gossip.capacity(),
                old(pending)@,
                pending@,
            ),
            rings[0] == old(gossip)@,
            rings.last() == gossip@,
            gossip.capacity() == old(gossip).capacity(),
            pending.head() == old(pending).head(),
            pending.capacity() == old(pending).capacity(),
        decreases batch@.len() - i,
    {
        let ghost done = batch@.take(i as int);
        let ghost tries_before = tries;
        let desc: FrameDesc = batch[i];
        let answer = gossip.try_push(desc);
        settle(pending, desc, answer);
        proof {
            tries = tries.push((desc, answer is Ok));
            rings = rings.push(gossip@);
            let next = batch@.take(i + 1);
            assert(past + tries =~= (past + tries_before).push((desc, answer is Ok)));
            assert(tries.drop_last() =~= tries_before);
            assert forall|j: int| 0 <= j < next.len() implies push_outcome(
                rings[j],
                gossip.capacity(),
                next[j],
                rings[j + 1],
                (#[trigger] tries[j]).1,
            ) && tries[j].0 == next[j] by {
                if j < i {
                    assert(tries[j] == tries_before[j]);
                    assert(done[j] == next[j]);
                }
            }
            assert(pending@ =~= old(pending)@ + all_recycled(answered(tries, false)));
        }
        i = i + 1;
    }
    assert(batch@.take(i as int) =~= batch@);
    assert(gossip.tried().skip(past.len() as int) =~= tries);
}

/// What a run of polls found are the descriptors among its answers, in order: the answers that
/// hold one, without the others.
pub proof fn law_found(answers: Seq<Option<FrameDesc>>)
    ensures
        found(answers) == answers.filter(|answer: Option<FrameDesc>| answer is Some).map_values(
            |answer: Option<FrameDesc>| answer->0,
        ),
    decreases answers.len(),
{
    reveal(Seq::filter);
    if answers.len() > 0 {
        law_found(answers.drop_last());
    }
    assert(found(answers) =~= answers.filter(
        |answer: Option<FrameDesc>| answer is Some,
    ).map_values(|answer: Option<FrameDesc>| answer->0));
}

/// The tried descriptors with a given answer are those among the attempts that got it, in
/// order.
pub proof fn law_answered(tries: Seq<(FrameDesc, bool)>, which: bool)
    ensures
        answered(tries, which) == tries.filter(
            |attempt: (FrameDesc, bool)| attempt.1 == which,
        ).map_values(|attempt: (FrameDesc, bool)| attempt.0),
    decreases tries.len(),
{
    reveal(Seq::filter);
    if tries.len() > 0 {
        law_answered(tries.drop_last(), which);
    }
    assert(answered(tries, which) =~= tries.filter(
        |attempt: (FrameDesc, bool)| attempt.1 == which,
    ).map_values(|attempt: (FrameDesc, bool)| attempt.0));
}

/// Every received frame is either forwarded or kept for recycling, none is dropped and none
/// is kept twice: the two parts of a batch are together the batch.
pub proof fn law_every_frame_kept(batch: Seq<FrameDesc>, tries: Seq<(FrameDesc, bool)>)
    requires
        each_tried(batch, tries),
    ensures
        answered(tries, true).to_multiset().add(answered(tries, false).to_multiset())
            == batch.to_multiset(),
        answered(tries, true).len() + answered(tries, false).len() == batch.len(),
    decreases batch.len(),
{
    broadcast use vstd::seq_lib::group_to_multiset_ensures;

    if batch.len() > 0 {
        let front = batch.drop_last();
        let front_tries = tries.drop_last();
        assert forall|i: int| 0 <= i < front.len() implies (#[trigger] front_tries[i]).0
            == front[i] by {
            assert(front_tries[i] == tries[i]);
        }
        law_every_frame_kept(front, front_tries);
        assert(front.push(batch.last()) =~= batch);
        assert(tries[batch.len() - 1].0 == batch.last());
    }
    assert(answered(tries, true).to_multiset().add(answered(tries, false).to_multiset())
        =~= batch.to_multiset());
}

/// Descriptors that all got the same answer are all picked by it.
proof fn lemma_all_answered(batch: Seq<FrameDesc>, tries: Seq<(FrameDesc, bool)>, which: bool)
    requires
        each_tried(batch, tries),
        forall|i: int| 0 <= i < tries.len() ==> (#[trigger] tries[i]).1 == which,
    ensures
        answered(tries, which) == batch,
        answered(tries, !which) == Seq::<FrameDesc>::empty(),
    decreases batch.len(),
{
    if batch.len() > 0 {
        let front_tries = tries.drop_last();
        assert forall|i: int| 0 <= i < front_tries.len() implies (#[trigger] front_tries[i]).1
            == which && front_tries[i].0 == batch.drop_last()[i] by {
            assert(front_tries[i] == tries[i]);
        }
        lemma_all_answered(batch.drop_last(), front_tries, which);
        assert(tries[batch.len() - 1].0 == batch.last());
        assert(batch.drop_last().push(batch.last()) =~= batch);
    } else {
        assert(answered(tries, which) =~= batch);
    }
}

/// While the ring has room for them, the first `count` descriptors are sent.
proof fn lemma_room_sends(
    batch: Seq<FrameDesc>,
    tries: Seq<(FrameDesc, bool)>,
    rings: Seq<Seq<FrameDesc>>,
    ring_capacity: nat,
    pending: Seq<FrameDesc>,
    pending_after: Seq<FrameDesc>,
    count: int,
)
    requires
        forwarded(batch, tries, rings, ring_capacity, pending, pending_after),
        0 <= count <= batch.len(),
        rings[0].len() + count <= ring_capacity,
    ensures
        forall|i: int| 0 <= i < count ==> (#[trigger] tries[i]).1,
        rings[count] == rings[0] + batch.take(count),
    decreases count,
{
    if count == 0 {
        assert(rings[0] =~= rings[0] + batch.take(0));
    } else {
        lemma_room_sends(
            batch,
            tries,
            rings,
            ring_capacity,
            pending,
            pending_after,
            count - 1,
        );
        assert(tries[count - 1].1);
        assert(rings[count] =~= rings[0] + batch.take(count));
    }
}

/// Whether a ring holds what it held before followed by `sent`, less some of the oldest.
pub open spec fn streamed(
    before: Seq<FrameDesc>,
    sent: Seq<FrameDesc>,
    after: Seq<FrameDesc>,
) -> bool {
    exists|popped: int|
        0 <= popped <= before.len() + sent.len() && after == #[trigger] (before + sent).skip(popped)
}

/// After the first `count` descriptors of a batch the ring holds those of them that it took,
/// in order.
proof fn lemma_streamed(
    batch: Seq<FrameDesc>,
    tries: Seq<(FrameDesc, bool)>,
    rings: Seq<Seq<FrameDesc>>,
    ring_capacity: nat,
    pending: Seq<FrameDesc>,
    pending_after: Seq<FrameDesc>,
    count: int,
)
    requires
        forwarded(batch, tries, rings, ring_capacity, pending, pending_after),
        0 <= count <= batch.len(),
    ensures
        streamed(rings[0], answered(tries.take(count), true), rings[count]),
    decreases count,
{
    if count == 0 {
        assert(rings[0] =~= (rings[0] + answered(tries.take(0), true)).skip(0));
    } else {
        let last = count - 1;
        lemma_streamed(batch, tries, rings, ring_capacity, pending, pending_after, last);
        let front = answered(tries.take(last), true);
        let all = answered(tries.take(count), true);
        assert(tries.take(count).drop_last() =~= tries.take(last));
        assert(tries[last].0 == batch[last]);
        let known = choose|popped: int|
            0 <= popped <= rings[0].len() + front.len() && rings[last] == #[trigger] (rings[0]
                + front).skip(popped);
        assert(push_outcome(rings[last], ring_capacity, batch[last], rings[count], tries[last].1));
        if !tries[last].1 {
            assert(rings[count] == (rings[0] + all).skip(known));
        } else if rings[last].len() < ring_capacity {
            assert(rings[count] =~= (rings[0] + all).skip(known));
        } else {
            let more = choose|popped: int|
                0 < popped <= rings[last].len() && rings[count] == (#[trigger] rings[last].skip(
                    popped,
                )).push(batch[last]);
            assert(rings[count] =~= (rings[0] + all).skip(known + more));
        }
    }
}

/// Received frames reach the consumer in the order in which they were received: the ring ends
/// up with what it held, followed by the frames of the batch that it took, in order, less
/// those that the consumer has popped.
pub proof fn law_forwards_in_order(
    batch: Seq<FrameDesc>,
    tries: Seq<(FrameDesc, bool)>,
    rings: Seq<Seq<FrameDesc>>,
    ring_capacity: nat,
    pending: Seq<FrameDesc>,
    pending_after: Seq<FrameDesc>,
)
    requires
        forwarded(batch, tries, rings, ring_capacity, pending, pending_after),
    ensures
        streamed(rings[0], answered(tries, true), rings.last()),
{
    lemma_streamed(
        batch,
        tries,
        rings,
        ring_capacity,
        pending,
        pending_after,
        batch.len() as int,
    );
    assert(tries.take(tries.len() as int) =~= tries);
}

/// A batch for which the consumer's ring has room is forwarded whole and in order, and
/// nothing of it is recycled.
pub proof fn law_room_forwards_all(
    batch: Seq<FrameDesc>,
    tries: Seq<(FrameDesc, bool)>,
    rings: Seq<Seq<FrameDesc>>,
    ring_capacity: nat,
    pending: Seq<FrameDesc>,
    pending_after: Seq<FrameDesc>,
)
    requires
        forwarded(batch, tries, rings, ring_capacity, pending, pending_after),
        rings[0].len() + batch.len() <= ring_capacity,
    ensures
        rings.last() == rings[0] + batch,
        pending_after == pending,
{
    lemma_room_sends(
        batch,
        tries,
        rings,
        ring_capacity,
        pending,
        pending_after,
        batch.len() as int,
    );
    assert(batch.take(batch.len() as int) =~= batch);
    lemma_all_answered(batch, tries, true);
    assert(pending_after =~= pending);
}

/// While the consumer's ring is full and stays so, each frame of a batch is recycled and the
/// ring does not change.
pub proof fn law_full_ring_recycles_all(
    batch: Seq<FrameDesc>,
    tries: Seq<(FrameDesc, bool)>,
    rings: Seq<Seq<FrameDesc>>,
    ring_capacity: nat,
    pending: Seq<FrameDesc>,
    pending_after: Seq<FrameDesc>,
)
    requires
        forwarded(batch, tries, rings, ring_capacity, pending, pending_after),
        forall|i: int| 0 <= i < tries.len() ==> !(#[trigger] tries[i]).1,
    ensures
        rings.last() == rings[0],
        pending_after == pending + all_recycled(batch),
{
    lemma_all_answered(batch, tries, false);
    lemma_unsent_keeps_ring(
        batch,
        tries,
        rings,
        ring_capacity,
        pending,
        pending_after,
        batch.len() as int,
    );
}

/// Pushes that fail leave the ring as it was.
proof fn lemma_unsent_keeps_ring(
    batch: Seq<FrameDesc>,
    tries: Seq<(FrameDesc, bool)>,
    rings: Seq<Seq<FrameDesc>>,
    ring_capacity: nat,
    pending: Seq<FrameDesc>,
    pending_after: Seq<FrameDesc>,
    count: int,
)
    requires
        forwarded(batch, tries, rings, ring_capacity, pending, pending_after),
        forall|i: int| 0 <= i < tries.len() ==> !(#[trigger] tries[i]).1,
        0 <= count < rings.len(),
    ensures
        rings[count] == rings[0],
    decreases count,
{
    if count > 0 {
        lemma_unsent_keeps_ring(
            batch,
            tries,
            rings,
            ring_capacity,
            pending,
            pending_after,
            count - 1,
        );
        assert(!tries[count - 1].1);
    }
}

/// A run of polls that all found a descriptor found as many as there were polls, each as it
/// was answered.
pub(crate) proof fn lemma_all_found(answers: Seq<Option<FrameDesc>>)
    requires
        forall|i: int| 0 <= i < answers.len() ==> #[trigger] answers[i] is Some,
    ensures
        found(answers).len() == answers.len(),
        forall|i: int| 0 <= i < answers.len() ==> Some(#[trigger] found(answers)[i]) == answers[i],
    decreases answers.len(),
{
    if answers.len() > 0 {
        let front = answers.drop_last();
        assert forall|i: int| 0 <= i < front.len() implies #[trigger] front[i] is Some by {
            assert(front[i] == answers[i]);
        }
        lemma_all_found(front);
        assert(answers[answers.len() - 1] is Some);
        assert forall|i: int| 0 <= i < answers.len() implies Some(#[trigger] found(answers)[i])
            == answers[i] by {
            if i < front.len() {
                assert(found(answers)[i] == found(front)[i]);
                assert(front[i] == answers[i]);
            }
        }
    }
}

/// The ring of returned descriptors is polled until a poll finds nothing or the pocket is
/// full, and not at all when the pocket is full at the outset. Each answer that holds a
/// descriptor is recycled behind what was pending, in the order of the answers, and what was
/// known to lie in the ring is answered first.
pub proof fn law_returns_polled_out(
    pending: Seq<FrameDesc>,
    capacity: nat,
    returned: Seq<FrameDesc>,
    answers: Seq<Option<FrameDesc>>,
    pending_after: Seq<FrameDesc>,
    returned_after: Seq<FrameDesc>,
)
    requires
        returns_recycled(pending, capacity, returned, answers, pending_after, returned_after),
        pending.len() <= capacity,
    ensures
        pending.len() < capacity ==> answers.len() > 0 && (answers.last() is None
            || pending_after.len() == capacity),
        pending.len() == capacity ==> answers.len() == 0,
        forall|i: int| 0 <= i < answers.len() - 1 ==> #[trigger] answers[i] is Some,
        pending_after.len() == pending.len() + answers.len() - (if answers.len() > 0
            && answers.last() is None {
            1int
        } else {
            0
        }),
        forall|i: int| 0 <= i < pending.len() ==> pending_after[i] == pending[i],
        forall|i: int|
            0 <= i < answers.len() && #[trigger] answers[i] is Some ==> pending_after[pending.len()
                + i] == recycled(answers[i]->0),
        forall|i: int|
            0 <= i < answers.len() && i < returned.len() ==> #[trigger] answers[i] == Some(
                returned[i],
            ),
        pending.len() + returned.len() < capacity ==> answers.len() > returned.len(),
        pending_after.len() < capacity ==> returned_after.len() == 0,
        pending_after.len() - pending.len() <= returned.len() ==> returned_after == returned.skip(
            pending_after.len() - pending.len(),
        ),
{
    let ended = answers.len() > 0 && answers.last() is None;
    let some = if ended {
        answers.drop_last()
    } else {
        answers
    };
    assert forall|i: int| 0 <= i < some.len() implies #[trigger] some[i] is Some by {
        assert(some[i] == answers[i]);
        if i == answers.len() - 1 {
            assert(answers.last() == answers[i]);
        }
    }
    lemma_all_found(some);
    assert(found(answers) == found(some));
    let popped = found(answers);
    assert forall|i: int| 0 <= i < answers.len() && #[trigger] answers[i] is Some implies
        pending_after[pending.len() + i] == recycled(answers[i]->0) by {
        if i == answers.len() - 1 {
            assert(answers.last() == answers[i]);
        }
        assert(some[i] == answers[i]);
        assert(Some(popped[i]) == some[i]);
        assert(all_recycled(popped)[i] == recycled(popped[i]));
    }
    assert forall|i: int| 0 <= i < answers.len() && i < returned.len() implies
        #[trigger] answers[i] == Some(returned[i]) by {
        if i < some.len() {
            assert(some[i] == answers[i]);
            assert(Some(popped[i]) == some[i]);
            if popped.len() <= returned.len() {
                assert(popped[i] == returned.take(popped.len() as int)[i]);
            } else {
                assert(popped.take(returned.len() as int)[i] == popped[i]);
            }
        } else {
            assert(ended);
            assert(returned_after.len() == 0);
            assert(returned.skip(popped.len() as int).len() == 0);
        }
    }
}

/// Each frame of a received batch is tried once on the consumer's ring, in order and as it is,
/// and either the ring has it or it is recycled behind what was pending. While the ring has
/// room for what came before, a frame is taken. The ring ends up with what it held and then
/// the frames that it took, in order, less some of the oldest, which the consumer popped.
pub proof fn law_batch_tried_and_kept(
    batch: Seq<FrameDesc>,
    tries: Seq<(FrameDesc, bool)>,
    rings: Seq<Seq<FrameDesc>>,
    ring_capacity: nat,
    pending: Seq<FrameDesc>,
    pending_after: Seq<FrameDesc>,
)
    requires
        forwarded(batch, tries, rings, ring_capacity, pending, pending_after),
    ensures
        tries.len() == batch.len(),
        forall|i: int| 0 <= i < batch.len() ==> (#[trigger] tries[i]).0 == batch[i],
        forall|i: int|
            0 <= i < batch.len() && rings[0].len() + i < ring_capacity ==> (#[trigger] tries[i]).1,
        answered(tries, true).to_multiset().add(answered(tries, false).to_multiset())
            == batch.to_multiset(),
        answered(tries, true).len() + answered(tries, false).len() == batch.len(),
        pending_after.len() == pending.len() + answered(tries, false).len(),
        forall|i: int| 0 <= i < pending.len() ==> pending_after[i] == pending[i],
        forall|i: int|
            0 <= i < answered(tries, false).len() ==> pending_after[pending.len() + i] == recycled(
                #[trigger] answered(tries, false)[i],
            ),
        exists|popped: int|
            0 <= popped <= rings[0].len() + answered(tries, true).len() && rings.last()
                == #[trigger] (rings[0] + answered(tries, true)).skip(popped),
        rings[0].len() + batch.len() <= ring_capacity ==> rings.last() == rings[0] + batch
            && pending_after == pending,
        (forall|i: int| 0 <= i < batch.len() ==> !(#[trigger] tries[i]).1) ==> rings.last()
            == rings[0] && answered(tries, false) == batch,
{
    law_every_frame_kept(batch, tries);
    law_forwards_in_order(batch, tries, rings, ring_capacity, pending, pending_after);
    assert forall|i: int|
        0 <= i < batch.len() && rings[0].len() + i < ring_capacity implies (#[trigger] tries[i]).1 by {
        lemma_room_sends(
            batch,
            tries,
            rings,
            ring_capacity,
            pending,
            pending_after,
            i + 1,
        );
    }
    if rings[0].len() + batch.len() <= ring_capacity {
        law_room_forwards_all(batch, tries, rings, ring_capacity, pending, pending_after);
    }
    if forall|i: int| 0 <= i < batch.len() ==> !(#[trigger] tries[i]).1 {
        law_full_ring_recycles_all(batch, tries, rings, ring_capacity, pending, pending_after);
        lemma_all_answered(batch, tries, false);
    }
    let refused = answered(tries, false);
    assert forall|i: int| 0 <= i < refused.len() implies pending_after[pending.len() + i]
        == recycled(#[trigger] refused[i]) by {
        assert(all_recycled(refused)[i] == recycled(refused[i]));
    }
}

/// When the pocket has room for the descriptors known to have been returned, all of them are
/// recycled, in order and before any other.
pub proof fn law_returns_all_recycled(
    pending: Seq<FrameDesc>,
    capacity: nat,
    returned: Seq<FrameDesc>,
    answers: Seq<Option<FrameDesc>>,
    pending_after: Seq<FrameDesc>,
    returned_after: Seq<FrameDesc>,
)
    requires
        returns_recycled(pending, capacity, returned, answers, pending_after, returned_after),
        pending.len() + returned.len() <= capacity,
    ensures
        found(answers).len() >= returned.len(),
        found(answers).take(returned.len() as int) == returned,
        pending_after.take((pending.len() + returned.len()) as int) == pending + all_recycled(
            returned,
        ),
{
    let all = pending.len() + returned.len();
    let popped = found(answers);
    assert(popped.len() >= returned.len());
    assert forall|i: int| 0 <= i < returned.len() implies popped[i] == returned[i] by {
        assert(popped.take(returned.len() as int)[i] == popped[i]);
    }
    assert(pending_after.take(all as int) =~= pending + all_recycled(returned));
}

} // verus!
