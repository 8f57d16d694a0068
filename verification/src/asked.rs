//! What the ends of a channel leave undone. They are the same for every accord, so that what holds
//! where the users have agreed on little shows what they never do by themselves.

use vstd::prelude::*;

use crate::accord::{
    are_called_for, are_values_wanted, is_called_for, is_room_wanted, was_heard, Accord,
};
use crate::laws::rings_lose_nothing;
use crate::model::{can_run, claimed, received, run, sent, taken, RingState, Step};
use crate::ring::Ring;
use crate::shared::Channel;

verus! {

/// Where nobody wants to receive, nothing is taken: whatever the ends do, however often they send,
/// and are cloned and dropped, the queue holds all the values that were ever sent, in order.
pub proof fn what_nobody_wants_stays<T, S: Accord<T>>(channel: Channel<T, S>, ring: Ring<T>)
    requires
        channel.took(ring) || channel.put(ring),
        forall|max_burst_len: usize| !#[trigger] S::may_receive(max_burst_len),
    ensures
        ring@.queue == sent(ring.steps()),
        ring@.reading == 0,
        taken(ring.steps()) == 0,
{
    ring.is_reached();
    rings_lose_nothing(ring);
    lemma_nothing_is_taken::<T, S>(ring@.capacity, ring.steps());
    assert(ring@.queue =~= sent(ring.steps()));
}

/// Where nobody wants to send, nothing is sent: no slot is ever claimed for writing, and the queue
/// stays empty, whatever the ends do.
pub proof fn what_nobody_sends_is_not_there<T, S: Accord<T>>(channel: Channel<T, S>, ring: Ring<T>)
    requires
        channel.took(ring) || channel.put(ring),
        forall|max_burst_len: usize| !#[trigger] S::may_send(max_burst_len),
    ensures
        ring@.queue.len() == 0,
        ring@.writing == 0,
        sent(ring.steps()).len() == 0,
        claimed(ring.steps()) == 0,
{
    ring.is_reached();
    rings_lose_nothing(ring);
    lemma_nothing_is_sent::<T, S>(ring@.capacity, ring.steps());
}

/// Nothing is thrown away: slots are given back only for a claim whose values the closure of a
/// receiver has seen to.
pub proof fn what_is_given_back_was_heard<T, S: Accord<T>>(
    channel: Channel<T, S>,
    ring: Ring<T>,
    i: int,
)
    requires
        channel.took(ring) || channel.put(ring),
        0 <= i < ring.steps().len(),
        ring.steps()[i] is Release,
    ensures
        was_heard::<T, S>(ring.steps()[i]->Release_0),
{
}

/// So where no closure ever sees to any values, no slot is ever given back: all that receivers have
/// claimed is still in their hands.
pub proof fn what_is_not_heard_is_kept<T, S: Accord<T>>(channel: Channel<T, S>, ring: Ring<T>)
    requires
        channel.took(ring) || channel.put(ring),
        forall|items: Seq<T>| !#[trigger] S::heard(items),
    ensures
        ring@.start == 0,
        ring@.reading == taken(ring.steps()),
        sent(ring.steps()).len() == ring@.reading + ring@.queue.len(),
{
    ring.is_reached();
    rings_lose_nothing(ring);
    lemma_nothing_is_given_back::<T, S>(ring@.capacity, ring.steps());
}

/// No receiver takes more at a time than somebody wants, and no sender claims more.
pub proof fn no_claim_is_larger_than_wanted<T, S: Accord<T>>(
    channel: Channel<T, S>,
    ring: Ring<T>,
    i: int,
)
    requires
        channel.took(ring) || channel.put(ring),
        0 <= i < ring.steps().len(),
    ensures
        ring.steps()[i] is ClaimRecv ==> are_values_wanted::<T, S>(ring.steps()[i]->ClaimRecv_0),
        ring.steps()[i] is ClaimSend ==> is_room_wanted::<T, S>(ring.steps()[i]->ClaimSend_0),
{
}

proof fn lemma_nothing_is_taken<T, S: Accord<T>>(capacity: int, steps: Seq<Step<T>>)
    requires
        can_run(RingState::<T>::fresh(capacity), steps),
        are_called_for::<T, S>(steps),
        forall|max_burst_len: usize| !#[trigger] S::may_receive(max_burst_len),
    ensures
        received(RingState::<T>::fresh(capacity), steps).len() == 0,
        run(RingState::<T>::fresh(capacity), steps).reading == 0,
        taken(steps) == 0,
    decreases steps.len(),
{
    if steps.len() > 0 {
        lemma_called_for_before::<T, S>(steps);
        lemma_nothing_is_taken::<T, S>(capacity, steps.drop_last());
    }
}

proof fn lemma_nothing_is_sent<T, S: Accord<T>>(capacity: int, steps: Seq<Step<T>>)
    requires
        can_run(RingState::<T>::fresh(capacity), steps),
        are_called_for::<T, S>(steps),
        forall|max_burst_len: usize| !#[trigger] S::may_send(max_burst_len),
    ensures
        sent(steps).len() == 0,
        run(RingState::<T>::fresh(capacity), steps).writing == 0,
        claimed(steps) == 0,
    decreases steps.len(),
{
    if steps.len() > 0 {
        lemma_called_for_before::<T, S>(steps);
        lemma_nothing_is_sent::<T, S>(capacity, steps.drop_last());
    }
}

proof fn lemma_nothing_is_given_back<T, S: Accord<T>>(capacity: int, steps: Seq<Step<T>>)
    requires
        can_run(RingState::<T>::fresh(capacity), steps),
        are_called_for::<T, S>(steps),
        forall|items: Seq<T>| !#[trigger] S::heard(items),
    ensures
        run(RingState::<T>::fresh(capacity), steps).start == 0,
        run(RingState::<T>::fresh(capacity), steps).reading == taken(steps),
        received(RingState::<T>::fresh(capacity), steps).len() == taken(steps),
    decreases steps.len(),
{
    if steps.len() > 0 {
        lemma_called_for_before::<T, S>(steps);
        lemma_nothing_is_given_back::<T, S>(capacity, steps.drop_last());
    }
}

/// The last of the steps was asked for, and so were those before it.
proof fn lemma_called_for_before<T, S: Accord<T>>(steps: Seq<Step<T>>)
    requires
        are_called_for::<T, S>(steps),
        steps.len() > 0,
    ensures
        are_called_for::<T, S>(steps.drop_last()),
        is_called_for::<T, S>(steps.last()),
{
    let before = steps.drop_last();
    assert forall|i: int| 0 <= i < before.len() implies is_called_for::<T, S>(
        #[trigger] before[i],
    ) by {
        assert(before[i] == steps[i]);
    }
}

}
