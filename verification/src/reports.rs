//! What follows from what the ends of a channel report.

use vstd::prelude::*;

use crate::accord::Accord;
use crate::count::found_at;
use crate::handle::{holds, values, Slot};
use crate::laws::rings_lose_nothing;
use crate::model::{
    bursts_meet, received, recv_attempt, send_attempt, sent, RingState, Step,
};
use crate::plan::{lemma_ring, Attempt, Claim};
use crate::ring::Ring;
use crate::shared::Channel;
use crate::step::{publish_step, recv_step, release_step, send_step, Finished};
use crate::word::{word_round_trip, word_shutdown};

verus! {

/// A sender meets a shutdown only if every receiver was gone: their number was found to be zero.
pub proof fn sends_fail_for_want_of_receivers<T, S: Accord<T>>(channel: Channel<T, S>, max_burst_len: usize)
    requires
        channel.send_ended(max_burst_len, Attempt::Shutdown),
    ensures
        channel.lost_its_receivers(),
        found_at(channel.terms().receivers, 0),
{
    let (seen, ring, after) = lemma_send_ended(channel, max_burst_len, Attempt::Shutdown);
    assert(channel.took(seen));
}

/// A sender finds nothing to reserve only if the ring was full, and receivers were not gone.
pub proof fn sends_find_no_room<T, S: Accord<T>>(channel: Channel<T, S>, max_burst_len: usize)
    requires
        channel.send_ended(max_burst_len, Attempt::Nothing),
    ensures
        channel.was_full(),
{
    let (seen, ring, after) = lemma_send_ended(channel, max_burst_len, Attempt::Nothing);
    assert(channel.took(ring));
}

/// What a sender reserves is free slots, and is in use once it is reserved.
pub proof fn sends_reserve_free_slots<T, S: Accord<T>>(channel: Channel<T, S>, max_burst_len: usize, claim: Claim)
    requires
        channel.send_ended(max_burst_len, Attempt::Reserved(claim)),
    ensures
        exists|ring: Ring<T>, after: Ring<T>|
            {
                &&& #[trigger] channel.took(ring)
                &&& !ring@.receivers_gone
                &&& claim.expected == ring@.prod_head()
                &&& claim.burst_len <= ring@.free()
                &&& #[trigger] channel.put(after)
                &&& after@ == ring@.claim_send(claim.burst_len as int)
            },
{
    let (seen, ring, after) = lemma_send_ended(channel, max_burst_len, Attempt::Reserved(claim));
    assert(channel.took(ring) && channel.put(after));
}

/// What a sender has published is sent: the values that it left in its slots follow on all that was
/// sent before, and are the newest in the queue.
pub proof fn what_is_published_is_sent<T, S: Accord<T>>(channel: Channel<T, S>, claim: Claim, slots: Seq<Slot<T>>)
    requires
        channel.published(claim, slots),
    ensures
        exists|ring: Ring<T>, after: Ring<T>|
            {
                &&& #[trigger] channel.took(ring)
                &&& #[trigger] channel.put(after)
                &&& after@ == ring@.publish(values(slots))
                &&& after@.queue == ring@.queue + values(slots)
                &&& sent(after.steps()) == sent(ring.steps()) + values(slots)
            },
{
    let (ring, after, items, tries, outcome) = choose|
        ring: Ring<T>,
        after: Ring<T>,
        items: Vec<Slot<T>>,
        tries: u64,
        outcome: Finished<T>,
    |
        {
            &&& channel.took(ring)
            &&& items@ == slots
            &&& #[trigger] call_ensures(
                publish_step::<T>,
                (ring, (claim, items), tries),
                (after, outcome),
            )
            &&& outcome is Ok
            &&& channel.put(after)
        };
    assert(channel.took(ring) && channel.put(after));
    assert(after.steps().drop_last() =~= ring.steps());
}

/// A receiver meets a shutdown only if there was nothing left to receive and every sender was gone:
/// at one and the same time the ring held no values and the number of senders was zero.
pub proof fn receives_fail_for_want_of_senders<T, S: Accord<T>>(
    channel: Channel<T, S>,
    max_burst_len: usize,
    items: Seq<T>,
)
    requires
        channel.recv_ended(max_burst_len, Attempt::Shutdown, items),
    ensures
        items.len() == 0,
        channel.ran_dry(),
        found_at(channel.terms().senders, 0),
{
    let (ring, after) = lemma_recv_ended(channel, max_burst_len, Attempt::Shutdown, items);
    assert(channel.took(ring));
}

/// A receiver finds nothing only if the ring held no values, and senders were not gone.
pub proof fn receives_find_no_values<T, S: Accord<T>>(channel: Channel<T, S>, max_burst_len: usize, items: Seq<T>)
    requires
        channel.recv_ended(max_burst_len, Attempt::Nothing, items),
    ensures
        items.len() == 0,
        channel.was_empty(),
{
    let (ring, after) = lemma_recv_ended(channel, max_burst_len, Attempt::Nothing, items);
    assert(channel.took(ring));
}

/// What a receiver takes is the oldest values in the queue, which are in it no longer.
pub proof fn receives_take_the_oldest_values<T, S: Accord<T>>(
    channel: Channel<T, S>,
    max_burst_len: usize,
    claim: Claim,
    items: Seq<T>,
)
    requires
        channel.recv_ended(max_burst_len, Attempt::Reserved(claim), items),
    ensures
        items.len() == claim.burst_len,
        exists|ring: Ring<T>, after: Ring<T>|
            {
                &&& #[trigger] channel.took(ring)
                &&& claim.expected == ring@.cons_head()
                &&& ring@.queue == items + after@.queue
                &&& #[trigger] channel.put(after)
                &&& after@ == ring@.claim_recv(claim.burst_len as int)
            },
        channel.had_next(items),
{
    let (ring, after) = lemma_recv_ended(channel, max_burst_len, Attempt::Reserved(claim), items);
    let n = claim.burst_len as int;
    assert(channel.took(ring) && channel.put(after));
    assert(ring@.queue =~= items + after@.queue);
    rings_lose_nothing(ring);
    let all = sent(ring.steps());
    let before = received(RingState::<T>::fresh(ring@.capacity), ring.steps()).len() as int;
    assert(items =~= all.subrange(before, before + n));
}

/// Slots that a receiver has given back are free.
pub proof fn what_is_released_is_free<T, S: Accord<T>>(channel: Channel<T, S>, claim: Claim, slots: Seq<Slot<T>>)
    requires
        channel.released(claim, slots),
    ensures
        exists|ring: Ring<T>, after: Ring<T>|
            {
                &&& #[trigger] channel.took(ring)
                &&& #[trigger] channel.put(after)
                &&& after@ == ring@.release(claim.burst_len as int)
                &&& after@.free() == ring@.free() + claim.burst_len
                &&& after@.queue == ring@.queue
            },
{
    let (ring, after, rest, tries, outcome) = choose|
        ring: Ring<T>,
        after: Ring<T>,
        rest: Vec<Slot<T>>,
        tries: u64,
        outcome: Finished<T>,
    |
        {
            &&& channel.took(ring)
            &&& rest@ == slots
            &&& #[trigger] call_ensures(
                release_step::<T>,
                (ring, (claim, rest), tries),
                (after, outcome),
            )
            &&& outcome is Ok
            &&& channel.put(after)
        };
    assert(channel.took(ring) && channel.put(after));
}

/// What is received was sent: it is a run of all the values that were sent, every burst of which
/// met the rule of the channel.
pub proof fn what_is_received_was_sent<T, S: Accord<T>>(channel: Channel<T, S>, items: Seq<T>)
    requires
        channel.had_next(items),
    ensures
        exists|steps: Seq<Step<T>>, from: int|
            {
                &&& #[trigger] bursts_meet(steps, channel.terms().rule)
                &&& 0 <= from <= from + items.len() <= sent(steps).len()
                &&& items == #[trigger] sent(steps).subrange(from, from + items.len())
            },
{
    let ring = choose|ring: Ring<T>|
        {
            let all = sent(ring.steps());
            let before = received(
                RingState::<T>::fresh(ring@.capacity),
                ring.steps(),
            ).len() as int;
            &&& #[trigger] channel.took(ring)
            &&& before + items.len() <= all.len()
            &&& items == all.subrange(before, before + items.len())
        };
    let steps = ring.steps();
    let from = received(RingState::<T>::fresh(ring@.capacity), steps).len() as int;
    assert(bursts_meet(steps, channel.terms().rule));
    assert(items == sent(steps).subrange(from, from + items.len()));
}

/// So whatever the rule says of every value of a burst holds of every value that is received.
pub proof fn received_values_meet_the_rule<T, S: Accord<T>>(
    channel: Channel<T, S>,
    items: Seq<T>,
    good: spec_fn(T) -> bool,
    i: int,
)
    requires
        channel.had_next(items),
        forall|burst: Seq<T>, k: int|
            #[trigger] (channel.terms().rule)(burst) && 0 <= k < burst.len() ==> good(
                #[trigger] burst[k],
            ),
        0 <= i < items.len(),
    ensures
        good(items[i]),
{
    what_is_received_was_sent(channel, items);
    let (steps, from) = choose|steps: Seq<Step<T>>, from: int|
        {
            &&& #[trigger] bursts_meet(steps, channel.terms().rule)
            &&& 0 <= from <= from + items.len() <= sent(steps).len()
            &&& items == #[trigger] sent(steps).subrange(from, from + items.len())
        };
    lemma_sent_values_are_good(steps, channel.terms().rule, good, from + i);
}

proof fn lemma_sent_values_are_good<T>(
    steps: Seq<Step<T>>,
    rule: spec_fn(Seq<T>) -> bool,
    good: spec_fn(T) -> bool,
    i: int,
)
    requires
        bursts_meet(steps, rule),
        forall|burst: Seq<T>, k: int|
            #[trigger] rule(burst) && 0 <= k < burst.len() ==> good(#[trigger] burst[k]),
        0 <= i < sent(steps).len(),
    ensures
        good(sent(steps)[i]),
    decreases steps.len(),
{
    let before = steps.drop_last();
    if i < sent(before).len() {
        assert forall|k: int|
            0 <= k < before.len() && (#[trigger] before[k]) is Publish implies rule(
            before[k]->Publish_0,
        ) by {
            assert(before[k] == steps[k]);
        }
        lemma_sent_values_are_good(before, rule, good, i);
    } else {
        let last = steps[steps.len() - 1];
        assert(last is Publish);
        assert(rule(last->Publish_0));
        assert(sent(steps)[i] == last->Publish_0[i - sent(before).len()]);
    }
}

/// The ring in which a sender saw the head word, the one that it took its deciding step on, and the
/// one that it left.
proof fn lemma_send_ended<T, S: Accord<T>>(channel: Channel<T, S>, max_burst_len: usize, end: Attempt) -> (r: (
    Ring<T>,
    Ring<T>,
    Ring<T>,
))
    requires
        channel.send_ended(max_burst_len, end),
    ensures
        channel.took(r.0),
        channel.took(r.1),
        channel.put(r.2),
        end is Shutdown ==> r.0@.receivers_gone,
        end is Nothing ==> r.1@.free() == 0 && !r.1@.receivers_gone,
        end is Reserved ==> {
            let claim = end->Reserved_0;
            &&& !r.1@.receivers_gone
            &&& claim.expected == r.1@.prod_head()
            &&& claim.burst_len <= r.1@.free()
            &&& r.2@ == r.1@.claim_send(claim.burst_len as int)
        },
{
    let (seen, later, ring, after, look) = choose|
        seen: Ring<T>,
        later: Ring<T>,
        ring: Ring<T>,
        after: Ring<T>,
        look: (usize, usize, usize),
    |
        {
            &&& #[trigger] channel.took(seen)
            &&& look.0 == seen@.prod_head()
            &&& seen == ring || channel.put(seen)
            &&& #[trigger] channel.took(later)
            &&& look.1 == later@.cons_tail()
            &&& later == ring || channel.put(later)
            &&& look.2 == max_burst_len
            &&& channel.took(ring)
            &&& #[trigger] call_ensures(send_step::<T>, (ring, look), (after, end))
            &&& channel.put(after)
        };
    assert(end == send_attempt(ring@, look.0, look.1 as int, look.2 as int));
    lemma_prod_head(seen);
    lemma_prod_head(ring);
    (seen, ring, after)
}

/// The ring that a receiver took its deciding step on, and the one that it left.
proof fn lemma_recv_ended<T, S: Accord<T>>(
    channel: Channel<T, S>,
    max_burst_len: usize,
    end: Attempt,
    items: Seq<T>,
) -> (r: (Ring<T>, Ring<T>))
    requires
        channel.recv_ended(max_burst_len, end, items),
    ensures
        channel.took(r.0),
        channel.put(r.1),
        end is Shutdown ==> r.0@.queue.len() == 0 && r.0@.senders_gone,
        end is Nothing ==> r.0@.queue.len() == 0 && !r.0@.senders_gone,
        end is Reserved ==> {
            let claim = end->Reserved_0;
            &&& claim.expected == r.0@.cons_head()
            &&& claim.burst_len <= r.0@.queue.len()
            &&& items == r.0@.queue.take(claim.burst_len as int)
            &&& r.1@ == r.0@.claim_recv(claim.burst_len as int)
        },
        !(end is Reserved) ==> items.len() == 0,
{
    let (seen, later, ring, after, look, taken) = choose|
        seen: Ring<T>,
        later: Ring<T>,
        ring: Ring<T>,
        after: Ring<T>,
        look: (usize, usize, usize),
        taken: Vec<Slot<T>>,
    |
        {
            &&& #[trigger] channel.took(seen)
            &&& look.0 == seen@.cons_head()
            &&& seen == ring || channel.put(seen)
            &&& #[trigger] channel.took(later)
            &&& look.1 == later@.prod_tail()
            &&& later == ring || channel.put(later)
            &&& look.2 == max_burst_len
            &&& channel.took(ring)
            &&& #[trigger] call_ensures(recv_step::<T>, (ring, look), (after, (end, taken)))
            &&& values(taken@) == items
            &&& channel.put(after)
        };
    assert(end == recv_attempt(ring@, look.0, look.1 as int, look.2 as int));
    lemma_cons_head(ring);
    if let Attempt::Reserved(claim) = end {
        assert(holds(taken@, ring@.queue.take(claim.burst_len as int)));
        assert(items =~= ring@.queue.take(claim.burst_len as int));
    }
    (ring, after)
}

/// The senders' head word carries the shutdown flag just where the receivers are gone.
proof fn lemma_prod_head<T>(ring: Ring<T>)
    requires
        ring.wf(),
    ensures
        word_shutdown(ring@.prod_head()) == ring@.receivers_gone,
{
    ring.is_reached();
    let s = ring@;
    lemma_ring(s.capacity);
    word_round_trip(0, s.slot(s.used()), s.prod_seq, s.receivers_gone);
}

/// The receivers' head word carries the shutdown flag just where the senders are gone.
proof fn lemma_cons_head<T>(ring: Ring<T>)
    requires
        ring.wf(),
    ensures
        word_shutdown(ring@.cons_head()) == ring@.senders_gone,
{
    ring.is_reached();
    let s = ring@;
    lemma_ring(s.capacity);
    word_round_trip(0, s.slot(s.reading), s.cons_seq, s.senders_gone);
}

}
