//! What holds of the channel as a whole.

use vstd::prelude::*;

use crate::model::{
    can_run, claimed, received, recv_attempt, run, send_attempt, sent, taken, RingState, Step,
};
use crate::plan::{claim_at, lemma_ring, min, recv_plan, ring_step, send_plan, Attempt, Plan};
use crate::ring::Ring;
use crate::word::{
    index_limit, seq_after, seq_limit, word_index, word_round_trip, word_seq, word_shutdown,
};

verus! {

/// Whatever the senders and receivers do, the ring stays within its bounds and keeps its size, and
/// neither side comes back once it is gone.
pub proof fn ring_stays_valid<T>(s: RingState<T>, steps: Seq<Step<T>>)
    requires
        s.valid(),
        can_run(s, steps),
    ensures
        run(s, steps).valid(),
        run(s, steps).capacity == s.capacity,
        s.senders_gone ==> run(s, steps).senders_gone,
        s.receivers_gone ==> run(s, steps).receivers_gone,
    decreases steps.len(),
{
    if steps.len() > 0 {
        ring_stays_valid(s, steps.drop_last());
        lemma_ring(s.capacity);
    }
}

/// Values come out in the order in which they went in, each once, and none is lost: what was in
/// the queue, with what is sent, is what is received, with what is in the queue afterwards. This
/// holds of every interleaving of any number of senders and receivers.
pub proof fn first_in_first_out<T>(s: RingState<T>, steps: Seq<Step<T>>)
    requires
        s.valid(),
        can_run(s, steps),
    ensures
        s.queue + sent(steps) == received(s, steps) + run(s, steps).queue,
    decreases steps.len(),
{
    if steps.len() > 0 {
        let before = steps.drop_last();
        let last = steps.last();
        first_in_first_out(s, before);
        let t = run(s, before);
        assert(t.queue + last.sent() =~= last.received(t) + last.apply(t).queue) by {
            match last {
                Step::ClaimRecv(n) => {
                    assert(t.queue =~= t.queue.take(n) + t.queue.skip(n));
                },
                _ => {},
            }
        }
        assert(s.queue + sent(steps) =~= (s.queue + sent(before)) + last.sent());
        assert((received(s, before) + t.queue) + last.sent() =~= received(s, before) + (t.queue
            + last.sent()));
        assert(received(s, before) + (last.received(t) + last.apply(t).queue) =~= (received(
            s,
            before,
        ) + last.received(t)) + last.apply(t).queue);
    } else {
        assert(s.queue + sent(steps) =~= received(s, steps) + run(s, steps).queue);
    }
}

/// So it is with every ring that is in use: all that was ever sent through it is what was received
/// from it, followed by what it still holds.
pub proof fn rings_lose_nothing<T>(ring: Ring<T>)
    requires
        ring.wf(),
    ensures
        sent(ring.steps()) == received(RingState::<T>::fresh(ring@.capacity), ring.steps())
            + ring@.queue,
{
    ring.is_reached();
    let fresh = RingState::<T>::fresh(ring@.capacity);
    first_in_first_out(fresh, ring.steps());
    assert(fresh.queue + sent(ring.steps()) =~= sent(ring.steps()));
}

/// There is one order of all values that are sent, which is the order of the steps that publish
/// them: each burst is a run of its own in that order, with its values in the order in which they
/// were written, and a burst that is published later lies behind.
pub proof fn bursts_keep_their_order<T>(steps: Seq<Step<T>>, i: int, j: int)
    requires
        0 <= i < j < steps.len(),
    ensures
        ({
            let all = sent(steps);
            let first = sent(steps.take(i)).len() as int;
            let second = sent(steps.take(j)).len() as int;
            &&& first + steps[i].sent().len() <= second
            &&& second + steps[j].sent().len() <= all.len()
            &&& all.subrange(first, first + steps[i].sent().len()) == steps[i].sent()
            &&& all.subrange(second, second + steps[j].sent().len()) == steps[j].sent()
        }),
{
    lemma_sent_at(steps, i);
    lemma_sent_at(steps, j);
    lemma_sent_at(steps.take(j), i);
    assert(steps.take(j).take(i) =~= steps.take(i));
}

/// The bursts of one thread keep the order of its calls: a call claims its slots and later publishes
/// its burst, and the next call claims only then. Here `calls` has for each call of the thread, in
/// order, the place of its claim and that of its publication among the steps of all threads.
pub proof fn threads_keep_their_order<T>(
    steps: Seq<Step<T>>,
    calls: Seq<(int, int)>,
    earlier: int,
    later: int,
)
    requires
        forall|k: int|
            0 <= k < calls.len() ==> 0 <= (#[trigger] calls[k]).0 < calls[k].1 < steps.len(),
        forall|k: int, l: int|
            0 <= k && l == k + 1 && l < calls.len() ==> (#[trigger] calls[k]).1 < (
            #[trigger] calls[l]).0,
        0 <= earlier < later < calls.len(),
    ensures
        ({
            let all = sent(steps);
            let one = steps[calls[earlier].1].sent();
            let other = steps[calls[later].1].sent();
            let first = sent(steps.take(calls[earlier].1)).len() as int;
            let second = sent(steps.take(calls[later].1)).len() as int;
            &&& first + one.len() <= second
            &&& second + other.len() <= all.len()
            &&& all.subrange(first, first + one.len()) == one
            &&& all.subrange(second, second + other.len()) == other
        }),
{
    lemma_calls_in_order(calls, earlier, later);
    bursts_keep_their_order(steps, calls[earlier].1, calls[later].1);
}

proof fn lemma_calls_in_order(calls: Seq<(int, int)>, earlier: int, later: int)
    requires
        forall|k: int| 0 <= k < calls.len() ==> (#[trigger] calls[k]).0 < calls[k].1,
        forall|k: int, l: int|
            0 <= k && l == k + 1 && l < calls.len() ==> (#[trigger] calls[k]).1 < (
            #[trigger] calls[l]).0,
        0 <= earlier < later < calls.len(),
    ensures
        calls[earlier].1 < calls[later].1,
    decreases later - earlier,
{
    if later - earlier > 1 {
        lemma_calls_in_order(calls, earlier, later - 1);
    }
    assert(calls[later - 1].1 < calls[later].0);
}

/// Each receive takes a run of the values that were sent, in the order in which they were sent, and
/// a later receive takes a later run: no value is received twice.
pub proof fn receives_keep_the_order<T>(capacity: int, steps: Seq<Step<T>>, i: int, j: int)
    requires
        0 < capacity <= index_limit(),
        can_run(RingState::<T>::fresh(capacity), steps),
        0 <= i < j < steps.len(),
    ensures
        ({
            let s = RingState::<T>::fresh(capacity);
            let all = sent(steps);
            let first = received(s, steps.take(i)).len() as int;
            let second = received(s, steps.take(j)).len() as int;
            let one = steps[i].received(run(s, steps.take(i)));
            let other = steps[j].received(run(s, steps.take(j)));
            &&& first + one.len() <= second
            &&& second + other.len() <= all.len()
            &&& all.subrange(first, first + one.len()) == one
            &&& all.subrange(second, second + other.len()) == other
        }),
{
    let s = RingState::<T>::fresh(capacity);
    let all = sent(steps);
    lemma_received_at(s, steps, i);
    lemma_received_at(s, steps, j);
    lemma_received_at(s, steps.take(j), i);
    assert(steps.take(j).take(i) =~= steps.take(i));
    first_in_first_out(s, steps);
    assert(s.queue + all =~= all);
    let first = received(s, steps.take(i)).len() as int;
    let second = received(s, steps.take(j)).len() as int;
    let one = steps[i].received(run(s, steps.take(i)));
    let other = steps[j].received(run(s, steps.take(j)));
    assert(all.subrange(first, first + one.len()) =~= received(s, steps).subrange(
        first,
        first + one.len(),
    ));
    assert(all.subrange(second, second + other.len()) =~= received(s, steps).subrange(
        second,
        second + other.len(),
    ));
}

/// What a step sends follows on what the steps before it send.
proof fn lemma_sent_at<T>(steps: Seq<Step<T>>, i: int)
    requires
        0 <= i < steps.len(),
    ensures
        ({
            let at = sent(steps.take(i)).len() as int;
            &&& at + steps[i].sent().len() <= sent(steps).len()
            &&& sent(steps).subrange(at, at + steps[i].sent().len()) == steps[i].sent()
        }),
    decreases steps.len(),
{
    let at = sent(steps.take(i)).len() as int;
    let before = steps.drop_last();
    if i < before.len() {
        lemma_sent_at(before, i);
        assert(before.take(i) =~= steps.take(i));
        assert(sent(steps).subrange(at, at + steps[i].sent().len()) =~= sent(before).subrange(
            at,
            at + steps[i].sent().len(),
        ));
    } else {
        assert(before =~= steps.take(i));
        assert(sent(steps).subrange(at, at + steps[i].sent().len()) =~= steps[i].sent());
    }
}

/// What a step receives follows on what the steps before it receive.
proof fn lemma_received_at<T>(s: RingState<T>, steps: Seq<Step<T>>, i: int)
    requires
        0 <= i < steps.len(),
    ensures
        ({
            let at = received(s, steps.take(i)).len() as int;
            let one = steps[i].received(run(s, steps.take(i)));
            &&& at + one.len() <= received(s, steps).len()
            &&& received(s, steps).subrange(at, at + one.len()) == one
        }),
    decreases steps.len(),
{
    let at = received(s, steps.take(i)).len() as int;
    let one = steps[i].received(run(s, steps.take(i)));
    let before = steps.drop_last();
    if i < before.len() {
        lemma_received_at(s, before, i);
        assert(before.take(i) =~= steps.take(i));
        assert(received(s, steps).subrange(at, at + one.len()) =~= received(s, before).subrange(
            at,
            at + one.len(),
        ));
    } else {
        assert(before =~= steps.take(i));
        assert(received(s, steps).subrange(at, at + one.len()) =~= one);
    }
}

/// Every slot but one is accounted for: it is being read, or holds a value, or is being written, or
/// is free. So a channel never holds more values than it was made for.
pub proof fn every_slot_is_accounted_for<T>(s: RingState<T>)
    requires
        s.valid(),
    ensures
        s.reading + s.queue.len() + s.writing + s.free() == s.capacity - 1,
        s.queue.len() <= s.capacity - 1,
{
}

/// The slots that a sender claims are in use by nobody else, neither for a value nor for another
/// claim, and differ from one another.
pub proof fn claims_are_exclusive<T>(s: RingState<T>, count: int, i: int, j: int)
    requires
        s.valid(),
        0 <= count <= s.free(),
        s.used() <= i < s.used() + count,
        0 <= j < s.used() + count,
        i != j,
    ensures
        s.slot(i) != s.slot(j),
        0 <= s.slot(i) < s.capacity,
{
    lemma_ring(s.capacity);
}

/// Bursts are finished in the order of their claims: a claim that begins behind another unfinished
/// one of its side does not start at that side's tail, where alone a claim can be finished.
pub proof fn later_claims_wait<T>(s: RingState<T>, behind: int)
    requires
        s.valid(),
        0 < behind,
    ensures
        behind <= s.writing ==> s.slot(s.reading + s.queue.len() + behind) != s.prod_tail(),
        behind <= s.reading ==> s.slot(behind) != s.cons_tail(),
{
    lemma_ring(s.capacity);
}

/// A full ring differs from an empty one: the senders' head meets the receivers' tail only where
/// nothing is in use.
pub proof fn full_is_not_empty<T>(s: RingState<T>)
    requires
        s.valid(),
    ensures
        word_index(s.prod_head()) == s.cons_tail() <==> s.used() == 0,
{
    lemma_ring(s.capacity);
    word_round_trip(0, s.slot(s.used()), s.prod_seq, s.receivers_gone);
}

/// A sender that looks at the ring as it is claims as many slots as are free, up to what it wants.
/// It finds nothing to claim exactly when the ring is full, and a shutdown exactly when every
/// receiver is gone.
pub proof fn send_takes_what_fits<T>(s: RingState<T>, max_burst_len: int)
    requires
        s.valid(),
        max_burst_len >= 0,
    ensures
        send_plan(s.prod_head(), s.cons_tail(), s.capacity, max_burst_len) == (
        if s.receivers_gone {
            Plan::Shutdown
        } else if s.free() == 0 {
            Plan::Blocked { expected: s.prod_head() }
        } else {
            Plan::Claim(claim_at(s.prod_head(), min(max_burst_len, s.free()), s.capacity))
        }),
{
    lemma_ring(s.capacity);
    word_round_trip(0, s.slot(s.used()), s.prod_seq, s.receivers_gone);
}

/// A receiver that looks at the ring as it is claims as many values as there are, up to what it
/// wants. It finds nothing to claim exactly when there are no values. Only then, and only if every
/// sender is gone, it finds a shutdown: what was sent before the senders went is still received.
pub proof fn receive_takes_what_is_there<T>(s: RingState<T>, max_burst_len: int)
    requires
        s.valid(),
        max_burst_len >= 0,
    ensures
        recv_plan(s.cons_head(), s.prod_tail(), s.capacity, max_burst_len) == (if s.queue.len() > 0 {
            Plan::Claim(claim_at(s.cons_head(), min(max_burst_len, s.queue.len() as int), s.capacity))
        } else if s.senders_gone {
            Plan::Shutdown
        } else {
            Plan::Blocked { expected: s.cons_head() }
        }),
{
    lemma_ring(s.capacity);
    word_round_trip(0, s.slot(s.reading), s.cons_seq, s.senders_gone);
}

/// A claim leaves in the ring the head word that it wants.
pub proof fn claim_leaves_desired_word<T>(s: RingState<T>, count: int)
    requires
        s.valid(),
    ensures
        0 <= count <= s.free() ==> claim_at(s.prod_head(), count, s.capacity).desired
            == s.claim_send(count).prod_head(),
        0 <= count <= s.queue.len() ==> claim_at(s.cons_head(), count, s.capacity).desired
            == s.claim_recv(count).cons_head(),
{
    lemma_ring(s.capacity);
    word_round_trip(0, s.slot(s.used()), s.prod_seq, s.receivers_gone);
    word_round_trip(0, s.slot(s.reading), s.cons_seq, s.senders_gone);
}

/// What is sent can be received: on a ring that nobody else uses, a burst that is claimed, written
/// and published comes out, in order, behind what was there before.
pub proof fn what_is_sent_is_received<T>(s: RingState<T>, items: Seq<T>)
    requires
        s.valid(),
        s.writing == 0,
        items.len() <= s.free(),
    ensures
        ({
            let full = s.claim_send(items.len() as int).publish(items);
            &&& full.valid()
            &&& full.writing == 0
            &&& full.queue == s.queue + items
            &&& full.queue.take(s.queue.len() as int) == s.queue
            &&& full.claim_recv(s.queue.len() as int).queue.take(items.len() as int) == items
        }),
{
    let full = s.claim_send(items.len() as int).publish(items);
    assert(full.queue.take(s.queue.len() as int) =~= s.queue);
    assert(full.claim_recv(s.queue.len() as int).queue.take(items.len() as int) =~= items);
}

/// A burst gives back all the room that it took: sending `items` and receiving as many values
/// leaves as much room as before.
pub proof fn room_comes_back<T>(s: RingState<T>, items: Seq<T>)
    requires
        s.valid(),
        s.writing == 0,
        s.reading == 0,
        items.len() <= s.free(),
    ensures
        ({
            let n = items.len() as int;
            let t = s.claim_send(n).publish(items).claim_recv(n).release(n);
            &&& t.valid()
            &&& t.free() == s.free()
            &&& t.queue == (s.queue + items).skip(n)
        }),
{
    lemma_ring(s.capacity);
}

/// The senders' head moves only by the slots that senders claim.
#[verifier::rlimit(50)]
pub proof fn head_moves_by_what_is_claimed<T>(s: RingState<T>, steps: Seq<Step<T>>)
    requires
        s.valid(),
        can_run(s, steps),
    ensures
        0 <= claimed(steps),
        word_index(run(s, steps).prod_head()) == ring_step(
            word_index(s.prod_head()),
            claimed(steps),
            s.capacity,
        ),
        word_seq(run(s, steps).prod_head()) == seq_after(word_seq(s.prod_head()), claimed(steps)),
        word_shutdown(s.prod_head()) ==> word_shutdown(run(s, steps).prod_head()),
{
    let t = run(s, steps);
    ring_stays_valid(s, steps);
    lemma_prod_position(s, steps);
    lemma_slot_in_range(s, s.used());
    lemma_slot_in_range(t, t.used());
    word_round_trip(0, s.slot(s.used()), s.prod_seq, s.receivers_gone);
    word_round_trip(0, t.slot(t.used()), t.prod_seq, t.receivers_gone);
}

/// The receivers' head moves only by the values that receivers claim.
#[verifier::rlimit(50)]
pub proof fn head_moves_by_what_is_taken<T>(s: RingState<T>, steps: Seq<Step<T>>)
    requires
        s.valid(),
        can_run(s, steps),
    ensures
        0 <= taken(steps),
        word_index(run(s, steps).cons_head()) == ring_step(
            word_index(s.cons_head()),
            taken(steps),
            s.capacity,
        ),
        word_seq(run(s, steps).cons_head()) == seq_after(word_seq(s.cons_head()), taken(steps)),
        word_shutdown(s.cons_head()) ==> word_shutdown(run(s, steps).cons_head()),
{
    let t = run(s, steps);
    ring_stays_valid(s, steps);
    lemma_cons_position(s, steps);
    lemma_slot_in_range(s, s.reading);
    lemma_slot_in_range(t, t.reading);
    word_round_trip(0, s.slot(s.reading), s.cons_seq, s.senders_gone);
    word_round_trip(0, t.slot(t.reading), t.cons_seq, t.senders_gone);
}

/// A head word that was seen a while ago is told from the present one, unless what was claimed in
/// between is a multiple both of the number of sequence tags and of the number of slots.
#[verifier::rlimit(50)]
pub proof fn stale_heads_are_noticed<T>(s: RingState<T>, steps: Seq<Step<T>>)
    requires
        s.valid(),
        can_run(s, steps),
    ensures
        run(s, steps).prod_head() == s.prod_head() ==> claimed(steps) % seq_limit() == 0 && claimed(
            steps,
        ) % s.capacity == 0,
        run(s, steps).cons_head() == s.cons_head() ==> taken(steps) % seq_limit() == 0 && taken(
            steps,
        ) % s.capacity == 0,
{
    head_moves_by_what_is_claimed(s, steps);
    head_moves_by_what_is_taken(s, steps);
    lemma_slot_in_range(s, s.used());
    lemma_slot_in_range(s, s.reading);
    word_round_trip(s.prod_head(), s.slot(s.used()), s.prod_seq, s.receivers_gone);
    word_round_trip(s.cons_head(), s.slot(s.reading), s.cons_seq, s.senders_gone);
    if run(s, steps).prod_head() == s.prod_head() {
        lemma_step_to_itself(word_index(s.prod_head()), claimed(steps), s.capacity);
    }
    if run(s, steps).cons_head() == s.cons_head() {
        lemma_step_to_itself(word_index(s.cons_head()), taken(steps), s.capacity);
    }
}

/// Room is lost only to senders, and values only to receivers: other steps leave at least as much
/// of either.
pub proof fn only_claims_use_up<T>(s: RingState<T>, steps: Seq<Step<T>>)
    requires
        s.valid(),
        can_run(s, steps),
    ensures
        run(s, steps).free() >= s.free() - claimed(steps),
        run(s, steps).queue.len() >= s.queue.len() - taken(steps),
    decreases steps.len(),
{
    if steps.len() > 0 {
        only_claims_use_up(s, steps.drop_last());
    }
}

/// An attempt that nobody disturbs comes to an end: where the ring still is as it was seen, a sender
/// finds a shutdown, or a full ring, or gets as many slots as are free, up to what it wants.
pub proof fn undisturbed_sends_are_decided<T>(s: RingState<T>, max_burst_len: int)
    requires
        s.valid(),
        max_burst_len >= 0,
    ensures
        send_attempt(s, s.prod_head(), s.cons_tail(), max_burst_len) == (if s.receivers_gone {
            Attempt::Shutdown
        } else if s.free() == 0 {
            Attempt::Nothing
        } else {
            Attempt::Reserved(claim_at(s.prod_head(), min(max_burst_len, s.free()), s.capacity))
        }),
{
    send_takes_what_fits(s, max_burst_len);
}

/// The same for a receiver: it gets as many values as there are, up to what it wants, or finds an
/// empty ring, or a shutdown.
pub proof fn undisturbed_receives_are_decided<T>(s: RingState<T>, max_burst_len: int)
    requires
        s.valid(),
        max_burst_len >= 0,
    ensures
        recv_attempt(s, s.cons_head(), s.prod_tail(), max_burst_len) == (if s.queue.len() > 0 {
            Attempt::Reserved(
                claim_at(s.cons_head(), min(max_burst_len, s.queue.len() as int), s.capacity),
            )
        } else if s.senders_gone {
            Attempt::Shutdown
        } else {
            Attempt::Nothing
        }),
{
    receive_takes_what_is_there(s, max_burst_len);
}

/// A sender need not see the ring all at once. Where it has seen the head word at one time and the
/// tail later, and attempts its claim later still, it has to try again only if another sender
/// came first, or the receivers went, or the ring was full and a receiver has made room since:
/// somebody always gets on.
#[verifier::rlimit(50)]
pub proof fn sends_are_held_up_by_progress_alone<T>(
    s: RingState<T>,
    until_tail: Seq<Step<T>>,
    until_claim: Seq<Step<T>>,
    max_burst_len: int,
)
    requires
        s.valid(),
        can_run(s, until_tail),
        can_run(run(s, until_tail), until_claim),
        claimed(until_tail) == 0,
        claimed(until_claim) == 0,
        run(run(s, until_tail), until_claim).receivers_gone == s.receivers_gone,
        max_burst_len >= 0,
    ensures
        send_attempt(
            run(run(s, until_tail), until_claim),
            s.prod_head(),
            run(s, until_tail).cons_tail(),
            max_burst_len,
        ) is Again ==> run(s, until_tail).free() == 0 && run(
            run(s, until_tail),
            until_claim,
        ).free() > 0,
{
    let t = run(s, until_tail);
    let u = run(t, until_claim);
    ring_stays_valid(s, until_tail);
    ring_stays_valid(t, until_claim);
    head_moves_by_what_is_claimed(s, until_tail);
    head_moves_by_what_is_claimed(t, until_claim);
    only_claims_use_up(t, until_claim);
    lemma_ring(s.capacity);
    word_round_trip(s.prod_head(), s.slot(s.used()), s.prod_seq, s.receivers_gone);
    word_round_trip(t.prod_head(), t.slot(t.used()), t.prod_seq, t.receivers_gone);
    word_round_trip(u.prod_head(), u.slot(u.used()), u.prod_seq, u.receivers_gone);
}

/// The same for a receiver: it has to try again only if another receiver came first, or the senders
/// went, or there were no values and a sender has sent some since.
#[verifier::rlimit(50)]
pub proof fn receives_are_held_up_by_progress_alone<T>(
    s: RingState<T>,
    until_tail: Seq<Step<T>>,
    until_claim: Seq<Step<T>>,
    max_burst_len: int,
)
    requires
        s.valid(),
        can_run(s, until_tail),
        can_run(run(s, until_tail), until_claim),
        taken(until_tail) == 0,
        taken(until_claim) == 0,
        run(run(s, until_tail), until_claim).senders_gone == s.senders_gone,
        max_burst_len >= 0,
    ensures
        recv_attempt(
            run(run(s, until_tail), until_claim),
            s.cons_head(),
            run(s, until_tail).prod_tail(),
            max_burst_len,
        ) is Again ==> run(s, until_tail).queue.len() == 0 && run(
            run(s, until_tail),
            until_claim,
        ).queue.len() > 0,
{
    let t = run(s, until_tail);
    let u = run(t, until_claim);
    ring_stays_valid(s, until_tail);
    ring_stays_valid(t, until_claim);
    head_moves_by_what_is_taken(s, until_tail);
    head_moves_by_what_is_taken(t, until_claim);
    only_claims_use_up(t, until_claim);
    lemma_ring(s.capacity);
    word_round_trip(s.cons_head(), s.slot(s.reading), s.cons_seq, s.senders_gone);
    word_round_trip(t.cons_head(), t.slot(t.reading), t.cons_seq, t.senders_gone);
    word_round_trip(u.cons_head(), u.slot(u.reading), u.cons_seq, u.senders_gone);
}

proof fn lemma_step_to_itself(i: int, n: int, capacity: int)
    requires
        0 <= i < capacity,
        ring_step(i, n, capacity) == i,
    ensures
        n % capacity == 0,
{
    vstd::arithmetic::div_mod::lemma_small_mod(i as nat, capacity as nat);
    vstd::arithmetic::div_mod::lemma_sub_mod_noop(i + n, i, capacity);
    assert(0int % capacity == 0) by {
        vstd::arithmetic::div_mod::lemma_small_mod(0, capacity as nat);
    }
}

/// The senders' head is moved by what is claimed for writing.
#[verifier::rlimit(50)]
proof fn lemma_prod_position<T>(s: RingState<T>, steps: Seq<Step<T>>)
    requires
        s.valid(),
        can_run(s, steps),
    ensures
        0 <= claimed(steps),
        run(s, steps).slot(run(s, steps).used()) == ring_step(
            s.slot(s.used()),
            claimed(steps),
            s.capacity,
        ),
        run(s, steps).prod_seq == seq_after(s.prod_seq, claimed(steps)),
    decreases steps.len(),
{
    if steps.len() > 0 {
        let before = steps.drop_last();
        lemma_prod_position(s, before);
        ring_stays_valid(s, before);
        lemma_step_moves_heads(run(s, before), steps.last());
        lemma_ring_steps_add(s.slot(s.used()), claimed(before), steps.last().claimed(), s.capacity);
    } else {
        lemma_ring_steps_add(s.start, s.used(), 0, s.capacity);
    }
}

/// The receivers' head is moved by what is claimed for reading.
#[verifier::rlimit(50)]
proof fn lemma_cons_position<T>(s: RingState<T>, steps: Seq<Step<T>>)
    requires
        s.valid(),
        can_run(s, steps),
    ensures
        0 <= taken(steps),
        run(s, steps).slot(run(s, steps).reading) == ring_step(
            s.slot(s.reading),
            taken(steps),
            s.capacity,
        ),
        run(s, steps).cons_seq == seq_after(s.cons_seq, taken(steps)),
    decreases steps.len(),
{
    if steps.len() > 0 {
        let before = steps.drop_last();
        lemma_cons_position(s, before);
        ring_stays_valid(s, before);
        lemma_step_moves_heads(run(s, before), steps.last());
        lemma_ring_steps_add(s.slot(s.reading), taken(before), steps.last().taken(), s.capacity);
    } else {
        lemma_ring_steps_add(s.start, s.reading, 0, s.capacity);
    }
}

proof fn lemma_ring_steps_add(i: int, m: int, n: int, capacity: int)
    requires
        capacity > 0,
    ensures
        ring_step(ring_step(i, m, capacity), n, capacity) == ring_step(i, m + n, capacity),
{
    vstd::arithmetic::div_mod::lemma_add_mod_noop_right(n, i + m, capacity);
}

proof fn lemma_slot_in_range<T>(s: RingState<T>, offset: int)
    requires
        s.valid(),
        0 <= offset < s.capacity,
    ensures
        0 <= s.slot(offset) < s.capacity,
{
    lemma_ring(s.capacity);
}

#[verifier::rlimit(50)]
proof fn lemma_step_moves_heads<T>(s: RingState<T>, step: Step<T>)
    requires
        s.valid(),
        step.enabled(s),
    ensures
        0 <= step.claimed(),
        step.apply(s).slot(step.apply(s).used()) == ring_step(
            s.slot(s.used()),
            step.claimed(),
            s.capacity,
        ),
        step.apply(s).prod_seq == seq_after(s.prod_seq, step.claimed()),
        0 <= step.taken(),
        step.apply(s).slot(step.apply(s).reading) == ring_step(
            s.slot(s.reading),
            step.taken(),
            s.capacity,
        ),
        step.apply(s).cons_seq == seq_after(s.cons_seq, step.taken()),
{
    lemma_ring(s.capacity);
}

}
