//! The inside of a channel, with the visits that its ends pay to the ring.

use std::sync::Arc;

use async_event::Event;
use vstd::prelude::*;

use crate::accord::{was_heard, Accord};
use crate::bell::{ArrivalBell, SpaceBell};
use crate::count::{counts_from_one, Receiving, Seat, Sending, Tally};
use crate::handle::{filled, values, Read, Slot, Write};
use crate::laws::{undisturbed_receives_are_decided, undisturbed_sends_are_decided};
use crate::model::{claimed, taken};
use crate::plan::{plans_are_on_the_ring, Attempt, Claim};
use crate::ring::Ring;
use crate::shared::Channel;
use crate::step::{publish_step, recv_step, release_step, send_step, Finished};
use crate::vault::{Latch, Reader, Vault, Writer};
use crate::word::{index_limit, word_index};

verus! {

/// What the ends of a channel share.
#[verifier::reject_recursive_types(T)]
#[verifier::reject_recursive_types(S)]
pub(crate) struct Shared<T, S: Accord<T>> {
    capacity: usize,
    write_event: ArrivalBell<S>,
    consume_event: SpaceBell<S>,
    vault: Vault<T, S>,
}

impl<T, S: Accord<T>> Shared<T, S> {
    #[verifier::type_invariant]
    spec fn wf(self) -> bool {
        &&& 0 < self.capacity <= index_limit()
        &&& self.vault.lock().pred().capacity == self.capacity
        &&& self.write_event.count() == self.vault.lock().pred().receivers
        &&& self.consume_event.count() == self.vault.lock().pred().senders
    }

    /// The channel that this is the inside of.
    pub closed spec fn channel(self) -> Channel<T, S> {
        Channel { lock: self.vault.lock(), arrival: self.write_event.event(), space: self.consume_event.event() }
    }

    /// The inside of a channel with `capacity` slots, one of which always stays unused.
    pub fn new(
        capacity: usize,
        rule: Ghost<spec_fn(Seq<T>) -> bool>,
        senders: Arc<Tally<Sending>>,
        receivers: Arc<Tally<Receiving>>,
    ) -> (shared: Self)
        requires
            0 < capacity <= index_limit(),
            counts_from_one(senders.count()),
            counts_from_one(receivers.count()),
        ensures
            shared.channel().is_new(),
            shared.channel().terms().capacity == capacity,
            shared.channel().terms().rule == rule@,
            shared.channel().terms().senders == senders.count(),
            shared.channel().terms().receivers == receivers.count(),
    {
        Shared {
            capacity,
            write_event: ArrivalBell::new(Ghost(receivers.count())),
            consume_event: SpaceBell::new(Ghost(senders.count())),
            vault: Vault::new(capacity, rule, senders, receivers),
        }
    }

    /// The number of slots.
    pub fn capacity(&self) -> (capacity: usize)
        ensures
            capacity == self.channel().terms().capacity,
            0 < capacity <= index_limit(),
    {
        proof {
            use_type_invariant(self);
        }
        self.capacity
    }

    /// The event that tells receivers of new values, for who has a receiver's seat.
    pub fn write_event(&self, seat: &Seat<Receiving, S>) -> (event: &Event)
        requires
            seat.count() == self.channel().terms().receivers,
        ensures
            *event == self.channel().arrival,
    {
        proof {
            use_type_invariant(self);
        }
        self.write_event.listen(seat)
    }

    /// The event that tells senders of new space, for who has a sender's seat.
    pub fn consume_event(&self, seat: &Seat<Sending, S>) -> (event: &Event)
        requires
            seat.count() == self.channel().terms().senders,
        ensures
            *event == self.channel().space,
    {
        proof {
            use_type_invariant(self);
        }
        self.consume_event.listen(seat)
    }

    /// Tells waiting receivers that so many values were sent.
    pub fn tell_receivers(&self, count: usize)
        requires
            0 < count,
            S::is_news(count),
        ensures
            call_ensures(Event::notify_all, (&self.channel().arrival,), ()),
    {
        self.write_event.ring::<T>(count);
    }

    /// Tells waiting senders that so many values were received.
    pub fn tell_senders(&self, count: usize)
        requires
            0 < count,
            S::is_space(count),
        ensures
            call_ensures(Event::notify_all, (&self.channel().space,), ()),
    {
        self.consume_event.ring::<T>(count);
    }

    /// The number of senders.
    pub fn sender_count(&self) -> (count: &Tally<Sending>)
        ensures
            count.count() == self.channel().terms().senders,
        opens_invariants none
        no_unwind
    {
        self.vault.senders()
    }

    /// The number of receivers.
    pub fn receiver_count(&self) -> (count: &Tally<Receiving>)
        ensures
            count.count() == self.channel().terms().receivers,
        opens_invariants none
        no_unwind
    {
        self.vault.receivers()
    }

    /// Takes hold of the ring, for one step, and notes in it whether either side is gone.
    fn enter(&self) -> (r: (Ring<T>, Latch<'_, T, S>))
        ensures
            self.channel().took(r.0),
            r.1.lock() == self.channel().lock,
            r.1.found() == r.0,
    {
        self.vault.open()
    }

    /// Lets go of the ring, with no new claim on it.
    fn leave(&self, ring: Ring<T>, latch: Latch<'_, T, S>)
        requires
            self.channel().terms().allow(ring),
            latch.lock() == self.channel().lock,
            claimed(ring.steps()) == claimed(latch.found().steps()),
            taken(ring.steps()) == taken(latch.found().steps()),
        ensures
            self.channel().put(ring),
    {
        latch.close(ring)
    }

    /// A sender looks at the head word.
    pub fn see_prod_head(&self) -> (r: (usize, Ghost<Ring<T>>))
        ensures
            self.channel().took(r.1@),
            self.channel().put(r.1@),
            r.0 == r.1@@.prod_head(),
            word_index(r.0) < self.channel().terms().capacity,
    {
        let (ring, latch) = self.enter();
        let ghost seen = ring;
        let head: usize = ring.prod_head();
        self.leave(ring, latch);
        (head, Ghost(seen))
    }

    /// A sender looks at the tail.
    pub fn see_cons_tail(&self) -> (r: (usize, Ghost<Ring<T>>))
        ensures
            self.channel().took(r.1@),
            self.channel().put(r.1@),
            r.0 == r.1@@.cons_tail(),
            r.0 < self.channel().terms().capacity,
    {
        let (ring, latch) = self.enter();
        let ghost seen = ring;
        let tail: usize = ring.cons_tail();
        self.leave(ring, latch);
        (tail, Ghost(seen))
    }

    /// A receiver looks at the head word.
    pub fn see_cons_head(&self) -> (r: (usize, Ghost<Ring<T>>))
        ensures
            self.channel().took(r.1@),
            self.channel().put(r.1@),
            r.0 == r.1@@.cons_head(),
            word_index(r.0) < self.channel().terms().capacity,
    {
        let (ring, latch) = self.enter();
        let ghost seen = ring;
        let head: usize = ring.cons_head();
        self.leave(ring, latch);
        (head, Ghost(seen))
    }

    /// A receiver looks at the tail.
    pub fn see_prod_tail(&self) -> (r: (usize, Ghost<Ring<T>>))
        ensures
            self.channel().took(r.1@),
            self.channel().put(r.1@),
            r.0 == r.1@@.prod_tail(),
            r.0 < self.channel().terms().capacity,
    {
        let (ring, latch) = self.enter();
        let ghost seen = ring;
        let tail: usize = ring.prod_tail();
        self.leave(ring, latch);
        (tail, Ghost(seen))
    }

    /// A sender that has seen the head word and the tail attempts to claim slots, for its closure to
    /// write. It gets the closure back unless it claims some.
    pub fn claim_slots<F: FnOnce(Write<T>)>(
        &self,
        look: (usize, usize, usize),
        write_fn: F,
    ) -> (r: (Attempt, Result<Writer<F>, F>, Ghost<(Ring<T>, Ring<T>)>))
        requires
            word_index(look.0) < self.channel().terms().capacity,
            look.1 < self.channel().terms().capacity,
            look.2 > 0,
            S::may_send(look.2),
            forall|w: Write<T>|
                w.is_offer(look.2 as int, self.channel().terms().capacity - 1)
                    ==> #[trigger] call_requires(write_fn, (w,)),
            forall|w: Write<T>|
                w.is_offer(look.2 as int, self.channel().terms().capacity - 1)
                    && #[trigger] call_ensures(write_fn, (w,), ()) ==> self.channel().accepts(
                    w,
                    match w.back() {
                        Some(back) => final(w.front())@ + final(back)@,
                        None => final(w.front())@,
                    },
                ),
        ensures
            self.channel().took(r.2@.0),
            call_ensures(send_step::<T>, (r.2@.0, look), (r.2@.1, r.0)),
            self.channel().put(r.2@.1),
            r.0 is Reserved <==> r.1 is Ok,
            r.1 is Ok ==> r.1->Ok_0.write_fn() == write_fn,
            r.1 is Err ==> r.1->Err_0 == write_fn,
            r.0 is Reserved ==> {
                &&& r.0->Reserved_0.is_on(self.channel().terms().capacity)
                &&& 0 < r.0->Reserved_0.burst_len <= look.2
            },
    {
        let (ring, latch) = self.enter();
        let ghost before = ring;
        proof {
            before.is_reached();
            plans_are_on_the_ring(look.0, look.1 as int, before@.capacity, look.2 as int);
        }
        let (ring, attempt) = send_step(ring, look);
        let ghost after = ring;
        if let Attempt::Reserved(_) = attempt {
            let writer = latch.close_for_writer(ring, Ghost(look.2), write_fn);
            (attempt, Ok(writer), Ghost((before, after)))
        } else {
            self.leave(ring, latch);
            (attempt, Err(write_fn), Ghost((before, after)))
        }
    }

    /// A sender looks and claims in a single step, which nobody can disturb.
    pub fn claim_slots_at_once<F: FnOnce(Write<T>)>(
        &self,
        max_burst_len: usize,
        write_fn: F,
    ) -> (r: (Attempt, Result<Writer<F>, F>))
        requires
            max_burst_len > 0,
            S::may_send(max_burst_len),
            forall|w: Write<T>|
                w.is_offer(max_burst_len as int, self.channel().terms().capacity - 1)
                    ==> #[trigger] call_requires(write_fn, (w,)),
            forall|w: Write<T>|
                w.is_offer(max_burst_len as int, self.channel().terms().capacity - 1)
                    && #[trigger] call_ensures(write_fn, (w,), ()) ==> self.channel().accepts(
                    w,
                    match w.back() {
                        Some(back) => final(w.front())@ + final(back)@,
                        None => final(w.front())@,
                    },
                ),
        ensures
            self.channel().send_ended(max_burst_len, r.0),
            r.0 is Reserved <==> r.1 is Ok,
            r.1 is Ok ==> r.1->Ok_0.write_fn() == write_fn,
            r.1 is Err ==> r.1->Err_0 == write_fn,
            r.0 is Reserved ==> {
                &&& r.0->Reserved_0.is_on(self.channel().terms().capacity)
                &&& 0 < r.0->Reserved_0.burst_len <= max_burst_len
            },
    {
        let (ring, latch) = self.enter();
        let ghost last = ring;
        let look: (usize, usize, usize) = (ring.prod_head(), ring.cons_tail(), max_burst_len);
        let (ring, attempt) = send_step(ring, look);
        let ghost after = ring;
        proof {
            last.is_reached();
            undisturbed_sends_are_decided(last@, max_burst_len as int);
            plans_are_on_the_ring(look.0, look.1 as int, last@.capacity, max_burst_len as int);
        }
        assert(self.channel().took(last));
        assert(call_ensures(send_step::<T>, (last, look), (after, attempt)));
        if let Attempt::Reserved(_) = attempt {
            let writer = latch.close_for_writer(ring, Ghost(max_burst_len), write_fn);
            (attempt, Ok(writer))
        } else {
            self.leave(ring, latch);
            (attempt, Err(write_fn))
        }
    }

    /// A sender that has `tries` left attempts to publish what it has written for its claim.
    pub fn publish(&self, claim: &Claim, items: Vec<Slot<T>>, tries: u64) -> (outcome: Finished<T>)
        requires
            claim.is_on(self.channel().terms().capacity),
            items@.len() == claim.burst_len,
            filled(items@),
            (self.channel().terms().rule)(values(items@)),
            0 < tries,
        ensures
            outcome is Ok ==> self.channel().published(*claim, items@),
            outcome is Err ==> {
                &&& self.channel().refused_to_publish(*claim, items@, tries)
                &&& outcome->Err_0.0@ == items@
                &&& outcome->Err_0.1 == tries - 1
            },
    {
        let (ring, latch) = self.enter();
        let ghost before = ring;
        let (ring, outcome) = publish_step(ring, (*claim, items), tries);
        let ghost after = ring;
        proof {
            if outcome is Ok {
                assert(after.steps().drop_last() =~= before.steps());
            }
        }
        self.leave(ring, latch);
        assert(call_ensures(publish_step::<T>, (before, (*claim, items), tries), (after, outcome)));
        outcome
    }

    /// A receiver that has seen the head word and the tail attempts to claim values, for its closure
    /// to read. It gets the closure back unless it claims some.
    pub fn claim_values<F: FnOnce(Read<T>)>(
        &self,
        look: (usize, usize, usize),
        read_fn: F,
    ) -> (r: (Attempt, Vec<Slot<T>>, Result<Reader<F>, F>, Ghost<(Ring<T>, Ring<T>)>))
        requires
            word_index(look.0) < self.channel().terms().capacity,
            look.1 < self.channel().terms().capacity,
            S::may_receive(look.2),
            self.channel().is_heard_by(look.2, read_fn),
        ensures
            self.channel().took(r.3@.0),
            call_ensures(recv_step::<T>, (r.3@.0, look), (r.3@.1, (r.0, r.1))),
            self.channel().put(r.3@.1),
            r.0 is Reserved <==> r.2 is Ok,
            r.2 is Ok ==> r.2->Ok_0.read_fn() == read_fn,
            r.2 is Err ==> r.2->Err_0 == read_fn,
            r.0 is Reserved ==> {
                &&& r.0->Reserved_0.is_on(self.channel().terms().capacity)
                &&& r.0->Reserved_0.burst_len <= look.2
                &&& 0 < look.2 ==> 0 < r.0->Reserved_0.burst_len
            },
    {
        let (ring, latch) = self.enter();
        let ghost before = ring;
        proof {
            before.is_reached();
            plans_are_on_the_ring(look.0, look.1 as int, before@.capacity, look.2 as int);
        }
        let (ring, (attempt, items)) = recv_step(ring, look);
        let ghost after = ring;
        if let Attempt::Reserved(_) = attempt {
            let reader = latch.close_for_reader(ring, Ghost(look.2), read_fn);
            (attempt, items, Ok(reader), Ghost((before, after)))
        } else {
            self.leave(ring, latch);
            (attempt, items, Err(read_fn), Ghost((before, after)))
        }
    }

    /// A receiver looks and claims in a single step, which nobody can disturb.
    pub fn claim_values_at_once<F: FnOnce(Read<T>)>(
        &self,
        max_burst_len: usize,
        read_fn: F,
    ) -> (r: (Attempt, Vec<Slot<T>>, Result<Reader<F>, F>, Ghost<Ring<T>>))
        requires
            S::may_receive(max_burst_len),
            self.channel().is_heard_by(max_burst_len, read_fn),
        ensures
            self.channel().recv_ended(max_burst_len, r.0, values(r.1@)),
            self.channel().took(r.3@),
            r.0 is Reserved <==> r.2 is Ok,
            r.2 is Ok ==> r.2->Ok_0.read_fn() == read_fn,
            r.2 is Err ==> r.2->Err_0 == read_fn,
            r.0 is Reserved ==> {
                &&& r.0->Reserved_0.is_on(self.channel().terms().capacity)
                &&& r.0->Reserved_0.burst_len <= max_burst_len
                &&& 0 < max_burst_len ==> 0 < r.0->Reserved_0.burst_len
                &&& r.1@.len() == r.0->Reserved_0.burst_len <= r.3@@.queue.len()
                &&& filled(r.1@)
                &&& values(r.1@) == r.3@@.queue.take(r.0->Reserved_0.burst_len as int)
            },
            !(r.0 is Reserved) ==> values(r.1@) == Seq::<T>::empty(),
    {
        let (ring, latch) = self.enter();
        let ghost last = ring;
        let look: (usize, usize, usize) = (ring.cons_head(), ring.prod_tail(), max_burst_len);
        let (ring, (attempt, items)) = recv_step(ring, look);
        let ghost after = ring;
        proof {
            last.is_reached();
            undisturbed_receives_are_decided(last@, max_burst_len as int);
            plans_are_on_the_ring(look.0, look.1 as int, last@.capacity, max_burst_len as int);
        }
        assert(self.channel().took(last));
        assert(call_ensures(recv_step::<T>, (last, look), (after, (attempt, items))));
        if let Attempt::Reserved(_) = attempt {
            let reader = latch.close_for_reader(ring, Ghost(max_burst_len), read_fn);
            (attempt, items, Ok(reader), Ghost(last))
        } else {
            self.leave(ring, latch);
            (attempt, items, Err(read_fn), Ghost(last))
        }
    }

    /// A receiver that has `tries` left attempts to give the slots of its claim back, with what was
    /// left in them.
    pub fn release(&self, claim: &Claim, rest: Vec<Slot<T>>, tries: u64) -> (outcome: Finished<T>)
        requires
            claim.is_on(self.channel().terms().capacity),
            was_heard::<T, S>(*claim),
            0 < tries,
        ensures
            outcome is Ok ==> self.channel().released(*claim, rest@),
            outcome is Err ==> {
                &&& self.channel().refused_to_release(*claim, rest@, tries)
                &&& outcome->Err_0.0@ == rest@
                &&& outcome->Err_0.1 == tries - 1
            },
    {
        let (ring, latch) = self.enter();
        let ghost before = ring;
        let (ring, outcome) = release_step(ring, (*claim, rest), tries);
        let ghost after = ring;
        proof {
            if outcome is Ok {
                assert(after.steps().drop_last() =~= before.steps());
            }
        }
        self.leave(ring, latch);
        assert(call_ensures(release_step::<T>, (before, (*claim, rest), tries), (after, outcome)));
        outcome
    }
}

}
