//! What the ends of a channel share, and what can be said of the steps that an end has taken.

use std::marker::PhantomData;
use std::sync::atomic::AtomicUsize;

use async_event::Event;
use crossbeam_utils::Backoff;
use vstd::prelude::*;
use vstd::rwlock::{RwLock, RwLockPredicate, WriteHandle};

use crate::accord::{are_called_for, was_heard, Accord};
use crate::count::{counts_from_one, found_at};
use crate::error::Error;
use crate::gate::Shared;
use crate::handle::{filled, values, Read, Slot, Write};
use crate::laws::rings_lose_nothing;
use crate::model::{bursts_meet, noting, received, sent, RingState};
use crate::plan::{min, Attempt, Claim};
use crate::ring::Ring;
use crate::step::{publish_step, recv_step, release_step, send_step, Finished};
use crate::vault::{Reader, Writer};
use crate::word::word_index;

verus! {

/// How often an end of the channel tries again before it loses its patience with the other ends.
/// At one try a nanosecond this takes centuries; it is there so that every loop has an end.
const PATIENCE: u64 = u64::MAX;

/// What all ends of a channel keep to.
#[verifier::reject_recursive_types(T)]
#[verifier::reject_recursive_types(S)]
pub struct Terms<T, S: Accord<T>> {
    /// The number of slots.
    pub capacity: int,
    /// What every burst that is sent meets.
    pub rule: spec_fn(Seq<T>) -> bool,
    /// The number of senders.
    pub senders: AtomicUsize,
    /// The number of receivers.
    pub receivers: AtomicUsize,
    /// What the users of the channel agree on.
    pub accord: PhantomData<S>,
}

impl<T, S: Accord<T>> Terms<T, S> {
    /// What holds of the ring whenever no step is being taken on it: it has its size, every burst
    /// that was ever sent through it met the rule, every step that was ever taken on it was asked
    /// for, and a side is gone only if none of it was left.
    pub open spec fn allow(self, ring: Ring<T>) -> bool {
        &&& ring.wf()
        &&& ring@.capacity == self.capacity
        &&& bursts_meet(ring.steps(), self.rule)
        &&& are_called_for::<T, S>(ring.steps())
        &&& ring@.senders_gone ==> found_at(self.senders, 0)
        &&& ring@.receivers_gone ==> found_at(self.receivers, 0)
    }

    /// Whether the slots of a reservation can be sent if they are left as given: every one of them
    /// is written, and the burst meets the rule.
    pub open spec fn accept(self, w: Write<T>, left: Seq<Slot<T>>) -> bool {
        w.may_be_left_as(left) && (self.rule)(values(left))
    }

    /// Whether `read_fn` sees to all values that it may be called with.
    pub open spec fn is_heard_by<F: FnOnce(Read<T>)>(
        self,
        max_burst_len: usize,
        read_fn: F,
    ) -> bool {
        forall|read: Read<T>|
            read.is_offer(max_burst_len as int, self.capacity - 1)
                && #[trigger] call_ensures(read_fn, (read,), ()) ==> S::heard(read@)
    }
}

impl<T, S: Accord<T>> RwLockPredicate<Ring<T>> for Terms<T, S> {
    open spec fn inv(self, ring: Ring<T>) -> bool {
        self.allow(ring)
    }
}

/// Whether the ring was taken out of the lock and, once the ends were counted, was as given.
pub open spec fn took_out<T, S: Accord<T>>(
    lock: RwLock<Ring<T>, Terms<T, S>>,
    ring: Ring<T>,
) -> bool {
    &&& lock.pred().allow(ring)
    &&& exists|
        found: Ring<T>,
        handle: WriteHandle<'_, Ring<T>, Terms<T, S>>,
        senders: usize,
        receivers: usize,
    |
        {
            &&& #[trigger] call_ensures(
                RwLock::<Ring<T>, Terms<T, S>>::acquire_write,
                (&lock,),
                (found, handle),
            )
            &&& #[trigger] found_at(lock.pred().senders, senders)
            &&& #[trigger] found_at(lock.pred().receivers, receivers)
            &&& ring@ == found@.noted(senders as int, receivers as int)
            &&& ring.steps() == found.steps() + noting(senders as int, receivers as int)
        }
}

/// Whether the ring was put back into the lock as given.
pub open spec fn put_back<T, S: Accord<T>>(
    lock: RwLock<Ring<T>, Terms<T, S>>,
    ring: Ring<T>,
) -> bool {
    &&& lock.pred().allow(ring)
    &&& exists|handle: WriteHandle<'_, Ring<T>, Terms<T, S>>|
        {
            &&& handle.rwlock() == lock
            &&& #[trigger] call_ensures(
                WriteHandle::<Ring<T>, Terms<T, S>>::release_write,
                (handle, ring),
                (),
            )
        }
}

/// A channel: the lock that its ring is behind, and the events by which its ends tell one another
/// of values and of space. Which steps other ends take in between two steps of one end is up to
/// them; what is said here is which steps an end has taken, on a ring that it took out of this lock
/// and put back into it.
#[verifier::reject_recursive_types(T)]
#[verifier::reject_recursive_types(S)]
pub struct Channel<T, S: Accord<T>> {
    pub lock: RwLock<Ring<T>, Terms<T, S>>,
    /// The event that tells receivers of new values.
    pub arrival: Event,
    /// The event that tells senders of new space.
    pub space: Event,
}

impl<T, S: Accord<T>> Channel<T, S> {
    /// What all ends of this channel keep to.
    pub open spec fn terms(self) -> Terms<T, S> {
        self.lock.pred()
    }

    /// Whether an end took the ring out of the lock, counted the ends, and so found the ring as
    /// given.
    pub open spec fn took(self, ring: Ring<T>) -> bool {
        took_out(self.lock, ring)
    }

    /// Whether an end put the ring back into the lock as given.
    pub open spec fn put(self, ring: Ring<T>) -> bool {
        put_back(self.lock, ring)
    }

    /// Whether the attempt of a sender that wants up to `max_burst_len` slots has come to `end`: it
    /// has seen the head word and the tail, each time leaving the ring as it was, and then taken the
    /// step that decides.
    pub open spec fn send_ended(self, max_burst_len: usize, end: Attempt) -> bool {
        &&& !(end is Again)
        &&& exists|
            seen: Ring<T>,
            later: Ring<T>,
            ring: Ring<T>,
            after: Ring<T>,
            look: (usize, usize, usize),
        |
            {
                &&& #[trigger] self.took(seen)
                &&& look.0 == seen@.prod_head()
                &&& seen == ring || self.put(seen)
                &&& #[trigger] self.took(later)
                &&& look.1 == later@.cons_tail()
                &&& later == ring || self.put(later)
                &&& look.2 == max_burst_len
                &&& self.took(ring)
                &&& #[trigger] call_ensures(send_step::<T>, (ring, look), (after, end))
                &&& self.put(after)
            }
    }

    /// Whether every receiver was gone at some time.
    pub open spec fn lost_its_receivers(self) -> bool {
        exists|ring: Ring<T>| #[trigger] self.took(ring) && ring@.receivers_gone
    }

    /// Whether no slot was free at some time, with a receiver there to make room.
    pub open spec fn was_full(self) -> bool {
        exists|ring: Ring<T>|
            #[trigger] self.took(ring) && ring@.free() == 0 && !ring@.receivers_gone
    }

    /// Whether the slots of a reservation can be sent if they are left as given: every one of them
    /// is written, and the burst meets the rule.
    pub open spec fn accepts(self, w: Write<T>, left: Seq<Slot<T>>) -> bool {
        self.terms().accept(w, left)
    }

    /// Whether `read_fn` sees to all values that it may be called with.
    pub open spec fn is_heard_by<F: FnOnce(Read<T>)>(
        self,
        max_burst_len: usize,
        read_fn: F,
    ) -> bool {
        self.terms().is_heard_by(max_burst_len, read_fn)
    }

    /// Whether a sender met a shutdown, for want of receivers.
    pub open spec fn shut_to_senders(self, max_burst_len: usize) -> bool {
        &&& self.send_ended(max_burst_len, Attempt::Shutdown)
        &&& self.lost_its_receivers()
        &&& found_at(self.terms().receivers, 0)
    }

    /// Whether a sender found nothing to reserve, for want of room.
    pub open spec fn full_to_senders(self, max_burst_len: usize) -> bool {
        self.send_ended(max_burst_len, Attempt::Nothing) && self.was_full()
    }

    /// What is said by what a sender answers that wanted to send up to `max_burst_len` values: it
    /// sends no more than that, nor more than the channel can hold, and it sends nothing if that is
    /// what was wanted, or for want of room.
    pub open spec fn answers_send(self, max_burst_len: usize, r: Result<usize, Error>) -> bool {
        &&& max_burst_len == 0 ==> r == Ok::<usize, Error>(0)
        &&& r is Ok && r->Ok_0 == 0 && max_burst_len > 0 ==> self.full_to_senders(max_burst_len)
        &&& r is Ok ==> r->Ok_0 <= max_burst_len && r->Ok_0 <= self.terms().capacity - 1
    }

    /// Whether `w` is the reservation that a sender got that wanted up to `max_burst_len` slots and
    /// came to claim those of `claim`.
    pub open spec fn offered(self, max_burst_len: usize, claim: Claim, w: Write<T>) -> bool {
        &&& self.send_ended(max_burst_len, Attempt::Reserved(claim))
        &&& w.is_offer(max_burst_len as int, self.terms().capacity - 1)
        &&& w@.len() == claim.burst_len
        &&& w.front()@.len() == min(claim.burst_len as int, self.terms().capacity - claim.start)
    }

    /// Whether a sender has published what it left in the slots for `claim`.
    pub open spec fn published(self, claim: Claim, slots: Seq<Slot<T>>) -> bool {
        exists|
            ring: Ring<T>,
            after: Ring<T>,
            items: Vec<Slot<T>>,
            tries: u64,
            outcome: Finished<T>,
        |
            {
                &&& self.took(ring)
                &&& items@ == slots
                &&& #[trigger] call_ensures(
                    publish_step::<T>,
                    (ring, (claim, items), tries),
                    (after, outcome),
                )
                &&& outcome is Ok
                &&& self.put(after)
            }
    }

    /// Whether a sender with that many tries left could not publish what it left in the slots for
    /// `claim`.
    pub open spec fn refused_to_publish(
        self,
        claim: Claim,
        slots: Seq<Slot<T>>,
        tries: u64,
    ) -> bool {
        exists|ring: Ring<T>, after: Ring<T>, items: Vec<Slot<T>>, outcome: Finished<T>|
            {
                &&& self.took(ring)
                &&& items@ == slots
                &&& #[trigger] call_ensures(
                    publish_step::<T>,
                    (ring, (claim, items), tries),
                    (after, outcome),
                )
                &&& outcome is Err
                &&& self.put(after)
            }
    }

    /// Whether a sender has used up all its tries to publish what it left in the slots for `claim`,
    /// as many as a `u64` can count.
    pub open spec fn withheld(self, claim: Claim, slots: Seq<Slot<T>>) -> bool {
        forall|tries: u64| 0 < tries ==> #[trigger] self.refused_to_publish(claim, slots, tries)
    }

    /// Whether it is news to receivers that a burst was published.
    pub open spec fn bursts_are_news(self) -> bool {
        forall|claim: Claim, slots: Seq<Slot<T>>|
            #[trigger] self.published(claim, slots) ==> S::is_news(claim.burst_len)
    }

    /// Whether the attempt of a receiver that wants up to `max_burst_len` values has come to `end`,
    /// with `items`: it has seen the head word and the tail, each time leaving the ring as it was,
    /// and then taken the step that decides.
    pub open spec fn recv_ended(self, max_burst_len: usize, end: Attempt, items: Seq<T>) -> bool {
        &&& !(end is Again)
        &&& exists|
            seen: Ring<T>,
            later: Ring<T>,
            ring: Ring<T>,
            after: Ring<T>,
            look: (usize, usize, usize),
            taken: Vec<Slot<T>>,
        |
            {
                &&& #[trigger] self.took(seen)
                &&& look.0 == seen@.cons_head()
                &&& seen == ring || self.put(seen)
                &&& #[trigger] self.took(later)
                &&& look.1 == later@.prod_tail()
                &&& later == ring || self.put(later)
                &&& look.2 == max_burst_len
                &&& self.took(ring)
                &&& #[trigger] call_ensures(recv_step::<T>, (ring, look), (after, (end, taken)))
                &&& values(taken@) == items
                &&& self.put(after)
            }
    }

    /// Whether `items` were the next values at some time: of all the values that were ever sent
    /// through the channel, in the order in which they were sent, they follow on those that were
    /// received before.
    pub open spec fn had_next(self, items: Seq<T>) -> bool {
        exists|ring: Ring<T>|
            {
                let all = sent(ring.steps());
                let before = received(
                    RingState::<T>::fresh(ring@.capacity),
                    ring.steps(),
                ).len() as int;
                &&& #[trigger] self.took(ring)
                &&& before + items.len() <= all.len()
                &&& items == all.subrange(before, before + items.len())
            }
    }

    /// Whether every sender was gone at some time, with nothing left to receive.
    pub open spec fn ran_dry(self) -> bool {
        exists|ring: Ring<T>|
            #[trigger] self.took(ring) && ring@.senders_gone && ring@.queue.len() == 0
    }

    /// Whether there were no values at some time, with a sender there to send some.
    pub open spec fn was_empty(self) -> bool {
        exists|ring: Ring<T>|
            #[trigger] self.took(ring) && ring@.queue.len() == 0 && !ring@.senders_gone
    }

    /// Whether a receiver met a shutdown, with nothing left and for want of senders.
    pub open spec fn shut_to_receivers(self, max_burst_len: usize) -> bool {
        &&& self.recv_ended(max_burst_len, Attempt::Shutdown, Seq::empty())
        &&& self.ran_dry()
        &&& found_at(self.terms().senders, 0)
    }

    /// Whether a receiver found nothing, for want of values.
    pub open spec fn empty_to_receivers(self, max_burst_len: usize) -> bool {
        self.recv_ended(max_burst_len, Attempt::Nothing, Seq::empty()) && self.was_empty()
    }

    /// Whether `read` is the reservation that a receiver got that wanted up to `max_burst_len`
    /// values and came to claim the slots of `claim`: it has the values that came next.
    pub open spec fn handed(self, max_burst_len: usize, claim: Claim, read: Read<T>) -> bool {
        &&& self.recv_ended(max_burst_len, Attempt::Reserved(claim), read@)
        &&& self.had_next(read@)
        &&& read.is_offer(max_burst_len as int, self.terms().capacity - 1)
        &&& read@.len() == claim.burst_len
        &&& read.front()@.len() == min(claim.burst_len as int, self.terms().capacity - claim.start)
    }

    /// Whether a receiver has given the slots of `claim` back, with what was left in them.
    pub open spec fn released(self, claim: Claim, slots: Seq<Slot<T>>) -> bool {
        exists|
            ring: Ring<T>,
            after: Ring<T>,
            rest: Vec<Slot<T>>,
            tries: u64,
            outcome: Finished<T>,
        |
            {
                &&& self.took(ring)
                &&& rest@ == slots
                &&& #[trigger] call_ensures(
                    release_step::<T>,
                    (ring, (claim, rest), tries),
                    (after, outcome),
                )
                &&& outcome is Ok
                &&& self.put(after)
            }
    }

    /// Whether it is news to senders that slots were given back.
    pub open spec fn slots_are_space(self) -> bool {
        forall|claim: Claim, slots: Seq<Slot<T>>|
            #[trigger] self.released(claim, slots) ==> S::is_space(claim.burst_len)
    }

    /// Whether a receiver with that many tries left could not give the slots of `claim` back.
    pub open spec fn refused_to_release(
        self,
        claim: Claim,
        slots: Seq<Slot<T>>,
        tries: u64,
    ) -> bool {
        exists|ring: Ring<T>, after: Ring<T>, rest: Vec<Slot<T>>, outcome: Finished<T>|
            {
                &&& self.took(ring)
                &&& rest@ == slots
                &&& #[trigger] call_ensures(
                    release_step::<T>,
                    (ring, (claim, rest), tries),
                    (after, outcome),
                )
                &&& outcome is Err
                &&& self.put(after)
            }
    }

    /// Whether a receiver has used up all its tries to give the slots of `claim` back, as many as a
    /// `u64` can count.
    pub open spec fn retained(self, claim: Claim, slots: Seq<Slot<T>>) -> bool {
        forall|tries: u64| 0 < tries ==> #[trigger] self.refused_to_release(claim, slots, tries)
    }

    /// Whether the channel was made with one sender, one receiver and an empty ring.
    pub open spec fn is_new(self) -> bool {
        &&& counts_from_one(self.terms().senders)
        &&& counts_from_one(self.terms().receivers)
        &&& exists|ring: Ring<T>, terms: Ghost<Terms<T, S>>|
            {
                &&& ring@ == RingState::<T>::fresh(self.terms().capacity)
                &&& ring.steps().len() == 0
                &&& #[trigger] call_ensures(
                    RwLock::<Ring<T>, Terms<T, S>>::new,
                    (ring, terms),
                    self.lock,
                )
            }
    }
}

impl<T, S: Accord<T>> Shared<T, S> {
    /// Claims up to `max_burst_len` slots for `write_fn` to write, as many as are free, or none if
    /// there are none. What is free at the time depends on the other ends.
    pub fn reserve_send<F: FnOnce(Write<T>)>(&self, max_burst_len: usize, write_fn: F) -> (r: (
        Attempt,
        Result<Writer<F>, F>,
    ))
        requires
            max_burst_len > 0,
            S::may_send(max_burst_len),
            forall|w: Write<T>|
                w.is_offer(max_burst_len as int, self.channel().terms().capacity - 1)
                    ==> #[trigger] call_requires(write_fn, (w,)),
            forall|w: Write<T>|
                w.is_offer(max_burst_len as int, self.channel().terms().capacity - 1)
                    && #[trigger] call_ensures(write_fn, (w,), ()) ==> self.channel().accepts(
                    w,
                    match w.back() {
                        Some(back) => final(w.front())@ + final(back)@,
                        None => final(w.front())@,
                    },
                ),
        ensures
            self.channel().send_ended(max_burst_len, r.0),
            r.0 is Reserved <==> r.1 is Ok,
            r.1 is Ok ==> r.1->Ok_0.write_fn() == write_fn,
            r.1 is Err ==> r.1->Err_0 == write_fn,
            r.0 is Reserved ==> {
                &&& r.0->Reserved_0.is_on(self.channel().terms().capacity)
                &&& 0 < r.0->Reserved_0.burst_len <= max_burst_len
            },
    {
        let (first_head, first) = self.see_prod_head();
        let mut prod_head: usize = first_head;
        let ghost mut seen = first@;
        let mut waiting = write_fn;

        let backoff = Backoff::new();
        let mut patience: u64 = PATIENCE;
        while patience > 0
            invariant
                max_burst_len > 0,
                S::may_send(max_burst_len),
                forall|w: Write<T>|
                    w.is_offer(max_burst_len as int, self.channel().terms().capacity - 1)
                        ==> #[trigger] call_requires(write_fn, (w,)),
                    forall|w: Write<T>|
                    w.is_offer(max_burst_len as int, self.channel().terms().capacity - 1)
                        && #[trigger] call_ensures(write_fn, (w,), ()) ==> self.channel().accepts(
                        w,
                        match w.back() {
                            Some(back) => final(w.front())@ + final(back)@,
                            None => final(w.front())@,
                        },
                    ),
                waiting == write_fn,
                self.channel().took(seen),
                self.channel().put(seen),
                prod_head == seen@.prod_head(),
                word_index(prod_head) < self.channel().terms().capacity,
            decreases patience,
        {
            let (cons_tail, later) = self.see_cons_tail();
            let look: (usize, usize, usize) = (prod_head, cons_tail, max_burst_len);
            let (attempt, hand, visited) = self.claim_slots(look, waiting);
            proof {
                assert(self.channel().took(seen) && self.channel().took(later@));
                assert(call_ensures(send_step::<T>, (visited@.0, look), (visited@.1, attempt)));
            }
            match (attempt, hand) {
                (Attempt::Again { head }, Err(back)) => {
                    waiting = back;
                    prod_head = head;
                    proof {
                        seen = visited@.0;
                    }
                },
                (attempt, hand) => {
                    return (attempt, hand);
                },
            }
            backoff.spin();
            patience = patience - 1;
        }
        // Whoever loses its patience makes an attempt that nobody can disturb.
        self.claim_slots_at_once(max_burst_len, waiting)
    }

    /// Publishes the values that were written for `claim`, as soon as the claims before it are
    /// published. Tells whether it did: where this end loses its patience, they stay unpublished.
    pub fn finish_send(&self, claim: &Claim, written: Vec<Slot<T>>) -> (done: bool)
        requires
            claim.is_on(self.channel().terms().capacity),
            written@.len() == claim.burst_len,
            filled(written@),
            (self.channel().terms().rule)(values(written@)),
        ensures
            done ==> self.channel().published(*claim, written@),
            !done ==> self.channel().withheld(*claim, written@),
    {
        let mut items = written;
        let backoff = Backoff::new();
        let mut patience: u64 = PATIENCE;
        while patience > 0
            invariant
                claim.is_on(self.channel().terms().capacity),
                items@.len() == claim.burst_len,
                filled(items@),
                (self.channel().terms().rule)(values(items@)),
                items@ == written@,
                forall|tries: u64|
                    patience < tries ==> #[trigger] self.channel().refused_to_publish(
                        *claim,
                        written@,
                        tries,
                    ),
            decreases patience,
        {
            match self.publish(claim, items, patience) {
                Ok(()) => {
                    return true;
                },
                Err((back, left)) => {
                    items = back;
                    patience = left;
                },
            }
            backoff.snooze();
        }
        false
    }

    /// Claims up to `max_burst_len` values for `read_fn` to read, as many as there are, or none if
    /// there are none. What is there at the time depends on the other ends.
    pub fn reserve_recv<F: FnOnce(Read<T>)>(&self, max_burst_len: usize, read_fn: F) -> (r: (
        Attempt,
        Vec<Slot<T>>,
        Result<Reader<F>, F>,
    ))
        requires
            S::may_receive(max_burst_len),
            self.channel().is_heard_by(max_burst_len, read_fn),
        ensures
            self.channel().recv_ended(max_burst_len, r.0, values(r.1@)),
            r.0 is Reserved <==> r.2 is Ok,
            r.2 is Ok ==> r.2->Ok_0.read_fn() == read_fn,
            r.2 is Err ==> r.2->Err_0 == read_fn,
            r.0 is Reserved ==> {
                &&& r.0->Reserved_0.is_on(self.channel().terms().capacity)
                &&& r.0->Reserved_0.burst_len <= max_burst_len
                &&& 0 < max_burst_len ==> 0 < r.0->Reserved_0.burst_len
                &&& r.1@.len() == r.0->Reserved_0.burst_len
                &&& filled(r.1@)
                &&& self.channel().had_next(values(r.1@))
            },
            !(r.0 is Reserved) ==> values(r.1@) == Seq::<T>::empty(),
    {
        let (first_head, first) = self.see_cons_head();
        let mut cons_head: usize = first_head;
        let ghost mut seen = first@;
        let mut waiting = read_fn;

        let backoff = Backoff::new();
        let mut patience: u64 = PATIENCE;
        while patience > 0
            invariant
                S::may_receive(max_burst_len),
                self.channel().is_heard_by(max_burst_len, read_fn),
                waiting == read_fn,
                self.channel().took(seen),
                self.channel().put(seen),
                cons_head == seen@.cons_head(),
                word_index(cons_head) < self.channel().terms().capacity,
            decreases patience,
        {
            let (prod_tail, later) = self.see_prod_tail();
            let look: (usize, usize, usize) = (cons_head, prod_tail, max_burst_len);
            let (attempt, items, hand, visited) = self.claim_values(look, waiting);
            proof {
                let last = visited@.0;
                assert(self.channel().took(seen) && self.channel().took(later@));
                assert(call_ensures(recv_step::<T>, (last, look), (visited@.1, (attempt, items))));
                if let Attempt::Reserved(claim) = attempt {
                    lemma_next(self.channel(), last, claim.burst_len as int);
                    assert(values(items@) =~= last@.queue.take(claim.burst_len as int));
                }
            }
            match (attempt, hand) {
                (Attempt::Again { head }, Err(back)) => {
                    waiting = back;
                    cons_head = head;
                    proof {
                        seen = visited@.0;
                    }
                },
                (attempt, hand) => {
                    return (attempt, items, hand);
                },
            }
            backoff.spin();
            patience = patience - 1;
        }
        // Whoever loses its patience makes an attempt that nobody can disturb.
        let (attempt, items, hand, last) = self.claim_values_at_once(max_burst_len, waiting);
        proof {
            if let Attempt::Reserved(claim) = attempt {
                lemma_next(self.channel(), last@, claim.burst_len as int);
            }
        }
        (attempt, items, hand)
    }

    /// Gives the slots of `claim` back, with what was left in them, as soon as those of the claims
    /// before it are given back. Tells whether it did: where this end loses its patience, they stay
    /// claimed.
    pub fn finish_recv(&self, claim: &Claim, left: Vec<Slot<T>>) -> (done: bool)
        requires
            claim.is_on(self.channel().terms().capacity),
            was_heard::<T, S>(*claim),
        ensures
            done ==> self.channel().released(*claim, left@),
            !done ==> self.channel().retained(*claim, left@),
    {
        let mut rest = left;
        let backoff = Backoff::new();
        let mut patience: u64 = PATIENCE;
        while patience > 0
            invariant
                claim.is_on(self.channel().terms().capacity),
                was_heard::<T, S>(*claim),
                rest@ == left@,
                forall|tries: u64|
                    patience < tries ==> #[trigger] self.channel().refused_to_release(
                        *claim,
                        left@,
                        tries,
                    ),
            decreases patience,
        {
            match self.release(claim, rest, patience) {
                Ok(()) => {
                    return true;
                },
                Err((back, fewer)) => {
                    rest = back;
                    patience = fewer;
                },
            }
            backoff.snooze();
        }
        false
    }
}

/// The oldest values in a ring are the next ones to be received.
proof fn lemma_next<T, S: Accord<T>>(channel: Channel<T, S>, ring: Ring<T>, count: int)
    requires
        channel.took(ring),
        0 <= count <= ring@.queue.len(),
    ensures
        channel.had_next(ring@.queue.take(count)),
{
    rings_lose_nothing(ring);
    let all = sent(ring.steps());
    let before = received(RingState::<T>::fresh(ring@.capacity), ring.steps()).len() as int;
    assert(ring@.queue.take(count) =~= all.subrange(before, before + count));
}

}
