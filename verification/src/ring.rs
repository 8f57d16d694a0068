//! The ring buffer itself, with the steps that senders and receivers take on it.

use vstd::prelude::*;

use crate::handle::{blank, filled, holds, values, Slot};
use crate::model::{can_run, noting, recv_attempt, run, send_attempt, RingState, Step};
use crate::plan::{
    lemma_ring, plan_recv, plan_send, plans_are_on_the_ring, ring_distance, ring_step, Attempt, Claim,
    Plan,
};
use crate::word::{
    index_limit, index_of, seq_after, with_shutdown, word_index, word_round_trip, word_seq,
    word_shutdown,
};

verus! {

/// The positions of one end of the ring: `head` is the word from which slots are claimed, `tail`
/// the index up to which claims are finished.
struct Slinky {
    head: usize,
    tail: usize,
}

/// A bounded ring of slots. It keeps account, for the proofs alone, of all the steps that were
/// ever taken on it.
pub struct Ring<T> {
    capacity: usize,
    prod: Slinky,
    cons: Slinky,
    slots: Vec<Slot<T>>,
    steps: Ghost<Seq<Step<T>>>,
}

impl<T> Ring<T> {
    /// The state that the ring is in.
    pub closed spec fn view(&self) -> RingState<T> {
        let capacity = self.capacity as int;
        let cons_head = word_index(self.cons.head);
        RingState {
            capacity,
            start: self.cons.tail as int,
            reading: ring_distance(self.cons.tail as int, cons_head, capacity),
            queue: Seq::new(
                ring_distance(cons_head, self.prod.tail as int, capacity) as nat,
                |i: int| self.slots@[ring_step(cons_head, i, capacity)]->0@,
            ),
            writing: ring_distance(self.prod.tail as int, word_index(self.prod.head), capacity),
            prod_seq: word_seq(self.prod.head),
            cons_seq: word_seq(self.cons.head),
            senders_gone: word_shutdown(self.cons.head),
            receivers_gone: word_shutdown(self.prod.head),
        }
    }

    /// The steps that were taken on the ring.
    pub closed spec fn steps(&self) -> Seq<Step<T>> {
        self.steps@
    }

    /// The slots bear out the state, and the state is what the steps have made of a fresh ring.
    pub closed spec fn wf(&self) -> bool {
        &&& self.bears_out()
        &&& can_run(RingState::<T>::fresh(self@.capacity), self.steps@)
        &&& run(RingState::<T>::fresh(self@.capacity), self.steps@) == self@
    }

    /// The four positions lie in order round the ring, and exactly the published slots hold a
    /// value.
    spec fn bears_out(&self) -> bool {
        &&& self@.valid()
        &&& self.slots@.len() == self.capacity
        &&& self.prod.tail < self.capacity
        &&& word_index(self.prod.head) < self.capacity
        &&& word_index(self.cons.head) < self.capacity
        &&& forall|i: int|
            0 <= i < self.capacity ==> (#[trigger] self.slots@[i] is Some <==> ring_distance(
                word_index(self.cons.head),
                i,
                self.capacity as int,
            ) < self@.queue.len())
    }

    /// The state of a well-formed ring is within its bounds, and is reached from a fresh ring by
    /// steps each of which was allowed when it was taken.
    pub proof fn is_reached(&self)
        requires
            self.wf(),
        ensures
            self@.valid(),
            can_run(RingState::<T>::fresh(self@.capacity), self.steps()),
            run(RingState::<T>::fresh(self@.capacity), self.steps()) == self@,
    {
    }

    /// Taking one more step, and keeping account of it, leaves a ring well-formed.
    proof fn lemma_one_more(&self, before: Self, step: Step<T>)
        requires
            before.wf(),
            step.enabled(before@),
            self@ == step.apply(before@),
            self.bears_out(),
            self.steps@ == before.steps@.push(step),
        ensures
            self.wf(),
    {
        assert(before.steps@.push(step).drop_last() =~= before.steps@);
        assert(before.steps@.push(step).last() == step);
    }

    /// A ring of `capacity` empty slots.
    pub fn new(capacity: usize) -> (ring: Self)
        requires
            0 < capacity <= index_limit(),
        ensures
            ring.wf(),
            ring@ == RingState::<T>::fresh(capacity as int),
            ring.steps() == Seq::<Step<T>>::empty(),
    {
        let mut slots: Vec<Slot<T>> = Vec::with_capacity(capacity);
        while slots.len() < capacity
            invariant
                slots@.len() <= capacity,
                blank(slots@),
            decreases capacity - slots@.len(),
        {
            slots.push(None);
        }
        let ring = Ring {
            capacity,
            prod: Slinky { head: 0, tail: 0 },
            cons: Slinky { head: 0, tail: 0 },
            slots,
            steps: Ghost(Seq::empty()),
        };
        proof {
            lemma_ring(capacity as int);
            assert(ring@.queue =~= Seq::empty());
        }
        ring
    }

    /// The words and tails of a well-formed ring are those of its state.
    proof fn lemma_words(&self)
        requires
            self.wf(),
        ensures
            self.prod.head == self@.prod_head(),
            self.prod.tail == self@.prod_tail(),
            self.cons.head == self@.cons_head(),
            self.cons.tail == self@.cons_tail(),
            word_index(self.prod.head) == self@.slot(self@.used()),
            word_index(self.cons.head) == self@.slot(self@.reading),
    {
        lemma_ring(self.capacity as int);
        word_round_trip(self.prod.head, 0, 0, false);
        word_round_trip(self.cons.head, 0, 0, false);
    }

    /// The number of slots.
    pub fn capacity(&self) -> (n: usize)
        requires
            self.wf(),
        ensures
            n == self@.capacity,
            0 < n <= index_limit(),
    {
        self.capacity
    }

    /// The senders' head word.
    pub fn prod_head(&self) -> (word: usize)
        requires
            self.wf(),
        ensures
            word == self@.prod_head(),
            word_index(word) < self@.capacity,
    {
        proof {
            self.lemma_words();
        }
        self.prod.head
    }

    /// The senders' tail.
    pub fn prod_tail(&self) -> (tail: usize)
        requires
            self.wf(),
        ensures
            tail == self@.prod_tail(),
            tail < self@.capacity,
    {
        proof {
            self.lemma_words();
        }
        self.prod.tail
    }

    /// The receivers' head word.
    pub fn cons_head(&self) -> (word: usize)
        requires
            self.wf(),
        ensures
            word == self@.cons_head(),
            word_index(word) < self@.capacity,
    {
        proof {
            self.lemma_words();
        }
        self.cons.head
    }

    /// The receivers' tail.
    pub fn cons_tail(&self) -> (tail: usize)
        requires
            self.wf(),
        ensures
            tail == self@.cons_tail(),
            tail < self@.capacity,
    {
        proof {
            self.lemma_words();
        }
        self.cons.tail
    }

    /// The slots from `from` up to `to`.
    fn distance(&self, from: usize, to: usize) -> (n: usize)
        requires
            from < self.capacity,
            to < self.capacity,
        ensures
            n == ring_distance(from as int, to as int, self.capacity as int),
    {
        proof {
            lemma_ring(self.capacity as int);
        }
        if to >= from {
            to - from
        } else {
            self.capacity - from + to
        }
    }

    /// Exchanges the senders' head word for the one that `claim` wants, provided that it still is
    /// the one that `claim` expects and that there is room. Gives the present head word otherwise.
    #[verifier::rlimit(50)]
    pub fn claim_send(&mut self, claim: &Claim) -> (r: Result<(), usize>)
        requires
            old(self).wf(),
            claim.is_on(old(self)@.capacity),
        ensures
            final(self).wf(),
            r is Ok <==> old(self)@.prod_head() == claim.expected && claim.burst_len <= old(
                self,
            )@.free(),
            r is Ok ==> final(self)@ == old(self)@.claim_send(claim.burst_len as int)
                && final(self).steps() == old(self).steps().push(
                Step::ClaimSend(claim.burst_len as int),
            ),
            r is Err ==> *final(self) == *old(self) && r->Err_0 == old(self)@.prod_head() && word_index(
                r->Err_0,
            ) < old(self)@.capacity,
    {
        proof {
            self.lemma_words();
            word_round_trip(claim.expected, 0, 0, false);
            lemma_ring(self.capacity as int);
        }
        let used: usize = self.distance(self.cons.tail, index_of(self.prod.head));
        if self.prod.head != claim.expected || claim.burst_len > self.capacity - 1 - used {
            return Err(self.prod.head);
        }
        let ghost before = *self;
        proof {
            word_round_trip(
                0,
                ring_step(word_index(self.prod.head), claim.burst_len as int, self.capacity as int),
                seq_after(word_seq(self.prod.head), claim.burst_len as int),
                word_shutdown(self.prod.head),
            );
        }
        self.prod.head = claim.desired;
        let ghost step = Step::<T>::ClaimSend(claim.burst_len as int);
        self.steps = Ghost(self.steps@.push(step));
        proof {
            assert(self@.queue =~= before@.queue);
            self.lemma_one_more(before, step);
        }
        Ok(())
    }

    /// Checks that the senders' head word still is `expected` and that no slot is free, and gives
    /// the present head word otherwise.
    pub fn confirm_send(&self, expected: usize) -> (r: Result<(), usize>)
        requires
            self.wf(),
        ensures
            r is Ok <==> self@.prod_head() == expected && self@.free() == 0,
            r is Err ==> r->Err_0 == self@.prod_head() && word_index(r->Err_0) < self@.capacity,
    {
        proof {
            self.lemma_words();
            lemma_ring(self.capacity as int);
        }
        let word: usize = self.prod_head();
        let used: usize = self.distance(self.cons.tail, index_of(word));
        if word == expected && used == self.capacity - 1 {
            Ok(())
        } else {
            Err(word)
        }
    }

    /// Checks that the receivers' head word still is `expected` and that there are no values, and
    /// gives the present head word otherwise.
    pub fn confirm_recv(&self, expected: usize) -> (r: Result<(), usize>)
        requires
            self.wf(),
        ensures
            r is Ok <==> self@.cons_head() == expected && self@.queue.len() == 0,
            r is Err ==> r->Err_0 == self@.cons_head() && word_index(r->Err_0) < self@.capacity,
    {
        proof {
            self.lemma_words();
            lemma_ring(self.capacity as int);
        }
        let word: usize = self.cons_head();
        let ready: usize = self.distance(index_of(word), self.prod.tail);
        if word == expected && ready == 0 {
            Ok(())
        } else {
            Err(word)
        }
    }

    /// The slot `offset` slots after `start`.
    fn step(&self, start: usize, offset: usize) -> (i: usize)
        requires
            start < self.capacity,
            offset <= self.capacity,
        ensures
            i == ring_step(start as int, offset as int, self.capacity as int),
    {
        proof {
            lemma_ring(self.capacity as int);
        }
        if offset < self.capacity - start {
            start + offset
        } else {
            offset - (self.capacity - start)
        }
    }

    /// Moves the values that were written for `claim` into the ring and marks the claim as
    /// finished, once every earlier claim of a sender is. Tells whether it was.
    #[verifier::rlimit(50)]
    pub fn publish(&mut self, claim: &Claim, items: &mut Vec<Slot<T>>) -> (done: bool)
        requires
            old(self).wf(),
            claim.is_on(old(self)@.capacity),
            old(items)@.len() == claim.burst_len,
            filled(old(items)@),
        ensures
            final(self).wf(),
            done <==> old(self)@.prod_tail() == claim.start && claim.burst_len <= old(
                self,
            )@.writing,
            done ==> {
                &&& final(self)@ == old(self)@.publish(values(old(items)@))
                &&& final(self).steps() == old(self).steps().push(
                    Step::Publish(values(old(items)@)),
                )
                &&& blank(final(items)@)
            },
            !done ==> *final(self) == *old(self) && final(items)@ == old(items)@,
            final(items)@.len() == old(items)@.len(),
    {
        proof {
            self.lemma_words();
            word_round_trip(claim.expected, 0, 0, false);
            lemma_ring(self.capacity as int);
        }
        let writing: usize = self.distance(self.prod.tail, index_of(self.prod.head));
        if self.prod.tail != claim.start || claim.burst_len > writing {
            return false;
        }
        let ghost before = *self;
        let ghost all = items@;
        let mut n: usize = 0;
        while n < claim.burst_len
            invariant
                n <= claim.burst_len,
                all.len() == claim.burst_len == items@.len(),
                filled(all),
                claim.start < self.capacity,
                claim.burst_len < self.capacity,
                self.slots@.len() == self.capacity,
                self.capacity == before.capacity,
                self.prod == before.prod,
                self.cons == before.cons,
                self.steps == before.steps,
                before.slots@.len() == before.capacity,
                forall|i: int| 0 <= i < n ==> #[trigger] items@[i] is None,
                forall|i: int| n <= i < items@.len() ==> #[trigger] items@[i] == all[i],
                forall|i: int|
                    0 <= i < self.capacity ==> #[trigger] self.slots@[i] == (if ring_distance(
                        claim.start as int,
                        i,
                        self.capacity as int,
                    ) < n {
                        all[ring_distance(claim.start as int, i, self.capacity as int)]
                    } else {
                        before.slots@[i]
                    }),
            decreases claim.burst_len - n,
        {
            proof {
                lemma_ring(self.capacity as int);
            }
            let i: usize = self.step(claim.start, n);
            self.slots[i] = items[n].take();
            n = n + 1;
        }
        self.prod.tail = claim.next;
        let ghost step = Step::Publish(values(all));
        self.steps = Ghost(self.steps@.push(step));
        proof {
            lemma_ring(self.capacity as int);
            assert(self@.queue =~= before@.queue + values(all));
            self.lemma_one_more(before, step);
        }
        true
    }

    /// Exchanges the receivers' head word for the one that `claim` wants, provided that it still is
    /// the one that `claim` expects and that there are as many values, and takes the claimed
    /// values out of the ring. Gives the present head word otherwise.
    #[verifier::rlimit(50)]
    pub fn claim_recv(&mut self, claim: &Claim) -> (r: Result<Vec<Slot<T>>, usize>)
        requires
            old(self).wf(),
            claim.is_on(old(self)@.capacity),
        ensures
            final(self).wf(),
            r is Ok <==> old(self)@.cons_head() == claim.expected && claim.burst_len <= old(
                self,
            )@.queue.len(),
            r is Ok ==> {
                &&& final(self)@ == old(self)@.claim_recv(claim.burst_len as int)
                &&& final(self).steps() == old(self).steps().push(
                    Step::ClaimRecv(claim.burst_len as int),
                )
                &&& holds(r->Ok_0@, old(self)@.queue.take(claim.burst_len as int))
            },
            r is Err ==> *final(self) == *old(self) && r->Err_0 == old(self)@.cons_head() && word_index(
                r->Err_0,
            ) < old(self)@.capacity,
    {
        proof {
            self.lemma_words();
            word_round_trip(claim.expected, 0, 0, false);
            lemma_ring(self.capacity as int);
        }
        let ready: usize = self.distance(index_of(self.cons.head), self.prod.tail);
        if self.cons.head != claim.expected || claim.burst_len > ready {
            return Err(self.cons.head);
        }
        let ghost before = *self;
        let ghost queue = self@.queue;
        let mut items: Vec<Slot<T>> = Vec::with_capacity(claim.burst_len);
        while items.len() < claim.burst_len
            invariant
                items@.len() <= claim.burst_len,
                claim.start < self.capacity,
                claim.burst_len < self.capacity,
                self.slots@.len() == self.capacity,
                self.capacity == before.capacity,
                self.prod == before.prod,
                self.cons == before.cons,
                self.steps == before.steps,
                before.slots@.len() == before.capacity,
                forall|i: int|
                    0 <= i < items@.len() ==> #[trigger] items@[i] == before.slots@[ring_step(
                        claim.start as int,
                        i,
                        self.capacity as int,
                    )],
                forall|i: int|
                    0 <= i < self.capacity ==> #[trigger] self.slots@[i] == (if ring_distance(
                        claim.start as int,
                        i,
                        self.capacity as int,
                    ) < items@.len() {
                        None
                    } else {
                        before.slots@[i]
                    }),
            decreases claim.burst_len - items@.len(),
        {
            proof {
                lemma_ring(self.capacity as int);
            }
            let i: usize = self.step(claim.start, items.len());
            items.push(self.slots[i].take());
        }
        proof {
            lemma_ring(self.capacity as int);
            word_round_trip(
                0,
                ring_step(word_index(self.cons.head), claim.burst_len as int, self.capacity as int),
                seq_after(word_seq(self.cons.head), claim.burst_len as int),
                word_shutdown(self.cons.head),
            );
        }
        self.cons.head = claim.desired;
        let ghost step = Step::<T>::ClaimRecv(claim.burst_len as int);
        self.steps = Ghost(self.steps@.push(step));
        proof {
            assert(holds(items@, queue.take(claim.burst_len as int))) by {
                assert forall|i: int| 0 <= i < items@.len() implies #[trigger] items@[i] is Some
                    && items@[i]->0@ == queue[i] by {
                    let k = ring_step(claim.start as int, i, self.capacity as int);
                    assert(before.slots@[k] is Some);
                }
            }
            assert(self@.queue =~= queue.skip(claim.burst_len as int));
            assert(self.bears_out());
            self.lemma_one_more(before, step);
        }
        Ok(items)
    }

    /// Marks `claim` of a receiver as finished, once every earlier claim of a receiver is. Tells
    /// whether it was.
    pub fn release(&mut self, claim: &Claim) -> (done: bool)
        requires
            old(self).wf(),
            claim.is_on(old(self)@.capacity),
        ensures
            final(self).wf(),
            done <==> old(self)@.cons_tail() == claim.start && claim.burst_len <= old(
                self,
            )@.reading,
            done ==> {
                &&& final(self)@ == old(self)@.release(claim.burst_len as int)
                &&& final(self).steps() == old(self).steps().push(
                    Step::Release(*claim),
                )
            },
            !done ==> *final(self) == *old(self),
    {
        proof {
            self.lemma_words();
            word_round_trip(claim.expected, 0, 0, false);
            lemma_ring(self.capacity as int);
        }
        let reading: usize = self.distance(self.cons.tail, index_of(self.cons.head));
        if self.cons.tail != claim.start || claim.burst_len > reading {
            return false;
        }
        let ghost before = *self;
        self.cons.tail = claim.next;
        let ghost step = Step::<T>::Release(*claim);
        self.steps = Ghost(self.steps@.push(step));
        proof {
            assert(self@.queue =~= before@.queue);
            self.lemma_one_more(before, step);
        }
        true
    }

    /// Attempts to claim up to `max_burst_len` slots for a sender that has seen the head word
    /// `prod_head` and the tail `cons_tail`.
    pub fn attempt_send(
        &mut self,
        prod_head: usize,
        cons_tail: usize,
        max_burst_len: usize,
    ) -> (attempt: Attempt)
        requires
            old(self).wf(),
            word_index(prod_head) < old(self)@.capacity,
            cons_tail < old(self)@.capacity,
        ensures
            final(self).wf(),
            attempt == send_attempt(
                old(self)@,
                prod_head,
                cons_tail as int,
                max_burst_len as int,
            ),
            attempt is Reserved ==> final(self)@ == old(self)@.claim_send(
                attempt->Reserved_0.burst_len as int,
            ) && final(self).steps() == old(self).steps().push(
                Step::ClaimSend(attempt->Reserved_0.burst_len as int),
            ),
            !(attempt is Reserved) ==> *final(self) == *old(self),
            attempt is Again ==> word_index(attempt->head) < old(self)@.capacity,
    {
        match plan_send(prod_head, cons_tail, self.capacity, max_burst_len) {
            Plan::Shutdown => Attempt::Shutdown,
            Plan::Blocked { expected } => {
                // Look once more, to be sure that there really is no space.
                match self.confirm_send(expected) {
                    Ok(()) => Attempt::Nothing,
                    Err(head) => Attempt::Again { head },
                }
            },
            Plan::Claim(claim) => {
                proof {
                    plans_are_on_the_ring(prod_head, cons_tail as int, self@.capacity, max_burst_len as int);
                }
                match self.claim_send(&claim) {
                    Ok(()) => Attempt::Reserved(claim),
                    Err(head) => Attempt::Again { head },
                }
            },
        }
    }

    /// Attempts to claim up to `max_burst_len` values for a receiver that has seen the head word
    /// `cons_head` and the tail `prod_tail`, and takes the claimed values out of the ring.
    pub fn attempt_recv(
        &mut self,
        cons_head: usize,
        prod_tail: usize,
        max_burst_len: usize,
    ) -> (r: (Attempt, Vec<Slot<T>>))
        requires
            old(self).wf(),
            word_index(cons_head) < old(self)@.capacity,
            prod_tail < old(self)@.capacity,
        ensures
            final(self).wf(),
            r.0 == recv_attempt(old(self)@, cons_head, prod_tail as int, max_burst_len as int),
            r.0 is Reserved ==> {
                let count = r.0->Reserved_0.burst_len as int;
                &&& final(self)@ == old(self)@.claim_recv(count)
                &&& final(self).steps() == old(self).steps().push(Step::ClaimRecv(count))
                &&& holds(r.1@, old(self)@.queue.take(count))
            },
            !(r.0 is Reserved) ==> *final(self) == *old(self) && r.1@.len() == 0,
            r.0 is Again ==> word_index(r.0->head) < old(self)@.capacity,
    {
        match plan_recv(cons_head, prod_tail, self.capacity, max_burst_len) {
            Plan::Shutdown => {
                // What was sent before the senders went is seen before the shutdown is.
                match self.confirm_recv(cons_head) {
                    Ok(()) => (Attempt::Shutdown, Vec::new()),
                    Err(head) => (Attempt::Again { head }, Vec::new()),
                }
            },
            Plan::Blocked { expected } => {
                // Look once more, to be sure that there really is nothing to read.
                match self.confirm_recv(expected) {
                    Ok(()) => (Attempt::Nothing, Vec::new()),
                    Err(head) => (Attempt::Again { head }, Vec::new()),
                }
            },
            Plan::Claim(claim) => {
                proof {
                    plans_are_on_the_ring(cons_head, prod_tail as int, self@.capacity, max_burst_len as int);
                }
                match self.claim_recv(&claim) {
                    Ok(items) => (Attempt::Reserved(claim), items),
                    Err(head) => (Attempt::Again { head }, Vec::new()),
                }
            },
        }
    }

    /// Notes that every sender is gone.
    pub fn close_senders(&mut self)
        requires
            old(self).wf(),
        ensures
            final(self).wf(),
            final(self)@ == old(self)@.close_senders(),
            final(self).steps() == old(self).steps().push(Step::CloseSenders),
    {
        let ghost before = *self;
        self.cons.head = with_shutdown(self.cons.head);
        self.steps = Ghost(self.steps@.push(Step::CloseSenders));
        proof {
            assert(self@.queue =~= before@.queue);
            self.lemma_one_more(before, Step::CloseSenders);
        }
    }

    /// Notes that every receiver is gone.
    pub fn close_receivers(&mut self)
        requires
            old(self).wf(),
        ensures
            final(self).wf(),
            final(self)@ == old(self)@.close_receivers(),
            final(self).steps() == old(self).steps().push(Step::CloseReceivers),
    {
        let ghost before = *self;
        self.prod.head = with_shutdown(self.prod.head);
        self.steps = Ghost(self.steps@.push(Step::CloseReceivers));
        proof {
            assert(self@.queue =~= before@.queue);
            self.lemma_one_more(before, Step::CloseReceivers);
        }
    }

    /// Takes note of how many senders and receivers there are: a side of which none is left is
    /// gone for good.
    pub fn note_counts(&mut self, sender_count: usize, receiver_count: usize)
        requires
            old(self).wf(),
        ensures
            final(self).wf(),
            final(self)@ == old(self)@.noted(sender_count as int, receiver_count as int),
            final(self).steps() == old(self).steps() + noting(
                sender_count as int,
                receiver_count as int,
            ),
    {
        if sender_count == 0 {
            self.close_senders();
        }
        if receiver_count == 0 {
            self.close_receivers();
        }
    }
}

}
