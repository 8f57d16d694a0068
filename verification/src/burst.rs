//! Whole bursts: writing one, and sending or receiving one on a ring that nobody else uses.

use vstd::prelude::*;

use crate::error::Error;
use crate::handle::{blank, filled, values, Read, Slot, Write};
use crate::laws::{receive_takes_what_is_there, send_takes_what_fits};
use crate::model::{answer, recv_result, send_result, RingState};
use crate::plan::{
    claim_at, front_len, lemma_ring, min, plans_are_on_the_ring, ring_step, Attempt, Claim,
};
use crate::ring::Ring;
use crate::word::word_round_trip;

verus! {

/// A claim on a ring where no other sender has one starts at the senders' tail.
proof fn lemma_first_claim<T>(s: RingState<T>, count: int)
    requires
        s.valid(),
        s.writing == 0,
        0 <= count <= s.free(),
    ensures
        ({
            let claim = claim_at(s.prod_head(), count, s.capacity);
            &&& claim.start < s.capacity
            &&& claim.start == s.prod_tail()
            &&& claim.start == s.claim_send(count).prod_tail()
            &&& claim.next == ring_step(claim.start as int, count, s.capacity)
            &&& claim.burst_len == count
            &&& count < s.capacity
        }),
{
    lemma_ring(s.capacity);
    word_round_trip(0, s.slot(s.used()), s.prod_seq, s.receivers_gone);
}

/// A claim on a ring where no other receiver has one starts at the receivers' tail.
proof fn lemma_first_take<T>(s: RingState<T>, count: int)
    requires
        s.valid(),
        s.reading == 0,
        0 <= count <= s.queue.len(),
    ensures
        ({
            let claim = claim_at(s.cons_head(), count, s.capacity);
            &&& claim.start < s.capacity
            &&& claim.start == s.cons_tail()
            &&& claim.next == ring_step(claim.start as int, count, s.capacity)
            &&& claim.burst_len == count
            &&& count < s.capacity
        }),
{
    lemma_ring(s.capacity);
    word_round_trip(0, s.slot(s.reading), s.cons_seq, s.senders_gone);
}

/// Has `write_fn` write the values for `claim`, which was made on a ring of `capacity` slots.
pub(crate) fn write_burst<T, F: FnOnce(Write<T>)>(
    claim: &Claim,
    capacity: usize,
    write_fn: F,
) -> (items: Vec<Slot<T>>)
    requires
        claim.is_on(capacity as int),
        0 < claim.burst_len,
        forall|w: Write<T>|
            w.is_offer(claim.burst_len as int, capacity - 1) && w@.len() == claim.burst_len
                ==> #[trigger] call_requires(write_fn, (w,)),
        forall|w: Write<T>|
            w.is_offer(claim.burst_len as int, capacity - 1) && w@.len() == claim.burst_len
                && #[trigger] call_ensures(write_fn, (w,), ()) ==> w.may_be_left_as(
                match w.back() {
                    Some(back) => final(w.front())@ + final(back)@,
                    None => final(w.front())@,
                },
            ),
    ensures
        items@.len() == claim.burst_len,
        filled(items@),
        exists|w: Write<T>|
            {
                &&& w.is_offer(claim.burst_len as int, capacity - 1)
                &&& w@.len() == claim.burst_len
                &&& w.front()@.len() == min(claim.burst_len as int, capacity - claim.start)
                &&& #[trigger] call_ensures(write_fn, (w,), ())
                &&& items@ == match w.back() {
                    Some(back) => final(w.front())@ + final(back)@,
                    None => final(w.front())@,
                }
            },
{
    let mut items: Vec<Slot<T>> = Vec::with_capacity(claim.burst_len);
    while items.len() < claim.burst_len
        invariant
            items@.len() <= claim.burst_len,
            blank(items@),
        decreases claim.burst_len - items@.len(),
    {
        items.push(None);
    }
    let front: usize = front_len(claim, capacity);
    let write = Write::new(items.as_mut_slice(), front);
    let ghost offer = write;
    assert(offer.is_offer(claim.burst_len as int, capacity - 1));
    write_fn(write);
    assert(call_ensures(write_fn, (offer,), ()));
    items
}

/// Has `read_fn` read the values that `claim`, which was made on a ring of `capacity` slots, took
/// out of the ring, and gives what it left.
pub(crate) fn read_burst<T, F: FnOnce(Read<T>)>(
    claim: &Claim,
    capacity: usize,
    items: Vec<Slot<T>>,
    read_fn: F,
) -> (rest: Vec<Slot<T>>)
    requires
        claim.is_on(capacity as int),
        items@.len() == claim.burst_len,
        filled(items@),
        forall|read: Read<T>|
            read.is_offer(claim.burst_len as int, capacity - 1) && read@ == values(items@)
                ==> #[trigger] call_requires(read_fn, (read,)),
    ensures
        exists|read: Read<T>|
            {
                &&& read.is_offer(claim.burst_len as int, capacity - 1)
                &&& read@ == values(items@)
                &&& read.front()@.len() == min(claim.burst_len as int, capacity - claim.start)
                &&& #[trigger] call_ensures(read_fn, (read,), ())
                &&& rest@ == match read.back() {
                    Some(back) => final(read.front())@ + final(back)@,
                    None => final(read.front())@,
                }
            },
{
    let mut items = items;
    let front: usize = front_len(claim, capacity);
    let read = Read::new(items.as_mut_slice(), front);
    let ghost offer = read;
    assert(offer.is_offer(claim.burst_len as int, capacity - 1));
    read_fn(read);
    assert(call_ensures(read_fn, (offer,), ()));
    items
}

impl<T> Ring<T> {
    /// Send up to `max_burst_len` values into a ring that nobody else writes to: all that a sender
    /// does, with no step of another sender in between.
    pub fn try_send<F: FnOnce(Write<T>)>(&mut self, max_burst_len: usize, write_fn: F) -> (r:
        Result<usize, Error>)
        requires
            old(self).wf(),
            old(self)@.writing == 0,
            forall|w: Write<T>|
                w.is_offer(max_burst_len as int, old(self)@.capacity - 1) && Ok::<usize, Error>(
                    w@.len() as usize,
                ) == send_result(old(self)@, max_burst_len as int) ==> #[trigger] call_requires(
                    write_fn,
                    (w,),
                ),
            forall|w: Write<T>|
                w.is_offer(max_burst_len as int, old(self)@.capacity - 1) && Ok::<usize, Error>(
                    w@.len() as usize,
                ) == send_result(old(self)@, max_burst_len as int) && #[trigger] call_ensures(
                    write_fn,
                    (w,),
                    (),
                ) ==> w.may_be_left_as(
                    match w.back() {
                        Some(back) => final(w.front())@ + final(back)@,
                        None => final(w.front())@,
                    },
                ),
        ensures
            final(self).wf(),
            r == send_result(old(self)@, max_burst_len as int),
            r is Err || r->Ok_0 == 0 ==> final(self)@ == old(self)@,
            r is Ok && r->Ok_0 > 0 ==> exists|w: Write<T>|
                {
                    &&& w.is_offer(max_burst_len as int, old(self)@.capacity - 1)
                    &&& w@.len() == r->Ok_0
                    &&& #[trigger] call_ensures(write_fn, (w,), ())
                    &&& final(self)@ == old(self)@.send(
                        values(
                            match w.back() {
                                Some(back) => final(w.front())@ + final(back)@,
                                None => final(w.front())@,
                            },
                        ),
                    )
                },
    {
        if max_burst_len == 0 {
            return Ok(0);
        }
        let capacity: usize = self.capacity();
        let prod_head: usize = self.prod_head();
        let cons_tail: usize = self.cons_tail();
        proof {
            self.is_reached();
            send_takes_what_fits(self@, max_burst_len as int);
            plans_are_on_the_ring(prod_head, cons_tail as int, self@.capacity, max_burst_len as int);
            if self@.free() > 0 {
                lemma_first_claim(self@, min(max_burst_len as int, self@.free()));
            }
        }
        let end: Attempt = self.attempt_send(prod_head, cons_tail, max_burst_len);
        if let Attempt::Reserved(claim) = end {
            let mut items = write_burst(&claim, capacity, write_fn);
            let _ = self.publish(&claim, &mut items);
        }
        answer(&end)
    }

    /// Receive up to `max_burst_len` values from a ring that nobody else reads from: all that a
    /// receiver does, with no step of another receiver in between.
    pub fn try_recv<F: FnOnce(Read<T>)>(&mut self, max_burst_len: usize, read_fn: F) -> (r: Result<
        usize,
        Error,
    >)
        requires
            old(self).wf(),
            old(self)@.reading == 0,
            forall|read: Read<T>|
                read.is_offer(max_burst_len as int, old(self)@.capacity - 1) && read@ == old(
                    self,
                )@.queue.take(min(max_burst_len as int, old(self)@.queue.len() as int))
                    ==> #[trigger] call_requires(read_fn, (read,)),
        ensures
            final(self).wf(),
            r == recv_result(old(self)@, max_burst_len as int),
            r is Err || old(self)@.queue.len() == 0 ==> final(self)@ == old(self)@,
            r is Ok && old(self)@.queue.len() > 0 ==> {
                &&& final(self)@ == old(self)@.recv(r->Ok_0 as int)
                &&& exists|read: Read<T>|
                    {
                        &&& read.is_offer(max_burst_len as int, old(self)@.capacity - 1)
                        &&& read@ == old(self)@.queue.take(r->Ok_0 as int)
                        &&& #[trigger] call_ensures(read_fn, (read,), ())
                    }
            },
    {
        let capacity: usize = self.capacity();
        let cons_head: usize = self.cons_head();
        let prod_tail: usize = self.prod_tail();
        proof {
            self.is_reached();
            receive_takes_what_is_there(self@, max_burst_len as int);
            plans_are_on_the_ring(cons_head, prod_tail as int, self@.capacity, max_burst_len as int);
            lemma_first_take(self@, min(max_burst_len as int, self@.queue.len() as int));
        }
        let (end, items) = self.attempt_recv(cons_head, prod_tail, max_burst_len);
        if let Attempt::Reserved(claim) = end {
            assert(values(items@) =~= old(self)@.queue.take(claim.burst_len as int));
            let _ = read_burst(&claim, capacity, items, read_fn);
            let _ = self.release(&claim);
        }
        answer(&end)
    }
}

}
