//! The steps that the ends of a channel take on its ring, each as a function from the ring to the
//! ring that it leaves.

use vstd::prelude::*;

use crate::handle::{filled, holds, values, Slot};
use crate::model::{recv_attempt, send_attempt, Step};
use crate::plan::{Attempt, Claim};
use crate::ring::Ring;
use crate::word::word_index;

verus! {

/// A sender that has seen the head word `look.0` and the tail `look.1` attempts to claim up to
/// `look.2` slots.
pub fn send_step<T>(ring: Ring<T>, look: (usize, usize, usize)) -> (r: (Ring<T>, Attempt))
    requires
        ring.wf(),
        word_index(look.0) < ring@.capacity,
        look.1 < ring@.capacity,
    ensures
        r.0.wf(),
        r.1 == send_attempt(ring@, look.0, look.1 as int, look.2 as int),
        r.1 is Reserved ==> {
            let count = r.1->Reserved_0.burst_len as int;
            &&& r.0@ == ring@.claim_send(count)
            &&& r.0.steps() == ring.steps().push(Step::ClaimSend(count))
        },
        !(r.1 is Reserved) ==> r.0 == ring,
        r.1 is Again ==> word_index(r.1->head) < ring@.capacity,
{
    let mut ring = ring;
    let attempt: Attempt = ring.attempt_send(look.0, look.1, look.2);
    (ring, attempt)
}

/// How an attempt to finish a claim ends: where it cannot be finished yet, whoever made the attempt
/// gets the slots back, with the number of tries that are left.
pub type Finished<T> = Result<(), (Vec<Slot<T>>, u64)>;

/// A sender that has `tries` left attempts to publish what it has written for its claim. It cannot
/// where an earlier claim of a sender is not published yet.
pub fn publish_step<T>(ring: Ring<T>, burst: (Claim, Vec<Slot<T>>), tries: u64) -> (r: (
    Ring<T>,
    Finished<T>,
))
    requires
        ring.wf(),
        burst.0.is_on(ring@.capacity),
        burst.1@.len() == burst.0.burst_len,
        filled(burst.1@),
        0 < tries,
    ensures
        r.0.wf(),
        r.1 is Ok <==> ring@.prod_tail() == burst.0.start && burst.0.burst_len <= ring@.writing,
        r.1 is Ok ==> {
            &&& r.0@ == ring@.publish(values(burst.1@))
            &&& r.0.steps() == ring.steps().push(Step::Publish(values(burst.1@)))
        },
        r.1 is Err ==> {
            &&& r.0 == ring
            &&& r.1->Err_0.0@ == burst.1@
            &&& r.1->Err_0.1 == tries - 1
        },
{
    let mut ring = ring;
    let (claim, mut items) = burst;
    if ring.publish(&claim, &mut items) {
        (ring, Ok(()))
    } else {
        (ring, Err((items, tries - 1)))
    }
}

/// A receiver that has seen the head word `look.0` and the tail `look.1` attempts to claim up to
/// `look.2` values, and gets those that it claims.
pub fn recv_step<T>(ring: Ring<T>, look: (usize, usize, usize)) -> (r: (
    Ring<T>,
    (Attempt, Vec<Slot<T>>),
))
    requires
        ring.wf(),
        word_index(look.0) < ring@.capacity,
        look.1 < ring@.capacity,
    ensures
        r.0.wf(),
        r.1.0 == recv_attempt(ring@, look.0, look.1 as int, look.2 as int),
        r.1.0 is Reserved ==> {
            let count = r.1.0->Reserved_0.burst_len as int;
            &&& r.0@ == ring@.claim_recv(count)
            &&& r.0.steps() == ring.steps().push(Step::ClaimRecv(count))
            &&& holds(r.1.1@, ring@.queue.take(count))
        },
        !(r.1.0 is Reserved) ==> r.0 == ring && r.1.1@.len() == 0,
        r.1.0 is Again ==> word_index(r.1.0->head) < ring@.capacity,
{
    let mut ring = ring;
    let outcome = ring.attempt_recv(look.0, look.1, look.2);
    (ring, outcome)
}

/// A receiver that has `tries` left attempts to give the slots of its claim back, with what was left
/// in them, which is forgotten. It cannot where an earlier claim of a receiver is not given back yet.
pub fn release_step<T>(ring: Ring<T>, rest: (Claim, Vec<Slot<T>>), tries: u64) -> (r: (
    Ring<T>,
    Finished<T>,
))
    requires
        ring.wf(),
        rest.0.is_on(ring@.capacity),
        0 < tries,
    ensures
        r.0.wf(),
        r.1 is Ok <==> ring@.cons_tail() == rest.0.start && rest.0.burst_len <= ring@.reading,
        r.1 is Ok ==> {
            &&& r.0@ == ring@.release(rest.0.burst_len as int)
            &&& r.0.steps() == ring.steps().push(Step::Release(rest.0))
        },
        r.1 is Err ==> {
            &&& r.0 == ring
            &&& r.1->Err_0.0@ == rest.1@
            &&& r.1->Err_0.1 == tries - 1
        },
{
    let mut ring = ring;
    let (claim, slots) = rest;
    if ring.release(&claim) {
        (ring, Ok(()))
    } else {
        (ring, Err((slots, tries - 1)))
    }
}

}
