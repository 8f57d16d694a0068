use std::mem::ManuallyDrop;

use burstq::handle::Slot;
use burstq::model::answer;
use burstq::plan::{Attempt, Claim};
use burstq::ring::Ring;
use burstq::step::{publish_step, recv_step, release_step, send_step};
use burstq::Error;

fn slots(values: &[u32]) -> Vec<Slot<u32>> {
    values.iter().map(|v| Some(ManuallyDrop::new(*v))).collect()
}

fn plain(slots: Vec<Slot<u32>>) -> Vec<u32> {
    slots.into_iter().map(|s| ManuallyDrop::into_inner(s.unwrap())).collect()
}

fn claim_for_writing(ring: Ring<u32>, max: usize) -> (Ring<u32>, Claim) {
    let look = (ring.prod_head(), ring.cons_tail(), max);
    match send_step(ring, look) {
        (ring, Attempt::Reserved(claim)) => (ring, claim),
        (_, end) => panic!("{:?}", end),
    }
}

fn claim_for_reading(ring: Ring<u32>, max: usize) -> (Ring<u32>, Claim, Vec<u32>) {
    let look = (ring.cons_head(), ring.prod_tail(), max);
    match recv_step(ring, look) {
        (ring, (Attempt::Reserved(claim), taken)) => (ring, claim, plain(taken)),
        (_, (end, _)) => panic!("{:?}", end),
    }
}

#[test]
fn bursts_are_published_in_the_order_of_their_claims() {
    let (ring, first) = claim_for_writing(Ring::new(6), 2);
    let (ring, second) = claim_for_writing(ring, 9);
    assert_eq!((first.burst_len, second.burst_len), (2, 3));
    let (ring, outcome) = publish_step(ring, (second, slots(&[3, 4, 5])), 9);
    let (back, tries) = outcome.unwrap_err();
    assert_eq!((&back, tries), (&slots(&[3, 4, 5]), 8));
    let (ring, outcome) = publish_step(ring, (first, slots(&[1, 2])), 9);
    assert_eq!(outcome, Ok(()));
    let (ring, outcome) = publish_step(ring, (second, back), tries);
    assert_eq!(outcome, Ok(()));

    let (ring, first, taken) = claim_for_reading(ring, 3);
    assert_eq!(taken, [1, 2, 3]);
    let (ring, second, taken) = claim_for_reading(ring, 3);
    assert_eq!(taken, [4, 5]);
    let (ring, outcome) = release_step(ring, (second, slots(&[5])), 1);
    assert_eq!(outcome, Err((slots(&[5]), 0)));
    let (ring, outcome) = release_step(ring, (first, Vec::new()), 1);
    assert_eq!(outcome, Ok(()));
    let (ring, outcome) = release_step(ring, (second, slots(&[5])), 1);
    assert_eq!(outcome, Ok(()));
    assert_eq!(ring.cons_tail(), 5);
}

#[test]
fn steps_tell_why_nothing_was_claimed() {
    let ring: Ring<u32> = Ring::new(3);
    let stale = ring.prod_head();
    let (ring, _) = claim_for_writing(ring, 1);
    let head = ring.prod_head();
    let tail = ring.cons_tail();
    let (ring, end) = send_step(ring, (stale, tail, 1));
    assert_eq!(end, Attempt::Again { head });
    let (ring, _) = claim_for_writing(ring, 1);
    let look = (ring.prod_head(), ring.cons_tail(), 1);
    let (ring, end) = send_step(ring, look);
    assert_eq!(end, Attempt::Nothing);
    let look = (ring.cons_head(), ring.prod_tail(), 1);
    let (mut ring, (end, taken)) = recv_step(ring, look);
    assert_eq!((end, taken), (Attempt::Nothing, Vec::new()));
    ring.note_counts(0, 0);
    let look = (ring.prod_head(), ring.cons_tail(), 1);
    let (ring, end) = send_step(ring, look);
    assert_eq!(end, Attempt::Shutdown);
    let look = (ring.cons_head(), ring.prod_tail(), 1);
    let (_, (end, taken)) = recv_step(ring, look);
    assert_eq!((end, taken), (Attempt::Shutdown, Vec::new()));
}

#[test]
fn every_end_of_an_attempt_has_its_answer() {
    assert_eq!(answer(&Attempt::Shutdown), Err(Error::Shutdown));
    assert_eq!(answer(&Attempt::Nothing), Ok(0));
    let (_, claim) = claim_for_writing(Ring::new(6), 4);
    assert_eq!(answer(&Attempt::Reserved(claim)), Ok(4));
}

#[test]
fn what_was_sent_is_seen_before_the_shutdown() {
    let ring: Ring<u32> = Ring::new(4);
    // The tail is seen while the ring is empty, the head once the senders are gone.
    let tail = ring.prod_tail();
    let (ring, claim) = claim_for_writing(ring, 2);
    let (mut ring, outcome) = publish_step(ring, (claim, slots(&[1, 2])), 1);
    assert_eq!(outcome, Ok(()));
    ring.note_counts(0, 1);
    let head = ring.cons_head();
    let (ring, (end, _)) = recv_step(ring, (head, tail, 9));
    assert_eq!(end, Attempt::Again { head });
    let (ring, _, taken) = claim_for_reading(ring, 9);
    assert_eq!(taken, [1, 2]);
    let look = (ring.cons_head(), ring.prod_tail(), 9);
    assert_eq!(recv_step(ring, look).1.0, Attempt::Shutdown);
}

#[test]
fn a_ring_is_full_or_empty_only_as_it_stands() {
    let (ring, claim) = claim_for_writing(Ring::new(3), 2);
    let empty = (ring.cons_head(), ring.prod_tail(), 1);
    let full = (ring.prod_head(), ring.cons_tail(), 1);
    let (ring, _) = publish_step(ring, (claim, slots(&[1, 2])), 1);
    let (ring, (end, _)) = recv_step(ring, empty);
    assert_eq!(end, Attempt::Again { head: empty.0 });
    let (ring, claim, _) = claim_for_reading(ring, 1);
    let (ring, end) = send_step(ring, full);
    assert_eq!(end, Attempt::Nothing);
    let (ring, _) = release_step(ring, (claim, Vec::new()), 1);
    let (_, end) = send_step(ring, full);
    assert_eq!(end, Attempt::Again { head: full.0 });
}
