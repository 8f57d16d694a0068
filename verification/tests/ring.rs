use std::mem::ManuallyDrop;

use burstq::handle::Slot;
use burstq::plan::{front_len, plan_recv, plan_send, Attempt, Claim, Plan};
use burstq::ring::Ring;
use burstq::word::{
    index_of, is_shutdown, next_tag, pack, tag_of, with_shutdown, SEQ_MASK, SEQ_SHIFT,
    SHUTDOWN_FLAG,
};
use burstq::Error;

fn tag(n: usize) -> usize {
    n << SEQ_SHIFT
}

fn items(values: &[u32]) -> Vec<Slot<u32>> {
    values.iter().map(|v| Some(ManuallyDrop::new(*v))).collect()
}

fn plain(slots: Vec<Slot<u32>>) -> Vec<u32> {
    slots.into_iter().map(|s| ManuallyDrop::into_inner(s.unwrap())).collect()
}

fn plan_of_sender(ring: &Ring<u32>, max: usize) -> Plan {
    plan_send(ring.prod_head(), ring.cons_tail(), ring.capacity(), max)
}

fn plan_of_receiver(ring: &Ring<u32>, max: usize) -> Plan {
    plan_recv(ring.cons_head(), ring.prod_tail(), ring.capacity(), max)
}

fn send_claim(ring: &mut Ring<u32>, max: usize) -> Claim {
    match plan_of_sender(ring, max) {
        Plan::Claim(claim) => {
            assert_eq!(ring.claim_send(&claim), Ok(()));
            claim
        },
        plan => panic!("{:?}", plan),
    }
}

fn recv_claim(ring: &mut Ring<u32>, max: usize) -> (Claim, Vec<u32>) {
    match plan_of_receiver(ring, max) {
        Plan::Claim(claim) => (claim, plain(ring.claim_recv(&claim).unwrap())),
        plan => panic!("{:?}", plan),
    }
}

#[test]
fn head_words_have_three_parts() {
    assert_eq!(SHUTDOWN_FLAG, 0x8000_0000_0000_0000);
    assert_eq!(SEQ_MASK, 0x7FFF_8000_0000_0000);
    assert_eq!(SEQ_SHIFT, 47);
    let word = pack(12, tag(0xABCD), true);
    assert_eq!(word, 0x8000_0000_0000_0000 + (0xABCD << 47) + 12);
    assert_eq!(index_of(word), 12);
    assert_eq!(tag_of(word), tag(0xABCD));
    assert!(is_shutdown(word));
    assert!(!is_shutdown(pack(12, tag(0xFFFF), false)));
    assert_eq!(with_shutdown(pack(12, tag(3), false)), pack(12, tag(3), true));
    assert_eq!(with_shutdown(word), word);
}

#[test]
fn sequence_tags_count_round() {
    assert_eq!(next_tag(tag(0), 5), tag(5));
    assert_eq!(next_tag(tag(0xFFFF), 1), tag(0));
    assert_eq!(next_tag(tag(0xFFFF), 0x1_0003), tag(2));
    assert_eq!(next_tag(tag(1), 0x1_FFFF), tag(0));
    assert_eq!(next_tag(tag(7), usize::MAX), tag(6));
}

#[test]
fn senders_plan_by_what_is_free() {
    // Slots 20 to 24 and 0 to 8 are free.
    let plan = plan_send(20, 10, 25, 20);
    let claim = Claim { expected: 20, desired: 9 + tag(14), start: 20, next: 9, burst_len: 14 };
    assert_eq!(plan, Plan::Claim(claim));
    assert_eq!(front_len(&claim, 25), 5);

    assert_eq!(plan_send(20, 21, 25, 20), Plan::Blocked { expected: 20 });
    assert_eq!(plan_send(pack(20, tag(3), true), 10, 25, 20), Plan::Shutdown);
    assert_eq!(plan_send(pack(20, tag(3), true), 21, 25, 20), Plan::Shutdown);

    let word = pack(3, tag(0xFFFF), false);
    let claim = Claim { expected: word, desired: 5 + tag(1), start: 3, next: 5, burst_len: 2 };
    assert_eq!(plan_send(word, 3, 25, 2), Plan::Claim(claim));
    assert_eq!(front_len(&claim, 25), 2);
}

#[test]
fn receivers_plan_by_what_is_there() {
    let claim = Claim { expected: 20, desired: tag(5), start: 20, next: 0, burst_len: 5 };
    assert_eq!(plan_recv(20, 9, 25, 5), Plan::Claim(claim));
    assert_eq!(front_len(&claim, 25), 5);

    let claim = Claim { expected: 20, desired: 9 + tag(14), start: 20, next: 9, burst_len: 14 };
    assert_eq!(plan_recv(20, 9, 25, 50), Plan::Claim(claim));

    assert_eq!(plan_recv(20, 20, 25, 5), Plan::Blocked { expected: 20 });
    let gone = pack(20, tag(0), true);
    assert_eq!(plan_recv(gone, 20, 25, 5), Plan::Shutdown);
    // What is still there comes out first, and the flag stays.
    let claim = Claim { expected: gone, desired: pack(21, tag(1), true), start: 20, next: 21, burst_len: 1 };
    assert_eq!(plan_recv(gone, 22, 25, 1), Plan::Claim(claim));
}

#[test]
fn an_empty_claim_has_no_second_part() {
    match plan_recv(20, 9, 25, 0) {
        Plan::Claim(claim) => {
            assert_eq!(claim.burst_len, 0);
            assert_eq!(claim.next, 20);
            assert_eq!(front_len(&claim, 25), 0);
        },
        plan => panic!("{:?}", plan),
    }
}

#[test]
fn senders_finish_in_the_order_of_their_claims() {
    let mut ring: Ring<u32> = Ring::new(8);
    let first = send_claim(&mut ring, 2);
    let second = send_claim(&mut ring, 3);
    let mut a = items(&[1, 2]);
    let mut b = items(&[3, 4, 5]);

    assert!(!ring.publish(&second, &mut b));
    assert_eq!(plan_of_receiver(&ring, 9), Plan::Blocked { expected: 0 });
    assert!(ring.publish(&first, &mut a));
    assert_eq!(recv_claim(&mut ring, 9).1, [1, 2]);
    assert!(ring.publish(&second, &mut b));
    assert_eq!(recv_claim(&mut ring, 9).1, [3, 4, 5]);
}

#[test]
fn receivers_finish_in_the_order_of_their_claims() {
    let mut ring: Ring<u32> = Ring::new(6);
    let claim = send_claim(&mut ring, 9);
    assert_eq!(claim.burst_len, 5);
    assert!(ring.publish(&claim, &mut items(&[1, 2, 3, 4, 5])));

    let (first, one) = recv_claim(&mut ring, 2);
    let (second, two) = recv_claim(&mut ring, 9);
    assert_eq!(one, [1, 2]);
    assert_eq!(two, [3, 4, 5]);
    assert!(!ring.release(&second));
    assert_eq!(plan_of_sender(&ring, 9), Plan::Blocked { expected: ring.prod_head() });
    assert!(ring.release(&first));
    assert_eq!(send_claim(&mut ring, 9).burst_len, 2);
    assert!(ring.release(&second));
    assert_eq!(send_claim(&mut ring, 9).burst_len, 3);
}

#[test]
fn a_claim_fails_once_the_head_moved() {
    let mut ring: Ring<u32> = Ring::new(8);
    let stale = match plan_of_sender(&ring, 2) {
        Plan::Claim(claim) => claim,
        plan => panic!("{:?}", plan),
    };
    let claim = send_claim(&mut ring, 3);
    assert_eq!(ring.claim_send(&stale), Err(claim.desired));
    assert_eq!(ring.confirm_send(stale.expected), Err(claim.desired));

    assert!(ring.publish(&claim, &mut items(&[1, 2, 3])));
    let stale = match plan_of_receiver(&ring, 2) {
        Plan::Claim(claim) => claim,
        plan => panic!("{:?}", plan),
    };
    let (claim, _) = recv_claim(&mut ring, 1);
    assert_eq!(ring.claim_recv(&stale).err(), Some(claim.desired));
    assert_eq!(ring.confirm_recv(stale.expected), Err(claim.desired));
}

#[test]
fn a_full_and_an_empty_ring_are_confirmed() {
    let mut ring: Ring<u32> = Ring::new(3);
    let (prod_head, cons_head) = (ring.prod_head(), ring.cons_head());
    assert_eq!(ring.confirm_send(prod_head), Err(prod_head));
    assert_eq!(ring.confirm_recv(cons_head), Ok(()));
    assert_eq!(ring.confirm_recv(cons_head + 1), Err(cons_head));
    let claim = send_claim(&mut ring, 2);
    assert_eq!(ring.confirm_send(prod_head), Err(claim.desired));
    assert_eq!(ring.confirm_send(claim.desired), Ok(()));
    assert!(ring.publish(&claim, &mut items(&[1, 2])));
    assert_eq!(ring.confirm_recv(cons_head), Err(cons_head));
}

#[test]
fn a_head_that_came_round_is_told_by_its_tag() {
    let mut ring: Ring<u32> = Ring::new(4);
    let seen = ring.prod_head();
    for i in 0..4u32 {
        assert_eq!(ring.try_send(1, |mut w| w.write_at(0, i)), Ok(1));
        assert_eq!(ring.try_recv(1, |r| assert_eq!(*r.get(0), i)), Ok(1));
    }
    assert_eq!(index_of(ring.prod_head()), index_of(seen));
    assert_eq!(ring.prod_head(), seen + tag(4));
}

#[test]
fn a_plan_keeps_while_only_receivers_move() {
    let mut ring: Ring<u32> = Ring::new(4);
    assert_eq!(ring.try_send(3, |w| w.write_slice(&[1, 2, 3])), Ok(3));
    assert_eq!(ring.try_recv(1, |_| {}), Ok(1));
    let plan = match plan_of_sender(&ring, 3) {
        Plan::Claim(claim) => claim,
        plan => panic!("{:?}", plan),
    };
    assert_eq!(plan.burst_len, 1);
    assert_eq!(ring.try_recv(2, |_| {}), Ok(2));
    assert_eq!(ring.claim_send(&plan), Ok(()));
}

#[test]
fn sides_that_are_gone_are_noted() {
    let mut ring: Ring<u32> = Ring::new(4);
    ring.note_counts(2, 1);
    assert!(!is_shutdown(ring.prod_head()));
    assert!(!is_shutdown(ring.cons_head()));
    ring.note_counts(0, 1);
    assert!(!is_shutdown(ring.prod_head()));
    assert!(is_shutdown(ring.cons_head()));
    ring.note_counts(1, 0);
    assert!(is_shutdown(ring.prod_head()));
    assert!(is_shutdown(ring.cons_head()));
}

#[test]
fn bursts_on_a_ring_of_ones_own() {
    let mut ring: Ring<u32> = Ring::new(5);
    assert_eq!(ring.try_recv(3, |_| unreachable!()), Ok(0));
    assert_eq!(ring.try_send(0, |_| unreachable!()), Ok(0));
    assert_eq!(ring.try_send(3, |w| w.write_slice(&[1, 2, 3])), Ok(3));
    assert_eq!(ring.try_send(3, |w| w.write_slice(&[4])), Ok(1));
    assert_eq!(ring.try_send(3, |_| unreachable!()), Ok(0));
    let mut got = Vec::new();
    assert_eq!(ring.try_recv(3, |r| got.extend(r)), Ok(3));
    assert_eq!(ring.try_send(3, |w| w.write_slice(&[5, 6, 7])), Ok(3));
    ring.close_senders();
    assert_eq!(ring.try_recv(9, |r| got.extend(r)), Ok(4));
    assert_eq!(got, [1, 2, 3, 4, 5, 6, 7]);
    assert_eq!(ring.try_recv(9, |_| unreachable!()), Err(Error::Shutdown));
    ring.close_receivers();
    assert_eq!(ring.try_send(3, |_| unreachable!()), Err(Error::Shutdown));
    assert_eq!(ring.try_send(0, |_| unreachable!()), Ok(0));
}

#[test]
fn attempts_on_the_ring_as_it_is_are_decided() {
    let mut ring: Ring<u32> = Ring::new(4);
    let (head, tail) = (ring.prod_head(), ring.cons_tail());
    let claim = match ring.attempt_send(head, tail, 9) {
        Attempt::Reserved(claim) => claim,
        attempt => panic!("{:?}", attempt),
    };
    assert_eq!(claim, Claim { expected: 0, desired: 3 + tag(3), start: 0, next: 3, burst_len: 3 });
    let (head, tail) = (ring.prod_head(), ring.cons_tail());
    assert_eq!(ring.attempt_send(head, tail, 9), Attempt::Nothing);

    let (head, tail) = (ring.cons_head(), ring.prod_tail());
    assert_eq!(ring.attempt_recv(head, tail, 9).0, Attempt::Nothing);
    assert!(ring.publish(&claim, &mut items(&[1, 2, 3])));
    let (head, tail) = (ring.cons_head(), ring.prod_tail());
    let (attempt, taken) = ring.attempt_recv(head, tail, 2);
    let claim = Claim { expected: 0, desired: 2 + tag(2), start: 0, next: 2, burst_len: 2 };
    assert_eq!(attempt, Attempt::Reserved(claim));
    assert_eq!(plain(taken), [1, 2]);

    ring.close_senders();
    ring.close_receivers();
    let (head, tail) = (ring.prod_head(), ring.cons_tail());
    assert_eq!(ring.attempt_send(head, tail, 9), Attempt::Shutdown);
    let (head, tail) = (ring.cons_head(), ring.prod_tail());
    let (attempt, taken) = ring.attempt_recv(head, tail, 2);
    assert!(matches!(attempt, Attempt::Reserved(_)));
    assert_eq!(plain(taken), [3]);
    let (head, tail) = (ring.cons_head(), ring.prod_tail());
    assert_eq!(ring.attempt_recv(head, tail, 2).0, Attempt::Shutdown);
}

#[test]
fn attempts_are_made_again_once_another_came_first() {
    let mut ring: Ring<u32> = Ring::new(4);
    let (head, tail) = (ring.prod_head(), ring.cons_tail());
    let claim = send_claim(&mut ring, 1);
    assert_eq!(ring.attempt_send(head, tail, 1), Attempt::Again { head: claim.desired });
    assert!(ring.publish(&claim, &mut items(&[7])));

    let (head, tail) = (ring.cons_head(), ring.prod_tail());
    let (claim, _) = recv_claim(&mut ring, 1);
    let (attempt, taken) = ring.attempt_recv(head, tail, 1);
    assert_eq!(attempt, Attempt::Again { head: claim.desired });
    assert!(taken.is_empty());
    // A head that looked empty is confirmed before it is believed.
    let (attempt, _) = ring.attempt_recv(head, 0, 1);
    assert_eq!(attempt, Attempt::Again { head: claim.desired });
}
