use std::mem::ManuallyDrop;
use std::sync::Arc;

use burstq::handle::{maybe_uninit_write_slice, Slot};
use burstq::{mpmc, Read};

/// Moves the ring on by `n` slots, so that the next burst starts there.
fn move_on(tx: &burstq::Sender<u32>, rx: &burstq::Receiver<u32>, n: usize) {
    let fill = vec![0u32; n];
    assert_eq!(tx.try_send(n, |w| w.write_slice(&fill)), Ok(n));
    assert_eq!(rx.try_recv(n, |_| {}), Ok(n));
}

fn all(r: Read<u32>) -> Vec<u32> {
    r.into_iter().collect()
}

#[test]
fn lengths_count_both_parts_of_a_reservation() {
    let (tx, rx) = mpmc::<u32>(5);
    move_on(&tx, &rx, 4);

    // Six slots, the burst starts at the fifth one and wraps round.
    let n = tx.try_send(9, |w| {
        assert_eq!(w.len(), 5);
        w.write_slice(&[1, 2, 3, 4, 5]);
    });
    assert_eq!(n, Ok(5));
    let n = rx.try_recv(9, |r| {
        assert_eq!(r.len(), 5);
        assert_eq!(*r.get(0), 1);
        assert_eq!(*r.get(1), 2);
        assert_eq!(*r.get(2), 3);
        assert_eq!(*r.get(4), 5);
    });
    assert_eq!(n, Ok(5));
}

#[test]
fn write_at_reaches_both_parts() {
    let (tx, rx) = mpmc::<u32>(5);
    move_on(&tx, &rx, 4);

    let n = tx.try_send(4, |mut w| {
        w.write_at(3, 13);
        w.write_at(0, 10);
        w.write_at(2, 12);
        w.write_at(1, 11);
    });
    assert_eq!(n, Ok(4));
    assert_eq!(rx.try_recv(9, |r| assert_eq!(all(r), [10, 11, 12, 13])), Ok(4));
}

#[test]
fn write_at_past_an_unsplit_reservation_is_ignored() {
    let (tx, rx) = mpmc::<u32>(5);
    let n = tx.try_send(2, |mut w| {
        w.write_at(0, 7);
        w.write_at(1, 8);
        w.write_at(2, 9);
    });
    assert_eq!(n, Ok(2));
    assert_eq!(rx.try_recv(9, |r| assert_eq!(all(r), [7, 8])), Ok(2));
}

#[test]
fn read_to_ptr_fills_the_start_of_an_array() {
    let (tx, rx) = mpmc::<u32>(5);
    move_on(&tx, &rx, 4);
    assert_eq!(tx.try_send(3, |w| w.write_slice(&[1, 2, 3])), Ok(3));
    let mut dst = [9u32; 5];
    assert_eq!(rx.try_recv(3, |r| r.read_to_ptr(&mut dst)), Ok(3));
    assert_eq!(dst, [1, 2, 3, 9, 9]);
}

#[test]
fn an_iterator_ends_and_stays_ended() {
    let (tx, rx) = mpmc::<u32>(5);
    assert_eq!(tx.try_send(2, |w| w.write_slice(&[1, 2])), Ok(2));
    let n = rx.try_recv(2, |r| {
        let mut iter = r.into_iter();
        assert_eq!(iter.next(), Some(1));
        assert_eq!(iter.next(), Some(2));
        assert_eq!(iter.next(), None);
        assert_eq!(iter.next(), None);
    });
    assert_eq!(n, Ok(2));
}

#[test]
fn slots_are_filled_from_a_slice() {
    let mut slots: Vec<Slot<u32>> = vec![None, None, Some(ManuallyDrop::new(7))];
    let written = maybe_uninit_write_slice(&mut slots, &[4, 5, 6]);
    assert_eq!(written.len(), 3);
    let values: Vec<u32> = slots.into_iter().map(|s| ManuallyDrop::into_inner(s.unwrap())).collect();
    assert_eq!(values, [4, 5, 6]);
}

#[test]
fn values_that_are_taken_are_owned() {
    let (tx, rx) = mpmc::<Arc<u32>>(4);
    let value = Arc::new(5);
    let n = tx.try_send(1, |mut w| w.write_at(0, value.clone()));
    assert_eq!(n, Ok(1));
    assert_eq!(Arc::strong_count(&value), 2);
    assert_eq!(rx.try_recv(1, |r| assert_eq!(r.into_iter().count(), 1)), Ok(1));
    assert_eq!(Arc::strong_count(&value), 1);
}

#[test]
fn values_that_are_not_taken_are_leaked() {
    let (tx, rx) = mpmc::<Arc<u32>>(4);
    let value = Arc::new(5);
    let n = tx.try_send(1, |mut w| w.write_at(0, value.clone()));
    assert_eq!(n, Ok(1));
    assert_eq!(rx.try_recv(1, |r| assert_eq!(**r.get(0), 5)), Ok(1));
    assert_eq!(Arc::strong_count(&value), 2);
}

#[test]
fn values_that_are_never_received_are_leaked() {
    let (tx, rx) = mpmc::<Arc<u32>>(4);
    let value = Arc::new(5);
    let n = tx.try_send(1, |mut w| w.write_at(0, value.clone()));
    assert_eq!(n, Ok(1));
    drop(tx);
    drop(rx);
    assert_eq!(Arc::strong_count(&value), 2);
}

#[test]
fn read_to_ptr_does_not_drop_what_it_overwrites() {
    let (tx, rx) = mpmc::<Arc<u32>>(4);
    let (old, new) = (Arc::new(1), Arc::new(2));
    assert_eq!(tx.try_send(1, |mut w| w.write_at(0, new.clone())), Ok(1));
    let mut dst = vec![old.clone(), old.clone()];
    assert_eq!(rx.try_recv(1, |r| r.read_to_ptr(&mut dst)), Ok(1));
    assert_eq!(dst, [new.clone(), old.clone()]);
    drop(dst);
    assert_eq!(Arc::strong_count(&new), 1);
    assert_eq!(Arc::strong_count(&old), 2);
}

#[test]
fn places_in_any_order_are_as_good_as_a_slice() {
    let items = [5u32, 6, 7, 8];
    for start in 0..7 {
        for order in [[0usize, 1, 2, 3], [3, 2, 1, 0], [2, 0, 3, 1]] {
            let (tx, rx) = mpmc::<u32>(6);
            move_on(&tx, &rx, start);
            assert_eq!(tx.try_send(4, |w| w.write_slice(&items)), Ok(4));
            assert_eq!(rx.try_recv(4, |r| assert_eq!(all(r), items)), Ok(4));

            let (tx, rx) = mpmc::<u32>(6);
            move_on(&tx, &rx, start);
            let n = tx.try_send(4, |mut w| {
                for i in order {
                    w.write_at(i, items[i]);
                }
            });
            assert_eq!(n, Ok(4));
            assert_eq!(rx.try_recv(4, |r| assert_eq!(all(r), items)), Ok(4));
        }
    }
}
