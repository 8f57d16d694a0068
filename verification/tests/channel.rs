use burstq::{mpmc, send_settled, settled, Error, Receiver, Sender};

fn take(rx: &Receiver<u32>, max: usize) -> Vec<u32> {
    let mut taken = Vec::new();
    rx.try_recv(max, |r| taken.extend(r)).unwrap();
    taken
}

fn put(tx: &Sender<u32>, items: &[u32]) -> usize {
    tx.try_send(items.len(), |w| {
        let n = w.len();
        w.write_slice(&items[..n]);
    })
    .unwrap()
}

#[test]
fn ten_values_pass_through_room_for_five() {
    let (tx, rx) = mpmc::<u32>(5);
    let payload: Vec<u32> = (0..10).collect();
    let mut next = 0;
    let mut received = Vec::new();
    while received.len() < 10 {
        if next < 10 {
            next += put(&tx, &payload[next..]);
        }
        received.extend(take(&rx, 3));
    }
    assert_eq!(received, payload);
    assert_eq!((0..10).sum::<u32>(), received.iter().sum());
}

#[test]
fn every_burst_length_comes_back_in_order() {
    let (tx, rx) = mpmc::<u32>(7);
    let mut sent = 0u32;
    let mut got = 0u32;
    for round in 0..1000usize {
        let want = 1 + round % 9;
        let items: Vec<u32> = (sent..sent + want as u32).collect();
        let free = 7 - (sent - got) as usize;
        let n = put(&tx, &items);
        assert_eq!(n, want.min(free));
        sent += n as u32;
        let max = 1 + round % 5;
        let there = (sent - got) as usize;
        let taken = take(&rx, max);
        assert_eq!(taken, (got..got + max.min(there) as u32).collect::<Vec<u32>>());
        got += taken.len() as u32;
    }
}

#[test]
fn a_full_queue_takes_nothing_and_leaves_the_closure() {
    let (tx, rx) = mpmc::<u32>(2);
    assert_eq!(put(&tx, &[1, 2, 3]), 2);
    assert_eq!(tx.try_send(1, |_| unreachable!()), Ok(0));
    assert_eq!(tx.try_send_quiet(1, |_| unreachable!()), Ok(0));
    let mut write_fn = Some(|w: burstq::Write<u32>| w.write_slice(&[9]));
    assert_eq!(tx.try_send_inner(1, &mut write_fn), Ok(0));
    assert!(write_fn.is_some());
    assert_eq!(take(&rx, 1), [1]);
    assert_eq!(tx.try_send_inner(1, &mut write_fn), Ok(1));
    assert!(write_fn.is_none());
    assert_eq!(take(&rx, 9), [2, 9]);
}

#[test]
fn an_empty_queue_gives_nothing() {
    let (_tx, rx) = mpmc::<u32>(2);
    assert_eq!(rx.try_recv(1, |_| unreachable!()), Ok(0));
    assert_eq!(rx.try_recv_quiet(1, |_| unreachable!()), Ok(0));
}

#[test]
fn nothing_is_asked_and_nothing_is_sent() {
    let (tx, rx) = mpmc::<u32>(2);
    assert_eq!(tx.try_send(0, |_| unreachable!()), Ok(0));
    drop(rx);
    assert_eq!(tx.try_send(0, |_| unreachable!()), Ok(0));
    assert_eq!(tx.try_send(1, |_| unreachable!()), Err(Error::Shutdown));
}

#[test]
fn nothing_is_asked_and_nothing_is_received() {
    let (tx, rx) = mpmc::<u32>(2);
    assert_eq!(rx.try_recv(0, |_| unreachable!()), Ok(0));
    assert_eq!(put(&tx, &[1]), 1);
    assert_eq!(rx.try_recv(0, |r| assert_eq!(r.len(), 0)), Ok(0));
    assert_eq!(take(&rx, 1), [1]);
    assert_eq!(put(&tx, &[2]), 1);
    assert_eq!(rx.try_recv(0, |r| assert_eq!(r.len(), 0)), Ok(0));
    assert_eq!(take(&rx, 1), [2]);
}

#[test]
fn a_queue_for_no_values_is_always_full() {
    let (tx, rx) = mpmc::<u32>(0);
    assert_eq!(tx.try_send(3, |_| unreachable!()), Ok(0));
    assert_eq!(rx.try_recv(3, |_| unreachable!()), Ok(0));
    drop(tx);
    assert_eq!(rx.try_recv(3, |_| unreachable!()), Err(Error::Shutdown));
}

#[test]
fn values_sent_before_the_senders_went_are_received() {
    let (tx, rx) = mpmc::<u32>(4);
    let tx2 = tx.clone();
    assert_eq!(put(&tx, &[1, 2]), 2);
    drop(tx);
    assert_eq!(put(&tx2, &[3]), 1);
    drop(tx2);
    assert_eq!(take(&rx, 2), [1, 2]);
    assert_eq!(take(&rx, 2), [3]);
    assert_eq!(rx.try_recv(2, |_| unreachable!()), Err(Error::Shutdown));
    assert_eq!(rx.try_recv_quiet(2, |_| unreachable!()), Err(Error::Shutdown));
}

#[test]
fn nothing_is_sent_once_the_receivers_went() {
    let (tx, rx) = mpmc::<u32>(4);
    assert_eq!(put(&tx, &[1]), 1);
    let rx2 = rx.clone();
    drop(rx2);
    assert_eq!(put(&tx, &[2]), 1);
    drop(rx);
    assert_eq!(tx.try_send_quiet(1, |_| unreachable!()), Err(Error::Shutdown));
    let mut write_fn = Some(|_: burstq::Write<u32>| {});
    assert_eq!(tx.try_send_inner(1, &mut write_fn), Err(Error::Shutdown));
    assert!(write_fn.is_some());
}

#[test]
fn clones_share_one_queue() {
    let (tx, rx) = mpmc::<u32>(8);
    let (tx2, rx2) = (tx.clone(), rx.clone());
    assert_eq!(put(&tx, &[1, 2]), 2);
    assert_eq!(put(&tx2, &[3, 4]), 2);
    assert_eq!(take(&rx2, 3), [1, 2, 3]);
    assert_eq!(take(&rx, 3), [4]);
}

#[test]
fn a_closure_may_use_the_other_end() {
    let (tx, rx) = mpmc::<u32>(4);
    assert_eq!(put(&tx, &[1, 2]), 2);
    let n = tx.try_send(2, |w| {
        // The values of this burst are not there yet, but the earlier ones are.
        assert_eq!(take(&rx, 9), [1, 2]);
        assert_eq!(rx.try_recv(9, |_| unreachable!()), Ok(0));
        w.write_slice(&[3, 4]);
    });
    assert_eq!(n, Ok(2));
    let n = rx.try_recv(2, |r| {
        // The slots of this burst are not free yet.
        assert_eq!(put(&tx, &[5, 6, 7]), 2);
        assert_eq!(r.into_iter().collect::<Vec<_>>(), [3, 4]);
    });
    assert_eq!(n, Ok(2));
    assert_eq!(take(&rx, 9), [5, 6]);
}

#[test]
fn a_waiting_task_tries_again_until_something_moved() {
    assert_eq!(settled(Ok(0)), None);
    assert_eq!(settled(Ok(3)), Some(Ok(3)));
    assert_eq!(settled(Err(Error::Shutdown)), Some(Err(Error::Shutdown)));
}

#[test]
fn who_wants_to_send_nothing_does_not_wait() {
    assert_eq!(send_settled(0, Ok(0)), Some(Ok(0)));
    assert_eq!(send_settled(1, Ok(0)), None);
    assert_eq!(send_settled(1, Ok(1)), Some(Ok(1)));
    assert_eq!(send_settled(1, Err(Error::Shutdown)), Some(Err(Error::Shutdown)));
}

#[test]
fn a_place_is_free_once_it_was_read() {
    let (tx, rx) = mpmc::<u32>(2);
    assert_eq!(tx.try_send(2, |w| w.write_slice(&[1, 2])), Ok(2));
    let (mut inner, mut got) = (None, 0);
    let n = rx.try_recv_quiet(1, |r| {
        inner = Some(tx.try_send(1, |w| w.write_slice(&[3])));
        got = *r.get(0);
    });
    assert_eq!((n, inner, got), (Ok(1), Some(Ok(0)), 1));
    assert_eq!(tx.try_send(1, |w| w.write_slice(&[3])), Ok(1));
    assert_eq!(take(&rx, 9), [2, 3]);
}

#[test]
fn a_receive_of_nothing_does_not_wait_for_its_turn() {
    let (tx, rx) = mpmc::<u32>(4);
    assert_eq!(put(&tx, &[1, 2, 3]), 3);
    let n = rx.try_recv(2, |r| {
        // The claim before is not given back yet.
        assert_eq!(rx.try_recv(0, |r| assert_eq!(r.len(), 0)), Ok(0));
        assert_eq!(r.into_iter().collect::<Vec<_>>(), [1, 2]);
    });
    assert_eq!(n, Ok(2));
    assert_eq!(take(&rx, 9), [3]);
}

#[test]
fn each_value_reaches_one_of_several_receivers() {
    let (tx1, rx1) = mpmc::<u32>(6);
    let (tx2, rx2) = (tx1.clone(), rx1.clone());
    assert_eq!(put(&tx1, &[1, 2]), 2);
    assert_eq!(put(&tx2, &[3]), 1);
    assert_eq!(put(&tx1, &[4, 5]), 2);
    assert_eq!(take(&rx2, 1), [1]);
    assert_eq!(take(&rx1, 3), [2, 3, 4]);
    assert_eq!(take(&rx2, 9), [5]);
    assert_eq!(take(&rx1, 9), []);
}

#[test]
fn the_last_of_many_senders_shuts_the_channel_down() {
    let (tx, rx) = mpmc::<u32>(6);
    let mut senders: Vec<Sender<u32>> = (0..4).map(|_| tx.clone()).collect();
    assert_eq!(put(&senders[3], &[1, 2, 3]), 3);
    drop(tx);
    while let Some(last) = senders.pop() {
        drop(last);
        assert_eq!(rx.try_recv(0, |_| ()), Ok(0));
    }
    assert_eq!(take(&rx, 2), [1, 2]);
    assert_eq!(take(&rx, 2), [3]);
    assert_eq!(rx.try_recv(2, |_| unreachable!()), Err(Error::Shutdown));
    assert_eq!(rx.clone().try_recv(0, |_| unreachable!()), Err(Error::Shutdown));
    assert_eq!(rx.try_recv(2, |_| unreachable!()), Err(Error::Shutdown));
}

#[test]
fn an_empty_queue_is_no_shutdown_while_a_sender_is_left() {
    let (tx1, rx) = mpmc::<u32>(6);
    let tx2 = tx1.clone();
    let tx3 = tx2.clone();
    drop(tx1);
    assert_eq!(rx.try_recv(2, |_| unreachable!()), Ok(0));
    drop(tx3);
    assert_eq!(rx.try_recv(2, |_| unreachable!()), Ok(0));
    drop(tx2);
    assert_eq!(rx.try_recv(2, |_| unreachable!()), Err(Error::Shutdown));
}

#[test]
fn sending_does_not_fail_while_a_receiver_is_left() {
    let (tx, rx1) = mpmc::<u32>(6);
    let rx2 = rx1.clone();
    drop(rx1);
    assert_eq!(put(&tx, &[1, 2]), 2);
    let rx3 = rx2.clone();
    drop(rx2);
    assert_eq!(take(&rx3, 1), [1]);
    assert_eq!(put(&tx, &[3]), 1);
    drop(rx3);
    let mut write_fn = Some(|_: burstq::Write<u32>| unreachable!());
    assert_eq!(tx.try_send_inner(1, &mut write_fn), Err(Error::Shutdown));
    assert!(write_fn.is_some());
    assert_eq!(tx.try_send(1, |_| unreachable!()), Err(Error::Shutdown));
    assert_eq!(tx.try_send(0, |_| unreachable!()), Ok(0));
}

#[test]
fn announcements_hand_the_outcome_on() {
    let (tx, rx) = mpmc::<u32>(4);
    assert_eq!(tx.announce(Ok(3)), Ok(3));
    assert_eq!(tx.announce(Err(Error::Shutdown)), Err(Error::Shutdown));
    assert_eq!(rx.announce(Ok(3)), Ok(3));
    assert_eq!(rx.announce(Err(Error::Shutdown)), Err(Error::Shutdown));
}
