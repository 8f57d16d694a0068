use std::future::Future;
use std::sync::atomic::{AtomicUsize, Ordering};
use std::sync::Arc;
use std::task::{Context, Poll, Wake, Waker};

use async_event::Event;
use burstq::{mpmc, settled, Error, Receiver, Sender};

/// Counts how often a task is woken.
struct Wakes(AtomicUsize);

impl Wake for Wakes {
    fn wake(self: Arc<Self>) {
        self.0.fetch_add(1, Ordering::SeqCst);
    }
}

/// Does `deed` while a task waits on `event`, and tells how often that task was woken.
fn wakes(event: &Event, deed: impl FnOnce()) -> usize {
    let count = Arc::new(Wakes(AtomicUsize::new(0)));
    let waker = Waker::from(count.clone());
    let mut task = Box::pin(event.wait_until(|| None::<()>));
    assert_eq!(task.as_mut().poll(&mut Context::from_waker(&waker)), Poll::Pending);
    deed();
    count.0.load(Ordering::SeqCst)
}

fn send_two(tx: &Sender<u32>) {
    assert_eq!(tx.try_send_quiet(2, |w| w.write_slice(&[1, 2])), Ok(2));
}

fn ends() -> (Sender<u32>, Receiver<u32>) {
    mpmc(4)
}

#[test]
fn senders_tell_waiting_receivers() {
    let (tx, rx) = ends();
    let n = wakes(rx.write_event(), || {
        assert_eq!(tx.try_send(2, |w| w.write_slice(&[1, 2])), Ok(2));
    });
    assert_eq!(n, 1);
    let n = wakes(rx.write_event(), || send_two(&tx));
    assert_eq!(n, 0);
    // The queue is full.
    let n = wakes(rx.write_event(), || {
        assert_eq!(tx.try_send(2, |_| unreachable!()), Ok(0));
    });
    assert_eq!(n, 0);
}

#[test]
fn receivers_tell_waiting_senders() {
    let (tx, rx) = ends();
    send_two(&tx);
    let n = wakes(tx.consume_event(), || {
        assert_eq!(rx.try_recv(1, |_| ()), Ok(1));
    });
    assert_eq!(n, 1);
    let n = wakes(tx.consume_event(), || {
        assert_eq!(rx.try_recv_quiet(1, |_| ()), Ok(1));
    });
    assert_eq!(n, 0);
    // The queue is empty.
    let n = wakes(tx.consume_event(), || {
        assert_eq!(rx.try_recv(1, |_| unreachable!()), Ok(0));
    });
    assert_eq!(n, 0);
}

#[test]
fn each_side_is_told_by_the_other() {
    let (tx, rx) = ends();
    assert_eq!(wakes(rx.write_event(), || send_and_announce(&tx)), 1);
    assert_eq!(wakes(tx.consume_event(), || send_and_announce(&tx)), 0);
    let announce = |outcome| {
        assert_eq!(rx.announce(outcome), outcome);
    };
    assert_eq!(wakes(tx.consume_event(), || announce(Ok(1))), 1);
    assert_eq!(wakes(rx.write_event(), || announce(Ok(1))), 0);
    assert_eq!(wakes(tx.consume_event(), || announce(Ok(0))), 0);
    assert_eq!(wakes(tx.consume_event(), || announce(Err(Error::Shutdown))), 0);
}

fn send_and_announce(tx: &Sender<u32>) {
    send_two(tx);
    assert_eq!(tx.announce(Ok(2)), Ok(2));
}

#[test]
fn outcomes_that_moved_nothing_are_not_announced() {
    let (tx, rx) = ends();
    let n = wakes(rx.write_event(), || {
        assert_eq!(tx.announce(Ok(0)), Ok(0));
        assert_eq!(tx.announce(Err(Error::Shutdown)), Err(Error::Shutdown));
    });
    assert_eq!(n, 0);
}

#[test]
fn a_waiting_receiver_gets_what_is_sent() {
    let (tx, rx) = ends();
    let count = Arc::new(Wakes(AtomicUsize::new(0)));
    let waker = Waker::from(count.clone());
    let mut context = Context::from_waker(&waker);
    let mut received = Vec::new();
    let mut task = Box::pin(
        rx.write_event().wait_until(|| settled(rx.try_recv_quiet(9, |r| received.extend(r)))),
    );
    assert_eq!(task.as_mut().poll(&mut context), Poll::Pending);
    assert_eq!(tx.try_send(3, |w| w.write_slice(&[1, 2, 3])), Ok(3));
    assert_eq!(count.0.load(Ordering::SeqCst), 1);
    assert_eq!(task.as_mut().poll(&mut context), Poll::Ready(Ok(3)));
    drop(task);
    assert_eq!(received, [1, 2, 3]);
}
