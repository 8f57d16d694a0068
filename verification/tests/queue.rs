use burstq::{mpmc, Error};

#[test]
fn test_s20_r10_s20_r25() {
    let (tx, rx) = mpmc(24);

    let write_payload: Vec<u32> = (0..20).collect();

    let n = tx.try_send(20, |w| { w.write_slice(&write_payload); }).unwrap();
    assert_eq!(n, 20);

    rx.try_recv(10, |r| {
        assert_eq!(r.into_iter().collect::<Vec<_>>(), &[
            0, 1, 2, 3, 4, 5, 6, 7, 8, 9,
        ]);
    })
    .unwrap();

    let n = tx.try_send(20, |w| { w.write_slice(&write_payload[..14]); }).unwrap();
    assert_eq!(n, 14);

    let n = rx.try_recv(25, |r| {
        assert_eq!(r.into_iter().collect::<Vec<_>>(), &[
            10, 11, 12, 13, 14, 15, 16, 17, 18, 19,
            0, 1, 2, 3, 4, 5, 6, 7, 8, 9, 10, 11, 12, 13,
        ]);
    })
    .unwrap();
    assert_eq!(n, 24);
}

#[test]
fn test_s20_s20_r20_s5_r20() {
    let (tx, rx) = mpmc(24);

    let write_payload: Vec<u32> = (0..20).collect();

    let n = tx.try_send(20, |w| { w.write_slice(&write_payload); }).unwrap();
    assert_eq!(n, 20);
    let n = tx.try_send(20, |w| { w.write_slice(&write_payload[..4]); }).unwrap();
    assert_eq!(n, 4);

    let n = rx.try_recv(20, |r| {
        assert_eq!(r.into_iter().collect::<Vec<_>>(), (0..20).collect::<Vec<_>>());
    })
    .unwrap();
    assert_eq!(n, 20);

    let n = tx.try_send(5, |w| { w.write_slice(&write_payload[..5]); }).unwrap();
    assert_eq!(n, 5);

    let n = rx.try_recv(20, |r| {
        assert_eq!(r.into_iter().collect::<Vec<_>>(), &[0, 1, 2, 3, 0, 1, 2, 3, 4]);
    })
    .unwrap();
    assert_eq!(n, 9);
}

#[test]
fn test_sender_shutdown() {
    let (tx, rx) = mpmc::<usize>(24);

    drop(rx);

    let r = tx.try_send(1, |_| { });
    assert_eq!(r, Err(Error::Shutdown));
}

#[test]
fn test_sender_clone_then_shutdown() {
    let (tx, rx) = mpmc::<usize>(24);
    let rx2 = rx.clone();

    drop(rx);

    let r = tx.try_send(1, |w| w.write_slice(&[123]));
    assert_eq!(r, Ok(1));

    let mut did_receive = false;
    let r = rx2.try_recv(1, |r| {
        did_receive = true;
        assert_eq!(*r.get(0), 123);
    });
    assert!(did_receive);
    assert_eq!(r, Ok(1));

    drop(rx2);

    let r = tx.try_send(1, |_| { });
    assert_eq!(r, Err(Error::Shutdown));
}

#[test]
fn test_receiver_shutdown() {
    let (tx, rx) = mpmc::<usize>(24);

    drop(tx);

    let r = rx.try_recv(1, |_| { });
    assert_eq!(r, Err(Error::Shutdown));
}

#[test]
fn test_receive_clone_then_shutdown() {
    let (tx, rx) = mpmc::<usize>(24);
    let tx2 = tx.clone();

    drop(tx);

    let r = tx2.try_send(1, |w| w.write_slice(&[123]));
    assert_eq!(r, Ok(1));

    let mut did_receive = false;
    let r = rx.try_recv(1, |r| {
        did_receive = true;
        assert_eq!(*r.get(0), 123);
    });
    assert!(did_receive);
    assert_eq!(r, Ok(1));

    drop(tx2);

    let r = rx.try_recv(1, |_| { });
    assert_eq!(r, Err(Error::Shutdown));
}
