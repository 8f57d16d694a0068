use burstq::{mpmc, Receiver, Sender};

fn can_be_shared<X: Send + Sync>(_: &X) {}

#[test]
fn ends_can_be_shared_between_threads() {
    let (tx, rx): (Sender<u32>, Receiver<u32>) = mpmc(3);
    can_be_shared(&tx);
    can_be_shared(&rx);
}

#[test]
fn ends_for_owned_values_can_be_shared_between_threads() {
    let (tx, rx): (Sender<Vec<Box<String>>>, Receiver<Vec<Box<String>>>) = mpmc(3);
    can_be_shared(&tx);
    can_be_shared(&rx);
}
