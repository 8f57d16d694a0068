# burstq

A bounded multi-producer, multi-consumer channel that sends or receives many items in a single
operation. If not all of the requested items can be sent or received, as many as is currently
possible will be.

```rust
let (tx, rx) = mpmc::<u32>(24);

let payload: Vec<u32> = (0..20).collect();
let sent = tx.try_send(20, |w| w.write_slice(&payload))?;
assert_eq!(sent, 20);

let received = rx.try_recv(10, |r| {
    assert_eq!(r.into_iter().collect::<Vec<_>>(), (0..10).collect::<Vec<_>>());
})?;
assert_eq!(received, 10);
```

## Layout

- `src/` is the verified library.
  - `word` packs an index, a sequence tag and the shutdown flag into a head word.
  - `plan` decides what one end of the ring does next.
  - `ring` holds the slots, and the steps that senders and receivers take on them; `step` has these
    steps as functions from ring to ring.
  - `model` is the channel as a mathematical object; `laws` states what holds of it as a whole, and
    `ends` what holds while senders and receivers come and go.
  - `handle` has the reservation handles `Write` and `Read`.
  - `burst` writes, reads, sends and receives whole bursts.
  - `shared` has what the ends of a channel share, and says what it means that an end has taken a
    step on it.
  - `channel` has the two ends, `Sender` and `Receiver`; `reports` states what follows from what they
    report.
  - `count` says how the ends are counted, `outside` what is relied on of other crates.
- `app/` sends and receives asynchronously, on top of the library.
- `tests/` runs the library.

The steps on a ring are short critical sections under a spin lock. The closures that write and read
a burst run outside of it, so that bursts are written and read in parallel. A sender finishes its
burst after the senders that claimed their slots earlier, and a receiver likewise.

## What the ends promise

The ring keeps an account of all the steps that were ever taken on it, and what the ends promise is
stated over that account:

- `Ok(n)` from a sender means that the very values that its closure wrote were published, as the
  newest of all that were sent.
- `Ok(n)` from a receiver means that its closure was given the oldest values that nobody had received,
  and that their slots were given back with what the closure left in them.
- `Ok(0)` means that the ring was full, or empty, while the other side was there, or that nothing was
  asked for.
- `Err` from a sender means that every receiver was gone. `Err` from a receiver means that every
  sender was gone and nothing was left to receive, both at one and the same time. What was sent before
  the senders went is received before the shutdown is seen.

There is one more way to `Err`. A burst is finished after those that were claimed before it, and an
end that waits for its turn has a number of tries: as many as a `u64` can count, which at one try a
nanosecond is centuries. An end that has used up all of them gives up on the channel.

What other ends do between two calls is up to them, so that no call promises what the next one will
find. What does hold across calls is the rule of a channel that was made with `mpmc_with_rule`: only
bursts that meet it are sent, so that what is received is part of such bursts.

## Limits

- Ends can be shared between threads if the values are `Send` and `Sync`: the lock asks for both.
- The lock does not free what is in it. The memory of the ring, which is one slot for each value that
  the channel can hold and one more, stays allocated when the last end is dropped. A channel is meant
  to live as long as the threads that it connects.
- Values that are never received, or not taken from a reservation, are leaked: their destructors do
  not run.
