//! The two ends of a channel.

use std::sync::Arc;

use async_event::Event;
use vstd::prelude::*;

use crate::accord::{Accord, Free, Open};
use crate::count::{counted_down, counted_up, Receiving, Seat, Sending, Tally};
use crate::error::Error;
use crate::gate::Shared;
use crate::handle::{values, Read, Slot, Write};
use crate::model::answer;
use crate::plan::{min, Attempt, Claim};
use crate::reports::{
    receives_fail_for_want_of_senders, receives_find_no_values, sends_fail_for_want_of_receivers,
    sends_find_no_room,
};
use crate::shared::Channel;
use crate::word::index_limit;

verus! {

/// A sending end of a channel.
#[verifier::reject_recursive_types(T)]
#[verifier::reject_recursive_types(S)]
pub struct Sender<T, S: Accord<T> = Free> {
    shared: Arc<Shared<T, S>>,
    seat: Seat<Sending, S>,
}

/// A receiving end of a channel.
#[verifier::reject_recursive_types(T)]
#[verifier::reject_recursive_types(S)]
pub struct Receiver<T, S: Accord<T> = Free> {
    shared: Arc<Shared<T, S>>,
    seat: Seat<Receiving, S>,
}

/// Create a new bounded mpmc queue.
pub fn mpmc<T>(capacity: usize) -> (ends: (Sender<T>, Receiver<T>))
    requires
        capacity < index_limit(),
    ensures
        ends.0.capacity() == capacity,
        ends.1.capacity() == capacity,
        ends.0.is_paired_with(ends.1),
        ends.0.channel().is_new(),
        ends.0.is_counted(),
        ends.1.is_counted(),
        forall|items: Seq<T>| #[trigger] ends.0.rule()(items),
{
    mpmc_with_rule(capacity, Ghost(|items: Seq<T>| true))
}

/// Create a new bounded mpmc queue through which only bursts that meet the rule are sent. Whoever
/// receives then knows that what was received is part of such bursts.
pub fn mpmc_with_rule<T>(capacity: usize, rule: Ghost<spec_fn(Seq<T>) -> bool>) -> (ends: (
    Sender<T>,
    Receiver<T>,
))
    requires
        capacity < index_limit(),
    ensures
        ends.0.capacity() == capacity,
        ends.1.capacity() == capacity,
        ends.0.is_paired_with(ends.1),
        ends.0.channel().is_new(),
        ends.0.is_counted(),
        ends.1.is_counted(),
        ends.0.rule() == rule@,
{
    mpmc_with_accord(capacity, rule)
}

/// Create a new bounded mpmc queue through which only bursts that meet the rule are sent, and whose
/// users agree on who sends and receives what.
pub fn mpmc_with_accord<T, S: Accord<T>>(
    capacity: usize,
    rule: Ghost<spec_fn(Seq<T>) -> bool>,
) -> (ends: (Sender<T, S>, Receiver<T, S>))
    requires
        capacity < index_limit(),
    ensures
        ends.0.capacity() == capacity,
        ends.1.capacity() == capacity,
        ends.0.is_paired_with(ends.1),
        ends.0.channel().is_new(),
        ends.0.is_counted(),
        ends.1.is_counted(),
        ends.0.rule() == rule@,
{
    // One slot more than the user asked for, since one slot in the queue will always be unusable
    // so that we can discern between the queue being completely full and completely empty.
    let (senders, producer_seat) = Tally::start();
    let (receivers, consumer_seat) = Tally::start();
    let shared = Arc::new(Shared::new(capacity + 1, rule, senders, receivers));
    let producer = Sender { shared: shared.clone(), seat: producer_seat };
    let consumer = Receiver { shared, seat: consumer_seat };
    (producer, consumer)
}

impl<T, S: Accord<T>> Sender<T, S> {
    /// The channel that this end sends into.
    pub closed spec fn channel(self) -> Channel<T, S> {
        self.shared.channel()
    }

    /// The number of values that the channel can hold.
    pub open spec fn capacity(self) -> int {
        self.channel().terms().capacity - 1
    }

    /// What every burst that is sent through the channel meets.
    pub open spec fn rule(self) -> spec_fn(Seq<T>) -> bool {
        self.channel().terms().rule
    }

    /// Whether what this end sends can be received at `other`.
    pub open spec fn is_paired_with(self, other: Receiver<T, S>) -> bool {
        self.channel() == other.channel()
    }

    /// Whether two ends send into the same channel.
    pub open spec fn is_clone_of(self, other: Sender<T, S>) -> bool {
        self.channel() == other.channel()
    }

    /// Whether `write_fn` takes every reservation that it may be called with.
    pub open spec fn can_offer<F: FnOnce(Write<T>)>(self, max_burst_len: usize, write_fn: F) -> bool {
        forall|w: Write<T>|
            w.is_offer(max_burst_len as int, self.capacity()) ==> #[trigger] call_requires(
                write_fn,
                (w,),
            )
    }

    /// Whether the slots of a reservation can be sent if they are left as given: every one of them
    /// is written, and the burst meets the rule.
    pub open spec fn accepts(self, w: Write<T>, left: Seq<Slot<T>>) -> bool {
        w.may_be_left_as(left) && self.rule()(values(left))
    }

    /// Whether this end is counted.
    pub closed spec fn is_counted(self) -> bool {
        self.seat.is_taken()
    }

    #[verifier::type_invariant]
    spec fn is_seated(self) -> bool {
        self.seat.count() == self.shared.channel().terms().senders
    }

    /// Attempt to send up to `max_burst_len` values. If the queue is completely full, this
    /// method will return immediately.
    ///
    /// The provided closure will be called with a `Write` reservation handle, unless there is
    /// nothing to reserve. The closure must write the reservation in its entirety. This is
    /// guaranteed if using `Write::write_slice`.
    ///
    /// Waiting receivers are told if values were sent.
    pub fn try_send<F: FnOnce(Write<T>)>(&self, max_burst_len: usize, write_fn: F) -> (r: Result<
        usize,
        Error,
    >)
        requires
            S::may_send(max_burst_len),
            self.channel().bursts_are_news(),
            self.can_offer(max_burst_len, write_fn),
            forall|w: Write<T>|
                w.is_offer(max_burst_len as int, self.capacity()) && #[trigger] call_ensures(
                    write_fn,
                    (w,),
                    (),
                ) ==> self.accepts(
                    w,
                    match w.back() {
                        Some(back) => final(w.front())@ + final(back)@,
                        None => final(w.front())@,
                    },
                ),
        ensures
            self.channel().answers_send(max_burst_len, r),
            r is Ok && r->Ok_0 > 0 ==> exists|claim: Claim, w: Write<T>|
                {
                    &&& #[trigger] self.channel().offered(max_burst_len, claim, w)
                    &&& claim.burst_len == r->Ok_0
                    &&& #[trigger] call_ensures(write_fn, (w,), ())
                    &&& self.channel().published(
                        claim,
                        match w.back() {
                            Some(back) => final(w.front())@ + final(back)@,
                            None => final(w.front())@,
                        },
                    )
                },
            r is Err ==> {
                ||| self.channel().shut_to_senders(max_burst_len)
                ||| exists|claim: Claim, w: Write<T>|
                    {
                        &&& #[trigger] self.channel().offered(max_burst_len, claim, w)
                        &&& #[trigger] call_ensures(write_fn, (w,), ())
                        &&& self.channel().withheld(
                            claim,
                            match w.back() {
                                Some(back) => final(w.front())@ + final(back)@,
                                None => final(w.front())@,
                            },
                        )
                    }
            },
            r is Ok && r->Ok_0 > 0 ==> call_ensures(
                Event::notify_all,
                (&self.channel().arrival,),
                (),
            ),
    {
        let outcome: Result<usize, Error> = self.try_send_quiet(max_burst_len, write_fn);
        self.announce(outcome)
    }

    /// Attempt to send up to `max_burst_len` values. If the queue is completely full, this
    /// method will return immediately.
    ///
    /// This method doesn't notify async receivers that new values are available. It should be used
    /// if and only if receivers only ever receive with `try_recv` or `try_recv_quiet`.
    ///
    /// See `Sender::try_send` for details about the `write_fn` parameter.
    pub fn try_send_quiet<F: FnOnce(Write<T>)>(&self, max_burst_len: usize, write_fn: F) -> (r:
        Result<usize, Error>)
        requires
            S::may_send(max_burst_len),
            self.can_offer(max_burst_len, write_fn),
            forall|w: Write<T>|
                w.is_offer(max_burst_len as int, self.capacity()) && #[trigger] call_ensures(
                    write_fn,
                    (w,),
                    (),
                ) ==> self.accepts(
                    w,
                    match w.back() {
                        Some(back) => final(w.front())@ + final(back)@,
                        None => final(w.front())@,
                    },
                ),
        ensures
            self.channel().answers_send(max_burst_len, r),
            r is Ok && r->Ok_0 > 0 ==> exists|claim: Claim, w: Write<T>|
                {
                    &&& #[trigger] self.channel().offered(max_burst_len, claim, w)
                    &&& claim.burst_len == r->Ok_0
                    &&& #[trigger] call_ensures(write_fn, (w,), ())
                    &&& self.channel().published(
                        claim,
                        match w.back() {
                            Some(back) => final(w.front())@ + final(back)@,
                            None => final(w.front())@,
                        },
                    )
                },
            r is Err ==> {
                ||| self.channel().shut_to_senders(max_burst_len)
                ||| exists|claim: Claim, w: Write<T>|
                    {
                        &&& #[trigger] self.channel().offered(max_burst_len, claim, w)
                        &&& #[trigger] call_ensures(write_fn, (w,), ())
                        &&& self.channel().withheld(
                            claim,
                            match w.back() {
                                Some(back) => final(w.front())@ + final(back)@,
                                None => final(w.front())@,
                            },
                        )
                    }
            },
    {
        let mut write_fn = Some(write_fn);
        self.try_send_inner(max_burst_len, &mut write_fn)
    }

    /// The event to wait on for space in the queue. It is notified by `Receiver::try_recv` and
    /// `Receiver::announce`.
    pub fn consume_event(&self) -> (event: &Event)
        ensures
            *event == self.channel().space,
    {
        proof {
            use_type_invariant(self);
        }
        self.shared.consume_event(&self.seat)
    }

    /// Tells waiting receivers that values were sent, if any were, and hands the outcome on.
    pub fn announce(&self, outcome: Result<usize, Error>) -> (r: Result<usize, Error>)
        requires
            outcome is Ok && outcome->Ok_0 > 0 ==> S::is_news(outcome->Ok_0),
        ensures
            r == outcome,
            outcome is Ok && outcome->Ok_0 > 0 ==> call_ensures(
                Event::notify_all,
                (&self.channel().arrival,),
                (),
            ),
    {
        if let Ok(n) = outcome {
            if n > 0 {
                self.shared.tell_receivers(n);
            }
        }
        outcome
    }

    /// Attempt to send up to `max_burst_len` values, and take `write_fn` only to write them: where
    /// there is nothing to reserve, it is left for another attempt.
    ///
    /// A burst counts as sent once it is published, which is after the senders that came first have
    /// published theirs. Should they not do so for as long as this end is ready to wait, the burst
    /// is not sent, and the channel is taken to be shut down.
    pub fn try_send_inner<F: FnOnce(Write<T>)>(
        &self,
        max_burst_len: usize,
        write_fn: &mut Option<F>,
    ) -> (r: Result<usize, Error>)
        requires
            (*old(write_fn)) is Some,
            S::may_send(max_burst_len),
            self.can_offer(max_burst_len, (*old(write_fn))->0),
            forall|w: Write<T>|
                w.is_offer(max_burst_len as int, self.capacity()) && #[trigger] call_ensures(
                    (*old(write_fn))->0,
                    (w,),
                    (),
                ) ==> self.accepts(
                    w,
                    match w.back() {
                        Some(back) => final(w.front())@ + final(back)@,
                        None => final(w.front())@,
                    },
                ),
        ensures
            self.channel().answers_send(max_burst_len, r),
            r is Ok && r->Ok_0 == 0 ==> *final(write_fn) == *old(write_fn),
            r is Ok && r->Ok_0 > 0 ==> *final(write_fn) is None,
            r is Ok && r->Ok_0 > 0 ==> exists|claim: Claim, w: Write<T>|
                {
                    &&& #[trigger] self.channel().offered(max_burst_len, claim, w)
                    &&& claim.burst_len == r->Ok_0
                    &&& #[trigger] call_ensures((*old(write_fn))->0, (w,), ())
                    &&& self.channel().published(
                        claim,
                        match w.back() {
                            Some(back) => final(w.front())@ + final(back)@,
                            None => final(w.front())@,
                        },
                    )
                },
            r is Err ==> {
                ||| self.channel().shut_to_senders(max_burst_len) && *final(write_fn) == *old(
                    write_fn,
                )
                ||| exists|claim: Claim, w: Write<T>|
                    {
                        &&& #[trigger] self.channel().offered(max_burst_len, claim, w)
                        &&& #[trigger] call_ensures((*old(write_fn))->0, (w,), ())
                        &&& self.channel().withheld(
                            claim,
                            match w.back() {
                                Some(back) => final(w.front())@ + final(back)@,
                                None => final(w.front())@,
                            },
                        )
                    }
            },
    {
        let capacity: usize = self.shared.capacity();
        if max_burst_len == 0 {
            return Ok(0);
        }
        if let Some(write_once) = write_fn.take() {
            let (end, hand) = self.shared.reserve_send(max_burst_len, write_once);
            proof {
                if end is Shutdown {
                    sends_fail_for_want_of_receivers(self.channel(), max_burst_len);
                } else if end is Nothing {
                    sends_find_no_room(self.channel(), max_burst_len);
                }
            }
            match (end, hand) {
                (Attempt::Reserved(claim), Ok(writer)) => {
                    let items: Vec<Slot<T>> = writer.write(&claim, capacity);
                    proof {
                        let w = choose|w: Write<T>|
                            {
                                &&& w.is_offer(claim.burst_len as int, capacity - 1)
                                &&& w@.len() == claim.burst_len
                                &&& w.front()@.len() == min(
                                    claim.burst_len as int,
                                    capacity - claim.start,
                                )
                                &&& #[trigger] call_ensures(write_once, (w,), ())
                                &&& items@ == match w.back() {
                                    Some(back) => final(w.front())@ + final(back)@,
                                    None => final(w.front())@,
                                }
                            };
                        assert(self.channel().offered(max_burst_len, claim, w));
                    }
                    if !self.shared.finish_send(&claim, items) {
                        return Err(Error::Shutdown);
                    }
                },
                (_, Err(back)) => {
                    *write_fn = Some(back);
                },
                _ => {},
            }
            answer(&end)
        } else {
            vstd::pervasive::unreached()
        }
    }
}

/// What a task that waits for an attempt to send or receive makes of its outcome: one that moved
/// nothing and met no shutdown is no outcome yet, and is made again after the next notification.
pub fn settled(outcome: Result<usize, Error>) -> (r: Option<Result<usize, Error>>)
    ensures
        r == (if outcome == Ok::<usize, Error>(0) {
            None
        } else {
            Some(outcome)
        }),
{
    match outcome {
        Ok(0) => None,
        Ok(n) => Some(Ok(n)),
        Err(e) => Some(Err(e)),
    }
}

/// What a task that waits to send up to `max_burst_len` values makes of the outcome of an attempt.
/// Who wants to send nothing does not wait.
pub fn send_settled(max_burst_len: usize, outcome: Result<usize, Error>) -> (r: Option<
    Result<usize, Error>,
>)
    ensures
        r == (if max_burst_len > 0 && outcome == Ok::<usize, Error>(0) {
            None
        } else {
            Some(outcome)
        }),
{
    if max_burst_len == 0 {
        Some(outcome)
    } else {
        settled(outcome)
    }
}

impl<T, S: Accord<T> + Open> Clone for Sender<T, S> {
    fn clone(&self) -> (other: Self)
        ensures
            other.is_clone_of(*self),
            other.is_counted(),
            counted_up(self.channel().terms().senders),
    {
        proof {
            use_type_invariant(self);
        }
        Sender { shared: self.shared.clone(), seat: self.seat.another() }
    }
}

impl<T, S: Accord<T>> Drop for Sender<T, S> {
    /// Counts this sender out. Receivers are told of the shutdown once the count is at zero.
    fn drop(&mut self)
        ensures
            counted_down(old(self).channel().terms().senders),
            final(self).channel() == old(self).channel(),
        opens_invariants none
        no_unwind
    {
        proof {
            use_type_invariant(&*self);
        }
        self.seat.leave();
    }
}

impl<T, S: Accord<T> + Open> Clone for Receiver<T, S> {
    fn clone(&self) -> (other: Self)
        ensures
            other.is_clone_of(*self),
            other.is_counted(),
            counted_up(self.channel().terms().receivers),
    {
        proof {
            use_type_invariant(self);
        }
        Receiver { shared: self.shared.clone(), seat: self.seat.another() }
    }
}

impl<T, S: Accord<T>> Drop for Receiver<T, S> {
    /// Counts this receiver out. Senders are told of the shutdown once the count is at zero.
    fn drop(&mut self)
        ensures
            counted_down(old(self).channel().terms().receivers),
            final(self).channel() == old(self).channel(),
        opens_invariants none
        no_unwind
    {
        proof {
            use_type_invariant(&*self);
        }
        self.seat.leave();
    }
}

impl<T, S: Accord<T>> Receiver<T, S> {
    /// The channel that this end receives from.
    pub closed spec fn channel(self) -> Channel<T, S> {
        self.shared.channel()
    }

    /// The number of values that the channel can hold.
    pub open spec fn capacity(self) -> int {
        self.channel().terms().capacity - 1
    }

    /// Whether two ends receive from the same channel.
    pub open spec fn is_clone_of(self, other: Receiver<T, S>) -> bool {
        self.channel() == other.channel()
    }

    /// Whether this end is counted.
    pub closed spec fn is_counted(self) -> bool {
        self.seat.is_taken()
    }

    #[verifier::type_invariant]
    spec fn is_seated(self) -> bool {
        self.seat.count() == self.shared.channel().terms().receivers
    }

    /// Whether `read_fn` takes every reservation that it may be called with.
    pub open spec fn can_hand_out<F: FnOnce(Read<T>)>(self, max_burst_len: usize, read_fn: F) -> bool {
        forall|read: Read<T>|
            read.is_offer(max_burst_len as int, self.capacity()) ==> #[trigger] call_requires(
                read_fn,
                (read,),
            )
    }

    /// The event to wait on for values in the queue. It is notified by `Sender::try_send` and
    /// `Sender::announce`.
    pub fn write_event(&self) -> (event: &Event)
        ensures
            *event == self.channel().arrival,
    {
        proof {
            use_type_invariant(self);
        }
        self.shared.write_event(&self.seat)
    }

    /// Tells waiting senders that values were received, if any were, and hands the outcome on.
    pub fn announce(&self, outcome: Result<usize, Error>) -> (r: Result<usize, Error>)
        requires
            outcome is Ok && outcome->Ok_0 > 0 ==> S::is_space(outcome->Ok_0),
        ensures
            r == outcome,
            outcome is Ok && outcome->Ok_0 > 0 ==> call_ensures(
                Event::notify_all,
                (&self.channel().space,),
                (),
            ),
    {
        if let Ok(n) = outcome {
            if n > 0 {
                self.shared.tell_senders(n);
            }
        }
        outcome
    }

    /// Attempt to receive up to `max_burst_len` values. If the queue is completely empty, this
    /// method will return `Ok(0)` immediately.
    ///
    /// The provided `read_fn` closure will be called with a `Read` reservation handle that can be
    /// used to read the received values. Values that are not taken from the `Read` are leaked: their
    /// destructor never runs.
    ///
    /// Waiting senders are told if values were received.
    pub fn try_recv<F: FnOnce(Read<T>)>(&self, max_burst_len: usize, read_fn: F) -> (r: Result<
        usize,
        Error,
    >)
        requires
            S::may_receive(max_burst_len),
            self.channel().slots_are_space(),
            self.can_hand_out(max_burst_len, read_fn),
            self.channel().is_heard_by(max_burst_len, read_fn),
        ensures
            r is Ok ==> {
                ||| r->Ok_0 == 0 && self.channel().empty_to_receivers(max_burst_len)
                ||| exists|claim: Claim, read: Read<T>|
                    {
                        &&& #[trigger] self.channel().handed(max_burst_len, claim, read)
                        &&& claim.burst_len == r->Ok_0
                        &&& #[trigger] call_ensures(read_fn, (read,), ())
                        &&& r->Ok_0 > 0 ==> self.channel().released(
                            claim,
                            match read.back() {
                                Some(back) => final(read.front())@ + final(back)@,
                                None => final(read.front())@,
                            },
                        )
                    }
            },
            r is Err ==> {
                ||| self.channel().shut_to_receivers(max_burst_len)
                ||| exists|claim: Claim, read: Read<T>|
                    {
                        &&& #[trigger] self.channel().handed(max_burst_len, claim, read)
                        &&& #[trigger] call_ensures(read_fn, (read,), ())
                        &&& self.channel().retained(
                            claim,
                            match read.back() {
                                Some(back) => final(read.front())@ + final(back)@,
                                None => final(read.front())@,
                            },
                        )
                    }
            },
            r is Ok && r->Ok_0 > 0 ==> call_ensures(
                Event::notify_all,
                (&self.channel().space,),
                (),
            ),
    {
        let outcome: Result<usize, Error> = self.try_recv_quiet(max_burst_len, read_fn);
        self.announce(outcome)
    }

    /// Attempt to receive up to `max_burst_len` values. If the queue is completely empty, this
    /// method will return `Ok(0)` immediately.
    ///
    /// This method doesn't notify async senders that new values can be sent. It should be used
    /// if and only if senders only ever send with `try_send` or `try_send_quiet`.
    ///
    /// Slots are given back after the receivers that came first have given back theirs. Should they
    /// not do so for as long as this end is ready to wait, the channel is taken to be shut down.
    ///
    /// See `Receiver::try_recv` for details about the `read_fn` parameter.
    pub fn try_recv_quiet<F: FnOnce(Read<T>)>(&self, max_burst_len: usize, read_fn: F) -> (r:
        Result<usize, Error>)
        requires
            S::may_receive(max_burst_len),
            self.can_hand_out(max_burst_len, read_fn),
            self.channel().is_heard_by(max_burst_len, read_fn),
        ensures
            r is Ok ==> {
                ||| r->Ok_0 == 0 && self.channel().empty_to_receivers(max_burst_len)
                ||| exists|claim: Claim, read: Read<T>|
                    {
                        &&& #[trigger] self.channel().handed(max_burst_len, claim, read)
                        &&& claim.burst_len == r->Ok_0
                        &&& #[trigger] call_ensures(read_fn, (read,), ())
                        &&& r->Ok_0 > 0 ==> self.channel().released(
                            claim,
                            match read.back() {
                                Some(back) => final(read.front())@ + final(back)@,
                                None => final(read.front())@,
                            },
                        )
                    }
            },
            r is Err ==> {
                ||| self.channel().shut_to_receivers(max_burst_len)
                ||| exists|claim: Claim, read: Read<T>|
                    {
                        &&& #[trigger] self.channel().handed(max_burst_len, claim, read)
                        &&& #[trigger] call_ensures(read_fn, (read,), ())
                        &&& self.channel().retained(
                            claim,
                            match read.back() {
                                Some(back) => final(read.front())@ + final(back)@,
                                None => final(read.front())@,
                            },
                        )
                    }
            },
    {
        let capacity: usize = self.shared.capacity();
        let (end, items, hand) = self.shared.reserve_recv(max_burst_len, read_fn);
        proof {
            if end is Shutdown {
                receives_fail_for_want_of_senders(self.channel(), max_burst_len, values(items@));
            } else if end is Nothing {
                receives_find_no_values(self.channel(), max_burst_len, values(items@));
            }
        }
        if let (Attempt::Reserved(claim), Ok(reader)) = (end, hand) {
            let rest = reader.read(&claim, capacity, items);
            proof {
                let read = choose|read: Read<T>|
                    {
                        &&& read.is_offer(claim.burst_len as int, capacity - 1)
                        &&& read@ == values(items@)
                        &&& read.front()@.len() == min(
                            claim.burst_len as int,
                            capacity - claim.start,
                        )
                        &&& #[trigger] call_ensures(read_fn, (read,), ())
                        &&& rest@ == match read.back() {
                            Some(back) => final(read.front())@ + final(back)@,
                            None => final(read.front())@,
                        }
                    };
                assert(self.channel().handed(max_burst_len, claim, read));
            }
            // A claim of nothing has no slots to give back, and need not wait for its turn.
            if claim.burst_len > 0 && !self.shared.finish_recv(&claim, rest) {
                return Err(Error::Shutdown);
            }
        }
        answer(&end)
    }
}

}
