//! The channel as a mathematical object: what is in the ring, and the steps that change it.

use vstd::prelude::*;

use crate::error::Error;
use crate::plan::{min, recv_plan, ring_step, send_plan, Attempt, Claim, Plan};
use crate::word::{index_limit, packed, seq_after, seq_limit};

verus! {

/// The state of a ring. From the slot `start` on, the ring holds in this order: `reading` slots
/// that receivers have claimed and not yet given back, the values of `queue`, `writing` slots that
/// senders have claimed and not yet published, and free slots up to the end, one of which always
/// stays unused.
#[verifier::ext_equal]
pub struct RingState<T> {
    /// The number of slots.
    pub capacity: int,
    /// The oldest slot in use.
    pub start: int,
    /// The number of slots that receivers have claimed and not yet given back.
    pub reading: int,
    /// The values that were published and that no receiver has claimed, oldest first.
    pub queue: Seq<T>,
    /// The number of slots that senders have claimed and not yet published.
    pub writing: int,
    /// The sequence tag of the senders' head word.
    pub prod_seq: int,
    /// The sequence tag of the receivers' head word.
    pub cons_seq: int,
    /// Whether every sender is gone.
    pub senders_gone: bool,
    /// Whether every receiver is gone.
    pub receivers_gone: bool,
}

impl<T> RingState<T> {
    /// A ring in which nothing has happened yet.
    pub open spec fn fresh(capacity: int) -> Self {
        RingState {
            capacity,
            start: 0,
            reading: 0,
            queue: Seq::empty(),
            writing: 0,
            prod_seq: 0,
            cons_seq: 0,
            senders_gone: false,
            receivers_gone: false,
        }
    }

    /// The number of slots that are in use.
    pub open spec fn used(self) -> int {
        self.reading + self.queue.len() + self.writing
    }

    /// The number of slots that a sender can claim.
    pub open spec fn free(self) -> int {
        self.capacity - 1 - self.used()
    }

    /// What holds of every ring.
    pub open spec fn valid(self) -> bool {
        &&& 0 < self.capacity <= index_limit()
        &&& 0 <= self.start < self.capacity
        &&& 0 <= self.reading
        &&& 0 <= self.writing
        &&& 0 <= self.free()
        &&& 0 <= self.prod_seq < seq_limit()
        &&& 0 <= self.cons_seq < seq_limit()
    }

    /// The slot that lies `offset` slots after the oldest one in use.
    pub open spec fn slot(self, offset: int) -> int {
        ring_step(self.start, offset, self.capacity)
    }

    /// The senders' head word: the next slot to claim for writing.
    pub open spec fn prod_head(self) -> usize {
        packed(self.slot(self.used()), self.prod_seq, self.receivers_gone) as usize
    }

    /// The senders' tail: the first slot that is not published.
    pub open spec fn prod_tail(self) -> int {
        self.slot(self.reading + self.queue.len())
    }

    /// The receivers' head word: the next slot to claim for reading.
    pub open spec fn cons_head(self) -> usize {
        packed(self.slot(self.reading), self.cons_seq, self.senders_gone) as usize
    }

    /// The receivers' tail: the oldest slot in use.
    pub open spec fn cons_tail(self) -> int {
        self.start
    }

    /// A sender claims `count` slots.
    pub open spec fn claim_send(self, count: int) -> Self {
        RingState {
            writing: self.writing + count,
            prod_seq: seq_after(self.prod_seq, count),
            ..self
        }
    }

    /// The sender that claimed first publishes its values.
    pub open spec fn publish(self, items: Seq<T>) -> Self {
        RingState { queue: self.queue + items, writing: self.writing - items.len(), ..self }
    }

    /// A receiver claims the `count` oldest values.
    pub open spec fn claim_recv(self, count: int) -> Self {
        RingState {
            reading: self.reading + count,
            queue: self.queue.skip(count),
            cons_seq: seq_after(self.cons_seq, count),
            ..self
        }
    }

    /// The receiver that claimed first gives its `count` slots back.
    pub open spec fn release(self, count: int) -> Self {
        RingState { start: self.slot(count), reading: self.reading - count, ..self }
    }

    /// A sender claims slots for `items` and publishes them.
    pub open spec fn send(self, items: Seq<T>) -> Self {
        self.claim_send(items.len() as int).publish(items)
    }

    /// A receiver claims the `count` oldest values and gives their slots back.
    pub open spec fn recv(self, count: int) -> Self {
        self.claim_recv(count).release(count)
    }

    /// The last sender is gone.
    pub open spec fn close_senders(self) -> Self {
        RingState { senders_gone: true, ..self }
    }

    /// The last receiver is gone.
    pub open spec fn close_receivers(self) -> Self {
        RingState { receivers_gone: true, ..self }
    }

    /// There are that many senders and receivers: a side of which none is left is gone for good.
    pub open spec fn noted(self, senders: int, receivers: int) -> Self {
        RingState {
            senders_gone: self.senders_gone || senders == 0,
            receivers_gone: self.receivers_gone || receivers == 0,
            ..self
        }
    }
}

/// How an attempt ends of a sender that has seen the head word `prod_head` and the tail `cons_tail`
/// and wants up to `max_burst_len` slots, if the ring has become as given meanwhile.
pub open spec fn send_attempt<T>(
    s: RingState<T>,
    prod_head: usize,
    cons_tail: int,
    max_burst_len: int,
) -> Attempt {
    match send_plan(prod_head, cons_tail, s.capacity, max_burst_len) {
        Plan::Shutdown => Attempt::Shutdown,
        Plan::Blocked { expected } => if s.prod_head() == expected && s.free() == 0 {
            Attempt::Nothing
        } else {
            Attempt::Again { head: s.prod_head() }
        },
        Plan::Claim(claim) => if s.prod_head() == claim.expected && claim.burst_len <= s.free() {
            Attempt::Reserved(claim)
        } else {
            Attempt::Again { head: s.prod_head() }
        },
    }
}

/// How an attempt ends of a receiver that has seen the head word `cons_head` and the tail
/// `prod_tail` and wants up to `max_burst_len` values, if the ring has become as given meanwhile.
pub open spec fn recv_attempt<T>(
    s: RingState<T>,
    cons_head: usize,
    prod_tail: int,
    max_burst_len: int,
) -> Attempt {
    match recv_plan(cons_head, prod_tail, s.capacity, max_burst_len) {
        Plan::Shutdown => if s.cons_head() == cons_head && s.queue.len() == 0 {
            Attempt::Shutdown
        } else {
            Attempt::Again { head: s.cons_head() }
        },
        Plan::Blocked { expected } => if s.cons_head() == expected && s.queue.len() == 0 {
            Attempt::Nothing
        } else {
            Attempt::Again { head: s.cons_head() }
        },
        Plan::Claim(claim) => if s.cons_head() == claim.expected && claim.burst_len
            <= s.queue.len() {
            Attempt::Reserved(claim)
        } else {
            Attempt::Again { head: s.cons_head() }
        },
    }
}

/// What a sender gets that asks for up to `max_burst_len` slots, if the ring is as given.
pub open spec fn send_result<T>(s: RingState<T>, max_burst_len: int) -> Result<usize, Error> {
    if max_burst_len == 0 {
        Ok(0)
    } else if s.receivers_gone {
        Err(Error::Shutdown)
    } else {
        Ok(min(max_burst_len, s.free()) as usize)
    }
}

/// What a receiver gets that asks for up to `max_burst_len` values, if the ring is as given.
pub open spec fn recv_result<T>(s: RingState<T>, max_burst_len: int) -> Result<usize, Error> {
    if s.queue.len() == 0 && s.senders_gone {
        Err(Error::Shutdown)
    } else {
        Ok(min(max_burst_len, s.queue.len() as int) as usize)
    }
}

/// One step on a ring. The steps of all senders and receivers of a channel, however they
/// interleave, are taken one after the other.
pub enum Step<T> {
    /// A sender claims this many slots.
    ClaimSend(int),
    /// The sender that claimed first publishes these values.
    Publish(Seq<T>),
    /// A receiver claims this many values.
    ClaimRecv(int),
    /// The receiver that claimed first gives the slots of this claim back.
    Release(Claim),
    /// The last sender is gone.
    CloseSenders,
    /// The last receiver is gone.
    CloseReceivers,
}

impl<T> Step<T> {
    /// Whether the ring lets the step be taken.
    pub open spec fn enabled(self, s: RingState<T>) -> bool {
        match self {
            Step::ClaimSend(n) => 0 <= n <= s.free(),
            Step::Publish(items) => items.len() <= s.writing,
            Step::ClaimRecv(n) => 0 <= n <= s.queue.len(),
            Step::Release(claim) => claim.burst_len <= s.reading,
            Step::CloseSenders => true,
            Step::CloseReceivers => true,
        }
    }

    /// The ring after the step.
    pub open spec fn apply(self, s: RingState<T>) -> RingState<T> {
        match self {
            Step::ClaimSend(n) => s.claim_send(n),
            Step::Publish(items) => s.publish(items),
            Step::ClaimRecv(n) => s.claim_recv(n),
            Step::Release(claim) => s.release(claim.burst_len as int),
            Step::CloseSenders => s.close_senders(),
            Step::CloseReceivers => s.close_receivers(),
        }
    }

    /// The values that the step sends.
    pub open spec fn sent(self) -> Seq<T> {
        match self {
            Step::Publish(items) => items,
            _ => Seq::empty(),
        }
    }

    /// The values that the step receives.
    pub open spec fn received(self, s: RingState<T>) -> Seq<T> {
        match self {
            Step::ClaimRecv(n) => s.queue.take(n),
            _ => Seq::empty(),
        }
    }

    /// The number of slots that the step claims for writing.
    pub open spec fn claimed(self) -> int {
        match self {
            Step::ClaimSend(n) => n,
            _ => 0,
        }
    }

    /// The number of values that the step claims for reading.
    pub open spec fn taken(self) -> int {
        match self {
            Step::ClaimRecv(n) => n,
            _ => 0,
        }
    }
}

/// The steps that take note of how many senders and receivers there are.
pub open spec fn noting<T>(senders: int, receivers: int) -> Seq<Step<T>> {
    (if senders == 0 {
        seq![Step::CloseSenders]
    } else {
        seq![]
    }) + (if receivers == 0 {
        seq![Step::CloseReceivers]
    } else {
        seq![]
    })
}

/// Whether the ring `s` lets the steps be taken one after the other.
pub open spec fn can_run<T>(s: RingState<T>, steps: Seq<Step<T>>) -> bool
    decreases steps.len(),
{
    steps.len() == 0 || can_run(s, steps.drop_last()) && steps.last().enabled(
        run(s, steps.drop_last()),
    )
}

/// The ring that `s` becomes through the steps.
pub open spec fn run<T>(s: RingState<T>, steps: Seq<Step<T>>) -> RingState<T>
    decreases steps.len(),
{
    if steps.len() == 0 {
        s
    } else {
        steps.last().apply(run(s, steps.drop_last()))
    }
}

/// The values that the steps send, in the order of the steps.
pub open spec fn sent<T>(steps: Seq<Step<T>>) -> Seq<T>
    decreases steps.len(),
{
    if steps.len() == 0 {
        Seq::empty()
    } else {
        sent(steps.drop_last()) + steps.last().sent()
    }
}

/// The values that the steps receive from the ring `s`, in the order of the steps.
pub open spec fn received<T>(s: RingState<T>, steps: Seq<Step<T>>) -> Seq<T>
    decreases steps.len(),
{
    if steps.len() == 0 {
        Seq::empty()
    } else {
        received(s, steps.drop_last()) + steps.last().received(run(s, steps.drop_last()))
    }
}

/// The number of slots that the steps claim for writing.
pub open spec fn claimed<T>(steps: Seq<Step<T>>) -> int
    decreases steps.len(),
{
    if steps.len() == 0 {
        0
    } else {
        claimed(steps.drop_last()) + steps.last().claimed()
    }
}

/// The number of values that the steps claim for reading.
pub open spec fn taken<T>(steps: Seq<Step<T>>) -> int
    decreases steps.len(),
{
    if steps.len() == 0 {
        0
    } else {
        taken(steps.drop_last()) + steps.last().taken()
    }
}

/// Whether every burst that the steps publish meets the rule.
pub open spec fn bursts_meet<T>(steps: Seq<Step<T>>, rule: spec_fn(Seq<T>) -> bool) -> bool {
    forall|i: int|
        0 <= i < steps.len() && (#[trigger] steps[i]) is Publish ==> rule(steps[i]->Publish_0)
}

/// What an end of the channel answers when an attempt has ended. One that has to be made again has
/// no answer yet.
pub open spec fn answer_to(end: Attempt) -> Result<usize, Error> {
    match end {
        Attempt::Shutdown => Err(Error::Shutdown),
        Attempt::Reserved(claim) => Ok(claim.burst_len),
        _ => Ok(0),
    }
}

/// What an end of the channel answers when an attempt has ended.
pub fn answer(end: &Attempt) -> (r: Result<usize, Error>)
    requires
        !(*end is Again),
    ensures
        r == answer_to(*end),
{
    match end {
        Attempt::Shutdown => Err(Error::Shutdown),
        Attempt::Reserved(claim) => Ok(claim.burst_len),
        _ => Ok(0),
    }
}

}
