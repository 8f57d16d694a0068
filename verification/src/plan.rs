//! What one end of the ring does next, given the head word and the opposite tail that it has seen.

use vstd::prelude::*;

use crate::word::{
    index_limit, index_of, is_shutdown, next_tag, pack, packed, seq_after, tag_of, word_index,
    word_round_trip, word_seq, word_shutdown,
};

verus! {

/// The index `count` slots after `index` in a ring of `capacity` slots.
pub open spec fn ring_step(index: int, count: int, capacity: int) -> int {
    (index + count) % capacity
}

/// The number of slots from `from` up to, and without, `to` in a ring of `capacity` slots.
pub open spec fn ring_distance(from: int, to: int, capacity: int) -> int {
    (to - from) % capacity
}

/// The number of slots that a sender can claim when the next one to write is `prod_head` and the
/// oldest one still in use is `cons_tail`. One slot always stays unused, so that a full ring
/// differs from an empty one.
pub open spec fn free_entries(prod_head: int, cons_tail: int, capacity: int) -> int {
    capacity - 1 - ring_distance(cons_tail, prod_head, capacity)
}

/// The number of values that a receiver can claim when the next one to read is at `cons_head` and
/// everything before `prod_tail` is written.
pub open spec fn entries(cons_head: int, prod_tail: int, capacity: int) -> int {
    ring_distance(cons_head, prod_tail, capacity)
}

/// The smaller of two numbers.
pub open spec fn min(a: int, b: int) -> int {
    if a <= b {
        a
    } else {
        b
    }
}

/// A claim of `burst_len` slots at one end of the ring: to be made by exchanging the head word
/// `expected` for `desired`.
#[derive(Clone, Copy, Debug, PartialEq, Eq, Structural)]
pub struct Claim {
    pub expected: usize,
    pub desired: usize,
    pub start: usize,
    pub next: usize,
    pub burst_len: usize,
}

/// The claim of `burst_len` slots from the head word `head` on.
pub open spec fn claim_at(head: usize, burst_len: int, capacity: int) -> Claim {
    let start = word_index(head);
    let next = ring_step(start, burst_len, capacity);
    let seq = seq_after(word_seq(head), burst_len);
    Claim {
        expected: head,
        desired: packed(next, seq, word_shutdown(head)) as usize,
        start: start as usize,
        next: next as usize,
        burst_len: burst_len as usize,
    }
}

impl Claim {
    /// Whether this is a claim on a ring of `capacity` slots.
    pub open spec fn is_on(self, capacity: int) -> bool {
        &&& self == claim_at(self.expected, self.burst_len as int, capacity)
        &&& self.start < capacity
        &&& self.burst_len < capacity
        &&& self.next == ring_step(self.start as int, self.burst_len as int, capacity)
    }
}

/// What one end of the ring does next.
#[derive(Clone, Copy, Debug, PartialEq, Eq, Structural)]
pub enum Plan {
    /// The other side of the channel is gone.
    Shutdown,
    /// There is nothing to claim, provided that the head word still is `expected`.
    Blocked { expected: usize },
    /// Claim these slots.
    Claim(Claim),
}

/// How an attempt to claim slots ends.
#[derive(Clone, Copy, Debug, PartialEq, Eq, Structural)]
pub enum Attempt {
    /// The other side of the channel is gone.
    Shutdown,
    /// There is nothing to claim.
    Nothing,
    /// These slots are claimed.
    Reserved(Claim),
    /// The head word is no longer the one that was seen, but `head`: another end came first.
    Again { head: usize },
}

/// What a sender does next.
pub open spec fn send_plan(prod_head: usize, cons_tail: int, capacity: int, max_burst_len: int) -> Plan {
    let free = free_entries(word_index(prod_head), cons_tail, capacity);
    if word_shutdown(prod_head) {
        Plan::Shutdown
    } else if free == 0 {
        Plan::Blocked { expected: prod_head }
    } else {
        Plan::Claim(claim_at(prod_head, min(max_burst_len, free), capacity))
    }
}

/// What a receiver does next.
pub open spec fn recv_plan(cons_head: usize, prod_tail: int, capacity: int, max_burst_len: int) -> Plan {
    let ready = entries(word_index(cons_head), prod_tail, capacity);
    if ready == 0 && word_shutdown(cons_head) {
        Plan::Shutdown
    } else if ready == 0 {
        Plan::Blocked { expected: cons_head }
    } else {
        Plan::Claim(claim_at(cons_head, min(max_burst_len, ready), capacity))
    }
}

/// Stepping and measuring in the ring, by cases on whether its end is passed.
pub proof fn lemma_ring(capacity: int)
    requires
        capacity > 0,
    ensures
        forall|i: int, n: int|
            0 <= i < capacity && 0 <= n <= capacity ==> #[trigger] ring_step(i, n, capacity) == if i
                + n < capacity {
                i + n
            } else {
                i + n - capacity
            },
        forall|a: int, b: int|
            0 <= a < capacity && 0 <= b < capacity ==> #[trigger] ring_distance(a, b, capacity)
                == if a <= b {
                b - a
            } else {
                capacity - a + b
            },
{
    assert forall|i: int, n: int| 0 <= i < capacity && 0 <= n <= capacity implies #[trigger] ring_step(
        i,
        n,
        capacity,
    ) == if i + n < capacity {
        i + n
    } else {
        i + n - capacity
    } by {
        lemma_mod_by_cases(i + n, capacity);
    }
    assert forall|a: int, b: int|
        0 <= a < capacity && 0 <= b < capacity implies #[trigger] ring_distance(a, b, capacity)
        == if a <= b {
        b - a
    } else {
        capacity - a + b
    } by {
        lemma_mod_by_cases(b - a, capacity);
    }
}

proof fn lemma_mod_by_cases(x: int, capacity: int)
    requires
        capacity > 0,
        -capacity < x < 2 * capacity,
    ensures
        x % capacity == if x < 0 {
            x + capacity
        } else if x < capacity {
            x
        } else {
            x - capacity
        },
{
    if x < 0 {
        vstd::arithmetic::div_mod::lemma_mod_add_multiples_vanish(x, capacity);
        vstd::arithmetic::div_mod::lemma_small_mod((x + capacity) as nat, capacity as nat);
    } else if x < capacity {
        vstd::arithmetic::div_mod::lemma_small_mod(x as nat, capacity as nat);
    } else {
        vstd::arithmetic::div_mod::lemma_mod_sub_multiples_vanish(x, capacity);
        vstd::arithmetic::div_mod::lemma_small_mod((x - capacity) as nat, capacity as nat);
    }
}

/// A planned claim is on the ring, starts at the head, and is no longer than what was asked for.
pub proof fn plans_are_on_the_ring(head: usize, tail: int, capacity: int, max_burst_len: int)
    requires
        word_index(head) < capacity <= index_limit(),
        0 <= tail < capacity,
        0 <= max_burst_len,
    ensures
        ({
            let plan = send_plan(head, tail, capacity, max_burst_len);
            plan is Claim ==> {
                &&& plan->Claim_0.is_on(capacity)
                &&& plan->Claim_0.expected == head
                &&& plan->Claim_0.start == word_index(head)
                &&& plan->Claim_0.burst_len <= max_burst_len
                &&& max_burst_len > 0 ==> plan->Claim_0.burst_len > 0
            }
        }),
        ({
            let plan = recv_plan(head, tail, capacity, max_burst_len);
            plan is Claim ==> {
                &&& plan->Claim_0.is_on(capacity)
                &&& plan->Claim_0.expected == head
                &&& plan->Claim_0.start == word_index(head)
                &&& plan->Claim_0.burst_len <= max_burst_len
                &&& max_burst_len > 0 ==> plan->Claim_0.burst_len > 0
            }
        }),
{
    lemma_ring(capacity);
    word_round_trip(head, 0, 0, false);
}

/// Works out the claim of `burst_len` slots from the head word `head` on.
fn claim(head: usize, burst_len: usize, capacity: usize) -> (c: Claim)
    requires
        word_index(head) < capacity <= index_limit(),
        burst_len < capacity,
    ensures
        c == claim_at(head, burst_len as int, capacity as int),
{
    proof {
        word_round_trip(head, 0, 0, false);
        lemma_ring(capacity as int);
    }
    let start: usize = index_of(head);
    let next: usize = (start + burst_len) % capacity;
    let tag: usize = tag_of(head);
    let after: usize = next_tag(tag, burst_len);
    let desired: usize = pack(next, after, is_shutdown(head));
    Claim { expected: head, desired, start, next, burst_len }
}

/// Decides what a sender does next that has seen `prod_head` and `cons_tail`: as many slots as are
/// free, up to `max_burst_len`, are claimed.
pub fn plan_send(prod_head: usize, cons_tail: usize, capacity: usize, max_burst_len: usize) -> (plan: Plan)
    requires
        word_index(prod_head) < capacity <= index_limit(),
        cons_tail < capacity,
    ensures
        plan == send_plan(prod_head, cons_tail as int, capacity as int, max_burst_len as int),
{
    proof {
        lemma_ring(capacity as int);
    }
    if is_shutdown(prod_head) {
        return Plan::Shutdown;
    }
    let head: usize = index_of(prod_head);
    let free: usize = if cons_tail > head {
        cons_tail - head - 1
    } else {
        capacity - 1 - head + cons_tail
    };
    if free == 0 {
        return Plan::Blocked { expected: prod_head };
    }
    let burst_len: usize = if max_burst_len <= free {
        max_burst_len
    } else {
        free
    };
    Plan::Claim(claim(prod_head, burst_len, capacity))
}

/// Decides what a receiver does next that has seen `cons_head` and `prod_tail`: as many values as
/// are there, up to `max_burst_len`, are claimed, and only an empty ring can be shut down.
pub fn plan_recv(cons_head: usize, prod_tail: usize, capacity: usize, max_burst_len: usize) -> (plan: Plan)
    requires
        word_index(cons_head) < capacity <= index_limit(),
        prod_tail < capacity,
    ensures
        plan == recv_plan(cons_head, prod_tail as int, capacity as int, max_burst_len as int),
{
    proof {
        lemma_ring(capacity as int);
    }
    let head: usize = index_of(cons_head);
    let ready: usize = if prod_tail >= head {
        prod_tail - head
    } else {
        capacity - head + prod_tail
    };
    if ready == 0 {
        if is_shutdown(cons_head) {
            return Plan::Shutdown;
        }
        return Plan::Blocked { expected: cons_head };
    }
    let burst_len: usize = if max_burst_len <= ready {
        max_burst_len
    } else {
        ready
    };
    Plan::Claim(claim(cons_head, burst_len, capacity))
}

/// Works out how many of the claimed slots lie before the end of the ring. The others, if any,
/// continue at its start.
pub fn front_len(claim: &Claim, capacity: usize) -> (n: usize)
    requires
        claim.is_on(capacity as int),
    ensures
        n == min(claim.burst_len as int, capacity - claim.start),
{
    proof {
        lemma_ring(capacity as int);
    }
    if claim.next > claim.start || claim.next == 0 || claim.burst_len == 0 {
        claim.burst_len
    } else {
        capacity - claim.start
    }
}

}
