//! What the users of a channel agree on, and what the channel has to know to take a step.

use vstd::prelude::*;

use crate::handle::{values, Slot};
use crate::model::Step;
use crate::plan::{Attempt, Claim};
use crate::ring::Ring;
use crate::step::recv_step;

verus! {

/// What the users of a channel agree on. The channel knows nothing of it but what the users tell it
/// with each call, so that it can do nothing that it was not asked for: it claims slots only for who
/// may send, it claims values only for who may receive, it gives the slots of values back only once
/// these were heard, which nobody but the closure of a receiver can see to, and it tells the other
/// side of nothing but what is news to it.
pub trait Accord<T> {
    /// Whether somebody wants to send up to `max_burst_len` values.
    spec fn may_send(max_burst_len: usize) -> bool;

    /// Whether somebody wants to receive up to `max_burst_len` values.
    spec fn may_receive(max_burst_len: usize) -> bool;

    /// Whether the closure of a receiver has seen to the values.
    spec fn heard(items: Seq<T>) -> bool;

    /// Whether it is news to receivers that so many values were sent.
    spec fn is_news(count: usize) -> bool;

    /// Whether it is news to senders that so many values were received.
    spec fn is_space(count: usize) -> bool;
}

/// That the ends of a channel may be cloned. Only who clones an end knows of it.
pub trait Open {

}

impl Open for Free {

}

/// No agreement: everybody may send and receive whatever they want, and a closure may do with the
/// values what it likes.
pub struct Free;

impl<T> Accord<T> for Free {
    open spec fn may_send(max_burst_len: usize) -> bool {
        true
    }

    open spec fn may_receive(max_burst_len: usize) -> bool {
        true
    }

    open spec fn heard(items: Seq<T>) -> bool {
        true
    }

    open spec fn is_news(count: usize) -> bool {
        true
    }

    open spec fn is_space(count: usize) -> bool {
        true
    }
}

/// Whether somebody wants to send that many values or more.
pub open spec fn is_room_wanted<T, S: Accord<T>>(count: int) -> bool {
    exists|max_burst_len: usize| #[trigger] S::may_send(max_burst_len) && count <= max_burst_len
}

/// Whether somebody wants to receive that many values or more.
pub open spec fn are_values_wanted<T, S: Accord<T>>(count: int) -> bool {
    exists|max_burst_len: usize| #[trigger] S::may_receive(max_burst_len) && count <= max_burst_len
}

/// Whether the values that a receiver got with `claim` were heard.
pub open spec fn was_heard<T, S: Accord<T>>(claim: Claim) -> bool {
    exists|ring: Ring<T>, look: (usize, usize, usize), after: Ring<T>, taken: Vec<Slot<T>>|
        {
            &&& #[trigger] call_ensures(
                recv_step::<T>,
                (ring, look),
                (after, (Attempt::Reserved(claim), taken)),
            )
            &&& S::heard(values(taken@))
        }
}

/// Whether the step is one that somebody has asked for.
pub open spec fn is_called_for<T, S: Accord<T>>(step: Step<T>) -> bool {
    match step {
        Step::ClaimSend(count) => is_room_wanted::<T, S>(count),
        Step::ClaimRecv(count) => are_values_wanted::<T, S>(count),
        Step::Release(claim) => was_heard::<T, S>(claim),
        _ => true,
    }
}

/// Whether each of the steps is one that somebody has asked for.
pub open spec fn are_called_for<T, S: Accord<T>>(steps: Seq<Step<T>>) -> bool {
    forall|i: int| 0 <= i < steps.len() ==> is_called_for::<T, S>(#[trigger] steps[i])
}

}
