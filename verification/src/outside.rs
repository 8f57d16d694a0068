//! What the channel takes from other crates and from `std`, with what is relied on.

use std::sync::atomic::{AtomicUsize, Ordering};

use async_event::Event;
use crossbeam_utils::Backoff;
use vstd::prelude::*;

verus! {

/// `async_event::Event`: lets tasks wait for a change and be told of one. Nothing is relied on but
/// that it can be made and notified.
#[verifier::external_type_specification]
#[verifier::external_body]
pub struct ExEvent(Event);

/// `Event::new` makes an event on which no task waits. Nothing is claimed of the result.
pub assume_specification[ Event::new ]() -> Event;

/// `Event::notify_all` wakes every task that waits on the event, so that it checks its condition
/// again. Which tasks those are depends on the other threads; nothing is claimed.
pub assume_specification[ Event::notify_all ](event: &Event);

/// `crossbeam_utils::Backoff`: counts the rounds of a busy loop, to wait longer in each. Nothing
/// is relied on but that a round comes to an end.
#[verifier::external_type_specification]
#[verifier::external_body]
pub struct ExBackoff(Backoff);

/// `Backoff::new` makes a counter at the shortest wait. Nothing is claimed of the result.
pub assume_specification[ Backoff::new ]() -> Backoff;

/// `Backoff::spin` waits a moment in a busy loop. Nothing is claimed but that it returns.
pub assume_specification[ Backoff::spin ](backoff: &Backoff);

/// `Backoff::snooze` waits a moment, in later rounds by yielding the thread. Nothing is claimed
/// but that it returns.
pub assume_specification[ Backoff::snooze ](backoff: &Backoff);

/// `AtomicUsize::fetch_sub` with a decrement of one: gives the count before. The count depends on
/// the other threads, so that nothing is claimed of it but that this call gave it; the call wraps
/// round and does not panic, which is what a destructor needs to know.
#[verifier::external_body]
pub(crate) fn count_down(count: &AtomicUsize) -> (before: usize)
    ensures
        call_ensures(AtomicUsize::fetch_sub, (count, 1usize, Ordering::AcqRel), before),
    opens_invariants none
    no_unwind
{
    count.fetch_sub(1, Ordering::AcqRel)
}

}
