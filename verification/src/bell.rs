//! How the ends of a channel tell one another of values and of space.

use std::marker::PhantomData;
use std::sync::atomic::AtomicUsize;

use async_event::Event;
use vstd::prelude::*;

use crate::accord::Accord;
use crate::count::{Receiving, Seat, Sending};

verus! {

/// The event by which senders tell receivers of new values. Whoever is counted among those whom it is for can
/// wait on it.
#[verifier::reject_recursive_types(S)]
pub(crate) struct ArrivalBell<S> {
    event: Event,
    count: Ghost<AtomicUsize>,
    accord: PhantomData<S>,
}

impl<S> ArrivalBell<S> {
    /// The event itself.
    pub closed spec fn event(&self) -> Event {
        self.event
    }

    /// The count of those whom it is for.
    pub closed spec fn count(&self) -> AtomicUsize {
        self.count@
    }

    /// An event for those in the count, on which nobody waits yet.
    pub fn new(count: Ghost<AtomicUsize>) -> (bell: Self)
        ensures
            bell.count() == count@,
    {
        ArrivalBell { event: Event::new(), count, accord: PhantomData }
    }

    /// The event, for who has a seat.
    pub fn listen(&self, seat: &Seat<Receiving, S>) -> (event: &Event)
        requires
            seat.count() == self.count(),
        ensures
            *event == self.event(),
    {
        &self.event
    }

    /// Tells everybody who waits that so many values were sent.
    pub fn ring<T>(&self, count: usize) where S: Accord<T>
        requires
            0 < count,
            <S as Accord<T>>::is_news(count),
        ensures
            call_ensures(Event::notify_all, (&self.event(),), ()),
    {
        self.event.notify_all();
    }
}

/// The event by which receivers tell senders of new space. Whoever is counted among those whom it is for can
/// wait on it.
#[verifier::reject_recursive_types(S)]
pub(crate) struct SpaceBell<S> {
    event: Event,
    count: Ghost<AtomicUsize>,
    accord: PhantomData<S>,
}

impl<S> SpaceBell<S> {
    /// The event itself.
    pub closed spec fn event(&self) -> Event {
        self.event
    }

    /// The count of those whom it is for.
    pub closed spec fn count(&self) -> AtomicUsize {
        self.count@
    }

    /// An event for those in the count, on which nobody waits yet.
    pub fn new(count: Ghost<AtomicUsize>) -> (bell: Self)
        ensures
            bell.count() == count@,
    {
        SpaceBell { event: Event::new(), count, accord: PhantomData }
    }

    /// The event, for who has a seat.
    pub fn listen(&self, seat: &Seat<Sending, S>) -> (event: &Event)
        requires
            seat.count() == self.count(),
        ensures
            *event == self.event(),
    {
        &self.event
    }

    /// Tells everybody who waits that so many values were received.
    pub fn ring<T>(&self, count: usize) where S: Accord<T>
        requires
            0 < count,
            <S as Accord<T>>::is_space(count),
        ensures
            call_ensures(Event::notify_all, (&self.event(),), ()),
    {
        self.event.notify_all();
    }
}

}
