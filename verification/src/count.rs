//! How the ends of a channel are counted. What a count is at a given time depends on every thread
//! that holds an end; what can be said is which calls were made on it.

use std::marker::PhantomData;
use std::sync::atomic::{AtomicUsize, Ordering};
use std::sync::Arc;

use vstd::prelude::*;

use crate::accord::Open;
use crate::outside::count_down;

verus! {

/// Whether the count was made, at one.
pub open spec fn counts_from_one(count: AtomicUsize) -> bool {
    call_ensures(AtomicUsize::new, (1usize,), count)
}

/// Whether one was added to the count.
pub open spec fn counted_up(count: AtomicUsize) -> bool {
    exists|n: usize|
        #[trigger] call_ensures(AtomicUsize::fetch_add, (&count, 1usize, Ordering::Relaxed), n)
}

/// Whether one was taken from the count.
pub open spec fn counted_down(count: AtomicUsize) -> bool {
    exists|n: usize|
        #[trigger] call_ensures(AtomicUsize::fetch_sub, (&count, 1usize, Ordering::AcqRel), n)
}

/// Whether the count was found to be `n`.
pub open spec fn found_at(count: AtomicUsize, n: usize) -> bool {
    call_ensures(AtomicUsize::load, (&count, Ordering::Acquire), n)
}

/// The side of the senders.
pub struct Sending;

/// The side of the receivers.
pub struct Receiving;

/// The number of ends on one side of a channel. Everybody can look at it, but only who holds a seat
/// can change it.
pub struct Tally<E> {
    count: AtomicUsize,
    kept: Ghost<bool>,
    side: PhantomData<E>,
}

impl<E> Tally<E> {
    /// The count itself.
    pub closed spec fn count(&self) -> AtomicUsize {
        self.count
    }

    /// Whether it is for the holder of a seat to change the count, which nobody else can know.
    closed spec fn kept(&self) -> bool {
        self.kept@
    }

    /// A count of one, and the seat that it counts.
    pub fn start<S>() -> (r: (Arc<Tally<E>>, Seat<E, S>))
        ensures
            counts_from_one(r.0.count()),
            r.1.count() == r.0.count(),
            r.1.is_taken(),
    {
        let tally = Arc::new(
            Tally { count: AtomicUsize::new(1), kept: Ghost(true), side: PhantomData },
        );
        let seat = Seat { tally: tally.clone(), left: false, accord: PhantomData };
        (tally, seat)
    }

    /// The present count.
    pub fn look(&self) -> (n: usize)
        ensures
            found_at(self.count(), n),
    {
        self.count.load(Ordering::Acquire)
    }

    /// Adds one.
    fn up(&self)
        requires
            self.kept(),
        ensures
            counted_up(self.count()),
    {
        let before: usize = self.count.fetch_add(1, Ordering::Relaxed);
        assert(call_ensures(
            AtomicUsize::fetch_add,
            (&self.count, 1usize, Ordering::Relaxed),
            before,
        ));
    }

    /// Takes one away.
    fn down(&self)
        requires
            self.kept(),
        ensures
            counted_down(self.count()),
        opens_invariants none
        no_unwind
    {
        let _ = count_down(&self.count);
    }
}

/// The place of one end in the count of its side. It is counted as long as it is there, whoever
/// holds it: a seat comes with one that is added to the count, and takes one away, once, when it is
/// left or dropped.
pub struct Seat<E, S> {
    tally: Arc<Tally<E>>,
    left: bool,
    accord: PhantomData<S>,
}

impl<E, S> Seat<E, S> {
    #[verifier::type_invariant]
    spec fn wf(self) -> bool {
        &&& self.tally.kept()
        &&& self.left ==> counted_down(self.tally.count())
    }

    /// The count that this seat is part of.
    pub closed spec fn count(&self) -> AtomicUsize {
        self.tally.count()
    }

    /// Whether the seat is not left yet.
    pub closed spec fn is_taken(&self) -> bool {
        !self.left
    }

    /// Leaves the seat, unless it was left before.
    pub fn leave(&mut self)
        ensures
            final(self).count() == old(self).count(),
            counted_down(old(self).count()),
        opens_invariants none
        no_unwind
    {
        proof {
            use_type_invariant(&*self);
        }
        if !self.left {
            self.tally.down();
            self.left = true;
        }
    }
}

impl<E, S: Open> Seat<E, S> {
    /// One more seat on the same side.
    pub fn another(&self) -> (other: Seat<E, S>)
        ensures
            other.is_taken(),
            other.count() == self.count(),
            counted_up(self.count()),
    {
        proof {
            use_type_invariant(self);
        }
        self.tally.up();
        Seat { tally: self.tally.clone(), left: false, accord: PhantomData }
    }
}

impl<E, S> Drop for Seat<E, S> {
    /// A seat that is given up is left.
    fn drop(&mut self)
        ensures
            final(self).count() == old(self).count(),
            counted_down(old(self).count()),
        opens_invariants none
        no_unwind
    {
        self.leave();
    }
}

}
