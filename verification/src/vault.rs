//! The lock that the ring of a channel is behind. It is opened and closed here and nowhere else, and
//! it is closed on a new claim only in exchange for the closure that the claim is for.

use std::marker::PhantomData;
use std::sync::Arc;

use vstd::prelude::*;
use vstd::rwlock::{RwLock, WriteHandle};

use crate::accord::Accord;
use crate::burst::{read_burst, write_burst};
use crate::count::{found_at, Receiving, Sending, Tally};
use crate::handle::{filled, values, Read, Slot, Write};
use crate::model::{claimed, taken, RingState, Step};
use crate::plan::{min, Claim};
use crate::ring::Ring;
use crate::shared::{put_back, took_out, Terms};
use crate::word::index_limit;

verus! {

/// The closure of a sender that has claimed its slots. It can be called to write them, and for
/// nothing else: no other slots are claimed for it.
pub struct Writer<F> {
    write_fn: F,
}

impl<F> Writer<F> {
    /// The closure.
    pub closed spec fn write_fn(self) -> F {
        self.write_fn
    }

    /// Has the closure write the values for `claim`, which was made on a ring of `capacity` slots.
    pub fn write<T>(self, claim: &Claim, capacity: usize) -> (items: Vec<Slot<T>>) where
        F: FnOnce(Write<T>),

        requires
            claim.is_on(capacity as int),
            0 < claim.burst_len,
            forall|w: Write<T>|
                w.is_offer(claim.burst_len as int, capacity - 1) && w@.len() == claim.burst_len
                    ==> #[trigger] call_requires(self.write_fn(), (w,)),
            forall|w: Write<T>|
                w.is_offer(claim.burst_len as int, capacity - 1) && w@.len() == claim.burst_len
                    && #[trigger] call_ensures(self.write_fn(), (w,), ()) ==> w.may_be_left_as(
                    match w.back() {
                        Some(back) => final(w.front())@ + final(back)@,
                        None => final(w.front())@,
                    },
                ),
        ensures
            items@.len() == claim.burst_len,
            filled(items@),
            exists|w: Write<T>|
                {
                    &&& w.is_offer(claim.burst_len as int, capacity - 1)
                    &&& w@.len() == claim.burst_len
                    &&& w.front()@.len() == min(claim.burst_len as int, capacity - claim.start)
                    &&& #[trigger] call_ensures(self.write_fn(), (w,), ())
                    &&& items@ == match w.back() {
                        Some(back) => final(w.front())@ + final(back)@,
                        None => final(w.front())@,
                    }
                },
    {
        let write_fn = self.write_fn;
        assert(write_fn == self.write_fn());
        write_burst(claim, capacity, write_fn)
    }
}

/// The closure of a receiver that has claimed its values. It can be called to read them, and for
/// nothing else: no other values are claimed for it.
pub struct Reader<F> {
    read_fn: F,
}

impl<F> Reader<F> {
    /// The closure.
    pub closed spec fn read_fn(self) -> F {
        self.read_fn
    }

    /// Has the closure read the values that `claim`, which was made on a ring of `capacity` slots,
    /// took out of the ring, and gives what it left.
    pub fn read<T>(self, claim: &Claim, capacity: usize, items: Vec<Slot<T>>) -> (rest: Vec<
        Slot<T>,
    >) where F: FnOnce(Read<T>)
        requires
            claim.is_on(capacity as int),
            items@.len() == claim.burst_len,
            filled(items@),
            forall|read: Read<T>|
                read.is_offer(claim.burst_len as int, capacity - 1) && read@ == values(items@)
                    ==> #[trigger] call_requires(self.read_fn(), (read,)),
        ensures
            exists|read: Read<T>|
                {
                    &&& read.is_offer(claim.burst_len as int, capacity - 1)
                    &&& read@ == values(items@)
                    &&& read.front()@.len() == min(claim.burst_len as int, capacity - claim.start)
                    &&& #[trigger] call_ensures(self.read_fn(), (read,), ())
                    &&& rest@ == match read.back() {
                        Some(back) => final(read.front())@ + final(back)@,
                        None => final(read.front())@,
                    }
                },
    {
        let read_fn = self.read_fn;
        assert(read_fn == self.read_fn());
        read_burst(claim, capacity, items, read_fn)
    }
}

/// The lock, with the counts that are noted in the ring whenever it is opened.
#[verifier::reject_recursive_types(T)]
#[verifier::reject_recursive_types(S)]
pub(crate) struct Vault<T, S: Accord<T>> {
    lock: RwLock<Ring<T>, Terms<T, S>>,
    senders: Arc<Tally<Sending>>,
    receivers: Arc<Tally<Receiving>>,
}

impl<T, S: Accord<T>> Vault<T, S> {
    #[verifier::type_invariant]
    spec fn wf(self) -> bool {
        &&& self.lock.pred().senders == self.senders.count()
        &&& self.lock.pred().receivers == self.receivers.count()
    }

    /// The lock itself.
    pub closed spec fn lock(&self) -> RwLock<Ring<T>, Terms<T, S>> {
        self.lock
    }

    /// A lock with a fresh ring of `capacity` slots behind it.
    pub fn new(
        capacity: usize,
        rule: Ghost<spec_fn(Seq<T>) -> bool>,
        senders: Arc<Tally<Sending>>,
        receivers: Arc<Tally<Receiving>>,
    ) -> (vault: Self)
        requires
            0 < capacity <= index_limit(),
        ensures
            vault.lock().pred().capacity == capacity,
            vault.lock().pred().rule == rule@,
            vault.lock().pred().senders == senders.count(),
            vault.lock().pred().receivers == receivers.count(),
            exists|ring: Ring<T>, terms: Ghost<Terms<T, S>>|
                {
                    &&& ring@ == RingState::<T>::fresh(capacity as int)
                    &&& ring.steps().len() == 0
                    &&& #[trigger] call_ensures(
                        RwLock::<Ring<T>, Terms<T, S>>::new,
                        (ring, terms),
                        vault.lock(),
                    )
                },
    {
        let ghost terms = Terms {
            capacity: capacity as int,
            rule: rule@,
            senders: senders.count(),
            receivers: receivers.count(),
            accord: PhantomData,
        };
        let ring = Ring::new(capacity);
        let ghost first = ring;
        let lock = RwLock::new(ring, Ghost(terms));
        assert(call_ensures(RwLock::<Ring<T>, Terms<T, S>>::new, (first, Ghost(terms)), lock));
        Vault { lock, senders, receivers }
    }

    /// The number of senders.
    pub fn senders(&self) -> (count: &Tally<Sending>)
        ensures
            count.count() == self.lock().pred().senders,
        opens_invariants none
        no_unwind
    {
        proof {
            use_type_invariant(self);
        }
        &self.senders
    }

    /// The number of receivers.
    pub fn receivers(&self) -> (count: &Tally<Receiving>)
        ensures
            count.count() == self.lock().pred().receivers,
        opens_invariants none
        no_unwind
    {
        proof {
            use_type_invariant(self);
        }
        &self.receivers
    }

    /// Takes the ring out, for one step, and notes in it whether either side is gone.
    pub fn open(&self) -> (r: (Ring<T>, Latch<'_, T, S>))
        ensures
            took_out(self.lock(), r.0),
            r.1.lock() == self.lock(),
            r.1.found() == r.0,
    {
        let (mut ring, handle) = self.lock.acquire_write();
        let ghost found = ring;
        let sender_count: usize = self.senders().look();
        let receiver_count: usize = self.receivers().look();
        ring.note_counts(sender_count, receiver_count);
        assert(call_ensures(
            RwLock::<Ring<T>, Terms<T, S>>::acquire_write,
            (&self.lock,),
            (found, handle),
        ));
        assert(found_at(self.lock.pred().senders, sender_count));
        assert(found_at(self.lock.pred().receivers, receiver_count));
        let ghost noted = ring;
        (ring, Latch { handle, found: Ghost(noted) })
    }
}

/// What it takes to put the ring back.
#[verifier::reject_recursive_types(T)]
#[verifier::reject_recursive_types(S)]
pub(crate) struct Latch<'a, T, S: Accord<T>> {
    handle: WriteHandle<'a, Ring<T>, Terms<T, S>>,
    found: Ghost<Ring<T>>,
}

impl<'a, T, S: Accord<T>> Latch<'a, T, S> {
    /// The lock that was opened.
    pub closed spec fn lock(self) -> RwLock<Ring<T>, Terms<T, S>> {
        self.handle.rwlock()
    }

    /// The ring as it was found.
    pub closed spec fn found(self) -> Ring<T> {
        self.found@
    }

    /// Puts the ring back with no new claim on it.
    pub fn close(self, ring: Ring<T>)
        requires
            self.lock().pred().allow(ring),
            claimed(ring.steps()) == claimed(self.found().steps()),
            taken(ring.steps()) == taken(self.found().steps()),
        ensures
            put_back(self.lock(), ring),
    {
        self.handle.release_write(ring);
    }

    /// Puts the ring back with one new claim of a sender on it, which is for `write_fn`.
    pub fn close_for_writer<F: FnOnce(Write<T>)>(
        self,
        ring: Ring<T>,
        max_burst_len: Ghost<usize>,
        write_fn: F,
    ) -> (writer: Writer<F>)
        requires
            self.lock().pred().allow(ring),
            exists|count: int|
                0 < count <= max_burst_len@ && ring.steps() == #[trigger] self.found().steps().push(
                    Step::ClaimSend(count),
                ),
            forall|w: Write<T>|
                w.is_offer(max_burst_len@ as int, self.lock().pred().capacity - 1)
                    ==> #[trigger] call_requires(write_fn, (w,)),
            forall|w: Write<T>|
                w.is_offer(max_burst_len@ as int, self.lock().pred().capacity - 1)
                    && #[trigger] call_ensures(write_fn, (w,), ()) ==> self.lock().pred().accept(
                    w,
                    match w.back() {
                        Some(back) => final(w.front())@ + final(back)@,
                        None => final(w.front())@,
                    },
                ),
        ensures
            put_back(self.lock(), ring),
            writer.write_fn() == write_fn,
    {
        self.handle.release_write(ring);
        Writer { write_fn }
    }

    /// Puts the ring back with one new claim of a receiver on it, which is for `read_fn`.
    pub fn close_for_reader<F: FnOnce(Read<T>)>(
        self,
        ring: Ring<T>,
        max_burst_len: Ghost<usize>,
        read_fn: F,
    ) -> (reader: Reader<F>)
        requires
            self.lock().pred().allow(ring),
            exists|count: int|
                0 <= count <= max_burst_len@ && ring.steps() == #[trigger] self.found().steps().push(
                    Step::ClaimRecv(count),
                ),
            self.lock().pred().is_heard_by(max_burst_len@, read_fn),
        ensures
            put_back(self.lock(), ring),
            reader.read_fn() == read_fn,
    {
        self.handle.release_write(ring);
        Reader { read_fn }
    }
}

}
