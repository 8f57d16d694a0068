//! Reservation handles: what a sender writes through and a receiver reads through.

use std::mem::ManuallyDrop;

use vstd::prelude::*;
use vstd::std_specs::iter::IteratorSpecImpl;

verus! {

/// One slot of the ring: empty, or holding a value that the slot never drops by itself.
pub type Slot<T> = Option<ManuallyDrop<T>>;

/// Whether every slot is empty.
pub open spec fn blank<T>(slots: Seq<Slot<T>>) -> bool {
    forall|i: int| 0 <= i < slots.len() ==> #[trigger] slots[i] is None
}

/// Whether every slot holds a value.
pub open spec fn filled<T>(slots: Seq<Slot<T>>) -> bool {
    forall|i: int| 0 <= i < slots.len() ==> #[trigger] slots[i] is Some
}

/// The values that slots hold, in order.
pub open spec fn values<T>(slots: Seq<Slot<T>>) -> Seq<T> {
    Seq::new(slots.len(), |i: int| slots[i]->0@)
}

/// Whether slots hold exactly the given values.
pub open spec fn holds<T>(slots: Seq<Slot<T>>, items: Seq<T>) -> bool {
    &&& slots.len() == items.len()
    &&& forall|i: int|
        0 <= i < slots.len() ==> #[trigger] slots[i] is Some && slots[i]->0@ == items[i]
}

/// Whether the slots `after` are the slots `before` with `value` written at `index`.
pub open spec fn written_at<T>(
    before: Seq<Slot<T>>,
    after: Seq<Slot<T>>,
    index: int,
    value: T,
) -> bool {
    &&& after.len() == before.len()
    &&& forall|i: int| 0 <= i < before.len() && i != index ==> #[trigger] after[i] == before[i]
    &&& 0 <= index < before.len() ==> after[index] is Some && after[index]->0@ == value
}

/// A handle to write to some reserved region of the queue. The reserved region must be written in
/// its entirety before this handle is dropped.
pub struct Write<'a, T> {
    front: &'a mut [Slot<T>],
    back: Option<&'a mut [Slot<T>]>,
}

impl<'a, T> Write<'a, T> {
    /// A handle over all of `slots`, the first `front_len` of which lie before the end of the ring.
    pub(crate) fn new(slots: &'a mut [Slot<T>], front_len: usize) -> (w: Self)
        requires
            front_len <= old(slots)@.len(),
        ensures
            w.front()@ == old(slots)@.take(front_len as int),
            w.back() is None <==> front_len == old(slots)@.len(),
            w.back() is Some ==> w.back()->0@ == old(slots)@.skip(front_len as int),
            w@ == old(slots)@,
            w.back() is None ==> final(slots)@ == final(w.front())@,
            w.back() is Some ==> final(slots)@ == final(w.front())@ + final(w.back()->0)@,
    {
        assert(slots@ =~= slots@.take(front_len as int) + slots@.skip(front_len as int));
        if front_len == slots.len() {
            Write { front: slots, back: None }
        } else {
            let (front, back) = slots.split_at_mut(front_len);
            Write { front, back: Some(back) }
        }
    }

    /// The part of the reservation that lies before the end of the ring.
    pub closed spec fn front(self) -> &'a mut [Slot<T>] {
        self.front
    }

    /// The part of the reservation that continues at the start of the ring.
    pub closed spec fn back(self) -> Option<&'a mut [Slot<T>]> {
        self.back
    }

    /// The slots of the reservation, as they stand.
    pub open spec fn view(self) -> Seq<Slot<T>> {
        match self.back() {
            Some(back) => self.front()@ + back@,
            None => self.front()@,
        }
    }

    /// A reservation's length fits in a `usize`.
    pub open spec fn wf(self) -> bool {
        self@.len() <= usize::MAX
    }

    /// Whether a sender is offered this reservation when it asks for up to `max_burst_len` slots of
    /// a channel that holds up to `capacity` values: some empty slots, no more than either.
    pub open spec fn is_offer(self, max_burst_len: int, capacity: int) -> bool {
        &&& self.wf()
        &&& blank(self@)
        &&& 0 < self@.len() <= max_burst_len
        &&& self@.len() <= capacity
    }

    /// Whether a sender may leave the slots of this reservation as given: every one of them has to
    /// be written.
    pub open spec fn may_be_left_as(self, left: Seq<Slot<T>>) -> bool {
        left.len() == self@.len() && filled(left)
    }

    /// Get the length of this write reservation.
    pub fn len(&self) -> (n: usize)
        requires
            self.wf(),
        ensures
            n == self@.len(),
    {
        let back_len: usize = match &self.back {
            Some(back) => back.len(),
            None => 0,
        };
        self.front.len() + back_len
    }

    /// Write the provided value at the provided position relative to the start of this write
    /// reservation. Every position must be written before the reservation is done with. A value
    /// that is written over is leaked: its destructor never runs.
    pub fn write_at(&mut self, index: usize, value: T)
        requires
            old(self).wf(),
            old(self).back() is Some ==> index < old(self)@.len(),
        ensures
            final(self).wf(),
            written_at(old(self)@, final(self)@, index as int, value),
            final(self).front()@.len() == old(self).front()@.len(),
            final(self).back() is Some <==> old(self).back() is Some,
            final(final(self).front())@ == final(old(self).front())@,
            old(self).back() is Some ==> final(final(self).back()->0)@ == final(old(self).back()->0)@,
    {
        if index < self.front.len() {
            self.front[index] = Some(ManuallyDrop::new(value));
        } else if let Some(back) = &mut self.back {
            back[index - self.front.len()] = Some(ManuallyDrop::new(value));
        }
    }
}

/// What a write reservation holds when it is used for the last time is what it leaves behind.
pub proof fn write_left_behind<'a, T>(write: Write<'a, T>)
    requires
        has_resolved(write),
    ensures
        final(write.front())@ == write.front()@,
        write.back() is Some ==> final(write.back()->0)@ == write.back()->0@,
{
}

/// Fill empty slots by copying values from the provided slice.
pub fn maybe_uninit_write_slice<'a, T: Copy>(this: &'a mut [Slot<T>], src: &[T]) -> (r:
    &'a mut [Slot<T>])
    requires
        old(this)@.len() == src@.len(),
    ensures
        holds(r@, src@),
        final(r)@ == final(this)@,
{
    let mut i: usize = 0;
    while i < src.len()
        invariant
            this@.len() == src@.len(),
            i <= src@.len(),
            forall|k: int| 0 <= k < i ==> #[trigger] this@[k] is Some && this@[k]->0@ == src@[k],
            final(this)@ == final(old(this))@,
        decreases src@.len() - i,
    {
        this[i] = Some(ManuallyDrop::new(src[i]));
        i = i + 1;
    }
    this
}

impl<'a, T: Copy> Write<'a, T> {
    /// Fill this write reservation by copying values from the provided slice. The slice's length
    /// must be equal to the reservation's length.
    pub fn write_slice(self, items: &[T])
        requires
            self.wf(),
            items@.len() == self@.len(),
        ensures
            holds(final(self.front())@, items@.take(self.front()@.len() as int)),
            self.back() is Some ==> holds(
                final(self.back()->0)@,
                items@.skip(self.front()@.len() as int),
            ),
    {
        let (front_items, back_items) = items.split_at(self.front.len());
        let _ = maybe_uninit_write_slice(self.front, front_items);
        if let Some(back) = self.back {
            let _ = maybe_uninit_write_slice(back, back_items);
        }
    }
}

/// Writing place by place is as good as writing a slice, whatever the order of the places and
/// wherever the end of the ring lies: if every place `i` is written with `items[i]`, the reservation
/// holds the same values as if `items` had been written as a slice, which are `items`. Here `places`
/// are the places in the order in which they are written, `stages` is the reservation before the
/// first of these writes and after each of them, and `front` and `back` are what writing the slice
/// leaves before and behind the end of the ring.
pub proof fn place_by_place_is_as_good_as_a_slice<T>(
    items: Seq<T>,
    places: Seq<int>,
    stages: Seq<Seq<Slot<T>>>,
    front: Seq<Slot<T>>,
    back: Seq<Slot<T>>,
)
    requires
        stages.len() == places.len() + 1,
        stages[0].len() == items.len(),
        forall|k: int|
            0 <= k < places.len() ==> written_at(
                stages[k],
                stages[k + 1],
                #[trigger] places[k],
                items[places[k]],
            ),
        forall|i: int| 0 <= i < items.len() ==> #[trigger] places.contains(i),
        front.len() <= items.len(),
        holds(front, items.take(front.len() as int)),
        holds(back, items.skip(front.len() as int)),
    ensures
        holds(stages.last(), items),
        values(stages.last()) == items,
        values(front + back) == items,
{
    lemma_stages(items, places, stages, places.len() as int);
    assert forall|i: int| 0 <= i < items.len() implies #[trigger] stages.last()[i] is Some
        && stages.last()[i]->0@ == items[i] by {
        assert(places.contains(i));
    }
    assert(values(stages.last()) =~= items);
    assert(values(front + back) =~= items);
}

/// After `n` writes, the places that were written hold their values.
proof fn lemma_stages<T>(items: Seq<T>, places: Seq<int>, stages: Seq<Seq<Slot<T>>>, n: int)
    requires
        0 <= n <= places.len(),
        stages.len() == places.len() + 1,
        stages[0].len() == items.len(),
        forall|k: int|
            0 <= k < places.len() ==> written_at(
                stages[k],
                stages[k + 1],
                #[trigger] places[k],
                items[places[k]],
            ),
    ensures
        stages[n].len() == items.len(),
        forall|k: int|
            0 <= k < n && 0 <= #[trigger] places[k] < items.len() ==> stages[n][places[k]] is Some
                && stages[n][places[k]]->0@ == items[places[k]],
    decreases n,
{
    if n > 0 {
        lemma_stages(items, places, stages, n - 1);
        let last = places[n - 1];
        assert(written_at(stages[n - 1], stages[n], last, items[last]));
        assert forall|k: int| 0 <= k < n && 0 <= #[trigger] places[k] < items.len() implies
            stages[n][places[k]] is Some && stages[n][places[k]]->0@ == items[places[k]] by {
            if places[k] != last {
                assert(stages[n][places[k]] == stages[n - 1][places[k]]);
            }
        }
    }
}

/// A handle to read to some reserved region of the queue.
pub struct Read<'a, T> {
    front: &'a mut [Slot<T>],
    back: Option<&'a mut [Slot<T>]>,
}

impl<'a, T> Read<'a, T> {
    /// A handle over all of `slots`, the first `front_len` of which lie before the end of the ring.
    pub(crate) fn new(slots: &'a mut [Slot<T>], front_len: usize) -> (w: Self)
        requires
            front_len <= old(slots)@.len(),
        ensures
            w.front()@ == old(slots)@.take(front_len as int),
            w.back() is None <==> front_len == old(slots)@.len(),
            w.back() is Some ==> w.back()->0@ == old(slots)@.skip(front_len as int),
            w.slots() == old(slots)@,
            w.back() is None ==> final(slots)@ == final(w.front())@,
            w.back() is Some ==> final(slots)@ == final(w.front())@ + final(w.back()->0)@,
    {
        assert(slots@ =~= slots@.take(front_len as int) + slots@.skip(front_len as int));
        if front_len == slots.len() {
            Read { front: slots, back: None }
        } else {
            let (front, back) = slots.split_at_mut(front_len);
            Read { front, back: Some(back) }
        }
    }

    /// The part of the reservation that lies before the end of the ring.
    pub closed spec fn front(self) -> &'a mut [Slot<T>] {
        self.front
    }

    /// The part of the reservation that continues at the start of the ring.
    pub closed spec fn back(self) -> Option<&'a mut [Slot<T>]> {
        self.back
    }

    /// The slots of the reservation, as they stand.
    pub open spec fn slots(self) -> Seq<Slot<T>> {
        match self.back() {
            Some(back) => self.front()@ + back@,
            None => self.front()@,
        }
    }

    /// The values that can be read, in the order in which they were sent.
    pub open spec fn view(self) -> Seq<T> {
        values(self.slots())
    }

    /// Every slot of a read reservation holds a value, and its length fits in a `usize`.
    pub open spec fn wf(self) -> bool {
        self.slots().len() <= usize::MAX && filled(self.slots())
    }

    /// Whether a receiver is offered this reservation when it asks for up to `max_burst_len` values
    /// of a channel that holds up to `capacity`: no more values than either, and some, unless none
    /// were asked for.
    pub open spec fn is_offer(self, max_burst_len: int, capacity: int) -> bool {
        &&& self.wf()
        &&& 0 < max_burst_len ==> 0 < self@.len()
        &&& self@.len() <= max_burst_len
        &&& self@.len() <= capacity
    }

    /// Get the length of this read reservation.
    pub fn len(&self) -> (n: usize)
        requires
            self.wf(),
        ensures
            n == self@.len(),
    {
        let back_len: usize = match &self.back {
            Some(back) => back.len(),
            None => 0,
        };
        self.front.len() + back_len
    }

    /// Get the value at the provided position relative to the start of this read reservation.
    pub fn get(&self, index: usize) -> (value: &T)
        requires
            self.wf(),
            index < self@.len(),
        ensures
            *value == self@[index as int],
    {
        assert(self.slots()[index as int] is Some);
        if index < self.front.len() {
            self.front[index].as_ref().unwrap()
        } else if let Some(back) = &self.back {
            back[index - self.front.len()].as_ref().unwrap()
        } else {
            vstd::pervasive::unreached()
        }
    }

    /// Move the values, in order, to the start of `dst`, which must be at least as long as this
    /// reservation. What was there before is overwritten without running its destructor.
    pub fn read_to_ptr(self, dst: &mut [T])
        requires
            self.wf(),
            self@.len() <= old(dst)@.len(),
        ensures
            final(dst)@ == self@ + old(dst)@.skip(self@.len() as int),
    {
        let n: usize = self.len();
        let ghost all = self@;
        let mut iter = self.into_iter();
        let mut i: usize = 0;
        while i < n
            invariant
                i <= n <= dst@.len(),
                iter.wf(),
                iter.rest().len() == n - i,
                dst@.len() == old(dst)@.len(),
                dst@.take(i as int) + iter.rest() == all,
                dst@.skip(n as int) == old(dst)@.skip(n as int),
            decreases n - i,
        {
            let ghost before = dst@;
            let ghost rest = iter.rest();
            if let Some(value) = iter.next() {
                let mut value = value;
                core::mem::swap(&mut dst[i], &mut value);
                let _ = ManuallyDrop::new(value);
                proof {
                    assert(dst@.take(i + 1) + rest.drop_first() =~= before.take(i as int) + rest);
                    assert(dst@.skip(n as int) =~= before.skip(n as int));
                }
            }
            i = i + 1;
        }
        assert(dst@ =~= dst@.take(n as int) + dst@.skip(n as int));
    }
}

/// An iterator that takes the values out of a read reservation, in the order in which they were
/// sent.
pub struct ReadIter<'a, T> {
    read: Read<'a, T>,
    index: usize,
}

impl<'a, T> ReadIter<'a, T> {
    /// The values that are still to come.
    pub closed spec fn rest(&self) -> Seq<T> {
        self.read@.skip(self.index as int)
    }

    /// Every slot from the current position on holds a value.
    pub closed spec fn wf(&self) -> bool {
        let slots = self.read.slots();
        &&& slots.len() <= usize::MAX
        &&& self.index <= slots.len()
        &&& forall|i: int| self.index <= i < slots.len() ==> #[trigger] slots[i] is Some
    }
}

impl<'a, T> IntoIterator for Read<'a, T> {
    type Item = T;

    type IntoIter = ReadIter<'a, T>;

    fn into_iter(self) -> (iter: ReadIter<'a, T>)
        ensures
            self.wf() ==> iter.wf(),
            iter.rest() == self@,
    {
        let iter = ReadIter { read: self, index: 0 };
        assert(iter.rest() =~= iter.read@);
        iter
    }
}

impl<'a, T> Iterator for ReadIter<'a, T> {
    type Item = T;

    fn next(&mut self) -> (item: Option<T>)
        ensures
            old(self).wf() ==> final(self).wf(),
            old(self).wf() && old(self).rest().len() > 0 ==> item == Some(old(self).rest()[0])
                && final(self).rest() == old(self).rest().drop_first(),
            old(self).wf() && old(self).rest().len() == 0 ==> item is None && final(self).rest()
                == old(self).rest(),
    {
        let index: usize = self.index;
        let ghost before = *self;
        let slot: Slot<T> = if index < self.read.front.len() {
            self.read.front[index].take()
        } else if let Some(back) = &mut self.read.back {
            let back_index: usize = index - self.read.front.len();
            if back_index < back.len() && index < usize::MAX {
                back[back_index].take()
            } else {
                None
            }
        } else {
            None
        };
        proof {
            let old_slots = before.read.slots();
            let new_slots = self.read.slots();
            assert(new_slots.len() == old_slots.len());
            assert(forall|i: int|
                0 <= i < old_slots.len() && i != index ==> #[trigger] new_slots[i] == old_slots[i]);
            if before.wf() {
                assert(index < old_slots.len() ==> old_slots[index as int] is Some);
            }
        }
        match slot {
            Some(value) => {
                self.index = index + 1;
                proof {
                    assert(self.rest() =~= before.rest().drop_first());
                    if self.wf() {
                        assert forall|i: int|
                            index <= i < before.read.slots().len() implies #[trigger] before.read.slots()[i] is Some by {
                            if i != index {
                                assert(self.read.slots()[i] is Some);
                            }
                        }
                    }
                }
                Some(ManuallyDrop::into_inner(value))
            },
            None => {
                assert(self.rest() =~= before.rest());
                None
            },
        }
    }
}

impl<'a, T> IteratorSpecImpl for ReadIter<'a, T> {
    open spec fn obeys_prophetic_iter_laws(&self) -> bool {
        self.wf()
    }

    open spec fn remaining(&self) -> Seq<T> {
        self.rest()
    }

    open spec fn will_return_none(&self) -> bool {
        true
    }

    open spec fn decrease(&self) -> Option<nat> {
        Some(self.rest().len())
    }

    open spec fn initial_value_relation(&self, init: &Self) -> bool {
        self.rest() == init.rest()
    }

    open spec fn peek(&self, index: int) -> Option<T> {
        if 0 <= index < self.rest().len() {
            Some(self.rest()[index])
        } else {
            None
        }
    }
}

}
