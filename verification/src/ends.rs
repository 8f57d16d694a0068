//! A channel with its ends: senders and receivers come and go while steps are taken on the ring.

use vstd::prelude::*;

use crate::error::Error;
use crate::laws::{
    first_in_first_out, ring_stays_valid, undisturbed_receives_are_decided,
    undisturbed_sends_are_decided,
};
use crate::model::{
    can_run, noting, received, recv_attempt, recv_result, run, send_attempt, send_result, sent,
    RingState, Step,
};
use crate::word::index_limit;

verus! {

/// The state of a channel: its ring, and how many senders and receivers there are.
#[verifier::ext_equal]
pub struct EndsState<T> {
    pub ring: RingState<T>,
    pub senders: int,
    pub receivers: int,
}

impl<T> EndsState<T> {
    /// A channel that was just made, with one sender and one receiver.
    pub open spec fn fresh(capacity: int) -> Self {
        EndsState { ring: RingState::fresh(capacity), senders: 1, receivers: 1 }
    }

    /// What holds of every channel: a side is gone only if none of it is left.
    pub open spec fn valid(self) -> bool {
        &&& self.ring.valid()
        &&& 0 <= self.senders
        &&& 0 <= self.receivers
        &&& self.ring.senders_gone ==> self.senders == 0
        &&& self.ring.receivers_gone ==> self.receivers == 0
    }

    /// The ring as an end finds it, which counts the ends first.
    pub open spec fn found(self) -> RingState<T> {
        self.ring.noted(self.senders, self.receivers)
    }
}

/// One thing that happens to a channel.
pub enum Change<T> {
    /// An end takes a step on the ring.
    Take(Step<T>),
    /// A sender is cloned.
    CloneSender,
    /// A sender is dropped.
    DropSender,
    /// A receiver is cloned.
    CloneReceiver,
    /// A receiver is dropped.
    DropReceiver,
}

impl<T> Change<T> {
    /// Whether it can happen: whoever takes a step, is cloned or is dropped has to be there.
    pub open spec fn enabled(self, e: EndsState<T>) -> bool {
        match self {
            Change::Take(step) => {
                &&& step.enabled(e.found())
                &&& match step {
                    Step::ClaimSend(_) | Step::Publish(_) => e.senders > 0,
                    Step::ClaimRecv(_) | Step::Release(_) => e.receivers > 0,
                    Step::CloseSenders | Step::CloseReceivers => false,
                }
            },
            Change::CloneSender | Change::DropSender => e.senders > 0,
            Change::CloneReceiver | Change::DropReceiver => e.receivers > 0,
        }
    }

    /// The channel afterwards.
    pub open spec fn apply(self, e: EndsState<T>) -> EndsState<T> {
        match self {
            Change::Take(step) => EndsState { ring: step.apply(e.found()), ..e },
            Change::CloneSender => EndsState { senders: e.senders + 1, ..e },
            Change::DropSender => EndsState { senders: e.senders - 1, ..e },
            Change::CloneReceiver => EndsState { receivers: e.receivers + 1, ..e },
            Change::DropReceiver => EndsState { receivers: e.receivers - 1, ..e },
        }
    }

    /// The steps that are taken on the ring.
    pub open spec fn steps(self, e: EndsState<T>) -> Seq<Step<T>> {
        match self {
            Change::Take(step) => noting(e.senders, e.receivers).push(step),
            _ => Seq::empty(),
        }
    }

    /// By how many there are more senders.
    pub open spec fn more_senders(self) -> int {
        match self {
            Change::CloneSender => 1,
            Change::DropSender => -1,
            _ => 0,
        }
    }

    /// By how many there are more receivers.
    pub open spec fn more_receivers(self) -> int {
        match self {
            Change::CloneReceiver => 1,
            Change::DropReceiver => -1,
            _ => 0,
        }
    }
}

/// Whether the changes can happen to the channel one after the other.
pub open spec fn can_happen<T>(e: EndsState<T>, changes: Seq<Change<T>>) -> bool
    decreases changes.len(),
{
    changes.len() == 0 || can_happen(e, changes.drop_last()) && changes.last().enabled(
        changed(e, changes.drop_last()),
    )
}

/// What the channel becomes through the changes.
pub open spec fn changed<T>(e: EndsState<T>, changes: Seq<Change<T>>) -> EndsState<T>
    decreases changes.len(),
{
    if changes.len() == 0 {
        e
    } else {
        changes.last().apply(changed(e, changes.drop_last()))
    }
}

/// The steps that are taken on the ring through the changes.
pub open spec fn steps_of<T>(e: EndsState<T>, changes: Seq<Change<T>>) -> Seq<Step<T>>
    decreases changes.len(),
{
    if changes.len() == 0 {
        Seq::empty()
    } else {
        steps_of(e, changes.drop_last()) + changes.last().steps(changed(e, changes.drop_last()))
    }
}

/// By how many there are more senders after the changes: one for each clone, less one for each that
/// was dropped.
pub open spec fn more_senders<T>(changes: Seq<Change<T>>) -> int
    decreases changes.len(),
{
    if changes.len() == 0 {
        0
    } else {
        more_senders(changes.drop_last()) + changes.last().more_senders()
    }
}

/// By how many there are more receivers after the changes.
pub open spec fn more_receivers<T>(changes: Seq<Change<T>>) -> int
    decreases changes.len(),
{
    if changes.len() == 0 {
        0
    } else {
        more_receivers(changes.drop_last()) + changes.last().more_receivers()
    }
}

/// However ends come and go, the channel stays within its bounds, and there are as many of either
/// side as there were, with one more for each clone and one less for each that was dropped.
pub proof fn ends_are_counted<T>(e: EndsState<T>, changes: Seq<Change<T>>)
    requires
        e.valid(),
        can_happen(e, changes),
    ensures
        changed(e, changes).valid(),
        changed(e, changes).ring.capacity == e.ring.capacity,
        changed(e, changes).senders == e.senders + more_senders(changes),
        changed(e, changes).receivers == e.receivers + more_receivers(changes),
    decreases changes.len(),
{
    if changes.len() > 0 {
        let before = changed(e, changes.drop_last());
        ends_are_counted(e, changes.drop_last());
        if let Change::Take(step) = changes.last() {
            let steps = seq![step];
            assert(steps.drop_last() =~= Seq::empty());
            assert(can_run(before.found(), steps.drop_last()));
            assert(can_run(before.found(), steps));
            assert(run(before.found(), steps.drop_last()) == before.found());
            assert(run(before.found(), steps) == step.apply(before.found()));
            ring_stays_valid(before.found(), steps);
        }
    }
}

/// Either side is counted apart from the other: whatever the receivers do, however often they are
/// cloned and dropped, there are as many senders as before, as long as no sender is cloned or
/// dropped, and the other way round.
pub proof fn sides_are_counted_apart<T>(e: EndsState<T>, changes: Seq<Change<T>>)
    requires
        e.valid(),
        can_happen(e, changes),
    ensures
        (forall|i: int|
            0 <= i < changes.len() ==> (#[trigger] changes[i]) != Change::<T>::CloneSender
                && changes[i] != Change::<T>::DropSender) ==> changed(e, changes).senders
            == e.senders,
        (forall|i: int|
            0 <= i < changes.len() ==> (#[trigger] changes[i]) != Change::<T>::CloneReceiver
                && changes[i] != Change::<T>::DropReceiver) ==> changed(e, changes).receivers
            == e.receivers,
    decreases changes.len(),
{
    if changes.len() > 0 {
        let before = changes.drop_last();
        sides_are_counted_apart(e, before);
        assert(forall|i: int| 0 <= i < before.len() ==> #[trigger] before[i] == changes[i]);
        assert(changes.last() == changes[changes.len() - 1]);
    }
}

/// Cloning or dropping an end leaves the ring as it is: what is in the queue stays there, in order,
/// to be received.
pub proof fn comings_and_goings_leave_the_queue<T>(e: EndsState<T>, change: Change<T>)
    requires
        !(change is Take),
    ensures
        change.apply(e).ring == e.ring,
        change.apply(e).found().queue == e.found().queue,
        change.apply(e).found().free() == e.found().free(),
{
}

/// A receiver meets a shutdown exactly when the queue is empty and every sender is gone: the first
/// one and all its clones were dropped. While one is left, an empty queue is no more than empty.
pub proof fn receivers_meet_a_shutdown_after_the_last_sender<T>(
    capacity: int,
    changes: Seq<Change<T>>,
    max_burst_len: int,
)
    requires
        0 < capacity <= index_limit(),
        can_happen(EndsState::<T>::fresh(capacity), changes),
        0 <= max_burst_len <= usize::MAX,
    ensures
        ({
            let s = changed(EndsState::<T>::fresh(capacity), changes).found();
            let senders = 1 + more_senders(changes);
            &&& recv_result(s, max_burst_len) is Err <==> s.queue.len() == 0 && senders == 0
            &&& s.queue.len() == 0 && senders > 0 ==> recv_result(s, max_burst_len) == Ok::<
                usize,
                Error,
            >(0)
        }),
{
    ends_are_counted(EndsState::<T>::fresh(capacity), changes);
}

/// A sender that wants to send something meets a shutdown exactly when every receiver is gone: the
/// first one and all its clones were dropped. While one is left, sending does not fail.
pub proof fn senders_meet_a_shutdown_after_the_last_receiver<T>(
    capacity: int,
    changes: Seq<Change<T>>,
    max_burst_len: int,
)
    requires
        0 < capacity <= index_limit(),
        can_happen(EndsState::<T>::fresh(capacity), changes),
        0 < max_burst_len <= usize::MAX,
    ensures
        send_result(
            changed(EndsState::<T>::fresh(capacity), changes).found(),
            max_burst_len,
        ) is Err <==> 1 + more_receivers(changes) == 0,
{
    ends_are_counted(EndsState::<T>::fresh(capacity), changes);
}

/// Once the last of a side is dropped, that side is gone for good.
pub proof fn the_last_one_is_gone_for_good<T>(e: EndsState<T>, changes: Seq<Change<T>>)
    requires
        e.valid(),
        can_happen(e, changes),
    ensures
        e.senders == 0 ==> changed(e, changes).senders == 0 && changed(e, changes).found().senders_gone,
        e.receivers == 0 ==> changed(e, changes).receivers == 0 && changed(
            e,
            changes,
        ).found().receivers_gone,
    decreases changes.len(),
{
    if changes.len() > 0 {
        the_last_one_is_gone_for_good(e, changes.drop_last());
    }
}

/// What a sender's destructor does to a channel, which is to count the sender out: the ring is left
/// as it is, with all that is in the queue. If it was the last sender, then whatever happens later,
/// a receiver that finds the queue empty meets a shutdown, for good. While another one is left, it
/// finds nothing and is told so.
pub proof fn a_dropped_sender<T>(
    capacity: int,
    before: Seq<Change<T>>,
    later: Seq<Change<T>>,
    max_burst_len: int,
)
    requires
        0 < capacity <= index_limit(),
        can_happen(EndsState::<T>::fresh(capacity), before.push(Change::DropSender) + later),
        0 <= max_burst_len <= usize::MAX,
    ensures
        ({
            let fresh = EndsState::<T>::fresh(capacity);
            let dropped = changed(fresh, before.push(Change::DropSender));
            let e = changed(fresh, before.push(Change::DropSender) + later);
            let s = e.found();
            let attempt = recv_attempt(s, s.cons_head(), s.prod_tail(), max_burst_len);
            &&& dropped.ring == changed(fresh, before).ring
            &&& dropped.senders == changed(fresh, before).senders - 1
            &&& dropped.senders == 0 ==> e.senders == 0
            &&& attempt is Shutdown <==> s.queue.len() == 0 && e.senders == 0
            &&& attempt is Nothing <==> s.queue.len() == 0 && e.senders > 0
            &&& recv_result(s, max_burst_len) is Err <==> attempt is Shutdown
        }),
{
    let fresh = EndsState::<T>::fresh(capacity);
    let drop = before.push(Change::DropSender);
    lemma_one_after_the_other(fresh, drop, later);
    assert(drop.drop_last() =~= before);
    ends_are_counted(fresh, drop);
    the_last_one_is_gone_for_good(changed(fresh, drop), later);
    ends_are_counted(fresh, drop + later);
    undisturbed_receives_are_decided(changed(fresh, drop + later).found(), max_burst_len);
}

/// What a receiver's destructor does to a channel, which is to count the receiver out: the ring is
/// left as it is, with all that is in the queue. If it was the last receiver, then whatever happens
/// later, a sender that wants to send something meets a shutdown and reserves nothing, for good.
/// While another one is left, no sender meets a shutdown.
pub proof fn a_dropped_receiver<T>(
    capacity: int,
    before: Seq<Change<T>>,
    later: Seq<Change<T>>,
    max_burst_len: int,
)
    requires
        0 < capacity <= index_limit(),
        can_happen(EndsState::<T>::fresh(capacity), before.push(Change::DropReceiver) + later),
        0 < max_burst_len <= usize::MAX,
    ensures
        ({
            let fresh = EndsState::<T>::fresh(capacity);
            let dropped = changed(fresh, before.push(Change::DropReceiver));
            let e = changed(fresh, before.push(Change::DropReceiver) + later);
            let s = e.found();
            let attempt = send_attempt(s, s.prod_head(), s.cons_tail(), max_burst_len);
            &&& dropped.ring == changed(fresh, before).ring
            &&& dropped.receivers == changed(fresh, before).receivers - 1
            &&& dropped.receivers == 0 ==> e.receivers == 0
            &&& attempt is Shutdown <==> e.receivers == 0
            &&& send_result(s, max_burst_len) is Err <==> attempt is Shutdown
        }),
{
    let fresh = EndsState::<T>::fresh(capacity);
    let drop = before.push(Change::DropReceiver);
    lemma_one_after_the_other(fresh, drop, later);
    assert(drop.drop_last() =~= before);
    ends_are_counted(fresh, drop);
    the_last_one_is_gone_for_good(changed(fresh, drop), later);
    ends_are_counted(fresh, drop + later);
    undisturbed_sends_are_decided(changed(fresh, drop + later).found(), max_burst_len);
}

proof fn lemma_one_after_the_other<T>(
    e: EndsState<T>,
    first: Seq<Change<T>>,
    second: Seq<Change<T>>,
)
    requires
        can_happen(e, first + second),
    ensures
        can_happen(e, first),
        can_happen(changed(e, first), second),
        changed(e, first + second) == changed(changed(e, first), second),
    decreases second.len(),
{
    let all = first + second;
    if second.len() > 0 {
        assert(all.drop_last() =~= first + second.drop_last());
        assert(all.last() == second.last());
        lemma_one_after_the_other(e, first, second.drop_last());
    } else {
        assert(all =~= first);
    }
}

/// Whatever happens to a channel is a run of steps on its ring, so that what holds of such runs
/// holds here: values come out in the order in which they went in, each once, whichever ends send
/// and receive them.
pub proof fn all_ends_share_one_queue<T>(e: EndsState<T>, changes: Seq<Change<T>>)
    requires
        e.valid(),
        can_happen(e, changes),
    ensures
        can_run(e.ring, steps_of(e, changes)),
        run(e.ring, steps_of(e, changes)) == changed(e, changes).ring,
        e.ring.queue + sent(steps_of(e, changes)) == received(e.ring, steps_of(e, changes))
            + changed(e, changes).ring.queue,
{
    lemma_steps_of(e, changes);
    first_in_first_out(e.ring, steps_of(e, changes));
}

proof fn lemma_steps_of<T>(e: EndsState<T>, changes: Seq<Change<T>>)
    requires
        e.valid(),
        can_happen(e, changes),
    ensures
        can_run(e.ring, steps_of(e, changes)),
        run(e.ring, steps_of(e, changes)) == changed(e, changes).ring,
    decreases changes.len(),
{
    if changes.len() > 0 {
        lemma_steps_of(e, changes.drop_last());
        let before = changed(e, changes.drop_last());
        let steps = steps_of(e, changes.drop_last());
        let all = steps_of(e, changes);
        match changes.last() {
            Change::Take(step) => {
                let noted = steps + noting(before.senders, before.receivers);
                lemma_noting(e.ring, steps, before.senders, before.receivers);
                assert(all.drop_last() =~= noted);
                assert(all.last() == step);
            },
            _ => {
                assert(all =~= steps);
            },
        }
    }
}

proof fn lemma_noting<T>(s: RingState<T>, steps: Seq<Step<T>>, senders: int, receivers: int)
    requires
        can_run(s, steps),
    ensures
        can_run(s, steps + noting(senders, receivers)),
        run(s, steps + noting(senders, receivers)) == run(s, steps).noted(senders, receivers),
{
    let all = steps + noting::<T>(senders, receivers);
    if senders == 0 {
        let closed = steps.push(Step::CloseSenders);
        assert(closed.drop_last() =~= steps);
        assert(closed.last() == Step::<T>::CloseSenders);
        assert(can_run(s, closed));
        assert(run(s, closed) == run(s, steps).close_senders());
        if receivers == 0 {
            assert(all.drop_last() =~= closed);
            assert(all.last() == Step::<T>::CloseReceivers);
        } else {
            assert(all =~= closed);
        }
    } else if receivers == 0 {
        assert(all.drop_last() =~= steps);
        assert(all.last() == Step::<T>::CloseReceivers);
    } else {
        assert(all =~= steps);
    }
}

}
