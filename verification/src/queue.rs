//! Event queue with deterministic ordering.
//!
//! Events are ordered by time, and events due at the same time by the order in
//! which they were scheduled.

use core::cmp::Ordering;

use vstd::prelude::*;
use vstd::std_specs::cmp::{PartialEqSpecImpl, PartialOrdSpecImpl};

use crate::time::Time;

verus! {

/// An event together with the time at which it is due and its place among the
/// events that were ever scheduled on its queue.
#[derive(Debug, Clone)]
pub struct Scheduled<E> {
    /// When the event is due.
    pub time: Time,
    /// How many events were scheduled before this one.
    pub sequence: u64,
    /// The event itself.
    pub event: E,
}

impl<E> Scheduled<E> {
    /// Creates a scheduled event.
    pub fn new(time: Time, sequence: u64, event: E) -> (s: Scheduled<E>)
        ensures
            s == (Scheduled { time, sequence, event }),
    {
        Scheduled { time, sequence, event }
    }
}

/// Whether `a` is processed before `b`: the earlier event first, and of two
/// events due at the same time the one that was scheduled first.
pub open spec fn before<E>(a: Scheduled<E>, b: Scheduled<E>) -> bool {
    a.time.0 < b.time.0 || (a.time.0 == b.time.0 && a.sequence < b.sequence)
}

/// Two scheduled events are the same place in a queue if they are due at the same
/// time and have the same number, whatever the events are.
impl<E> PartialEq for Scheduled<E> {
    fn eq(&self, other: &Scheduled<E>) -> (r: bool) {
        self.time == other.time && self.sequence == other.sequence
    }
}

impl<E> PartialEqSpecImpl for Scheduled<E> {
    open spec fn obeys_eq_spec() -> bool {
        true
    }

    open spec fn eq_spec(&self, other: &Scheduled<E>) -> bool {
        self.time == other.time && self.sequence == other.sequence
    }
}

impl<E> Eq for Scheduled<E> {

}

/// The greater of two scheduled events is the one that is processed first.
impl<E> PartialOrd for Scheduled<E> {
    fn partial_cmp(&self, other: &Scheduled<E>) -> (r: Option<Ordering>) {
        if self.time.0 < other.time.0 {
            Some(Ordering::Greater)
        } else if self.time.0 > other.time.0 {
            Some(Ordering::Less)
        } else if self.sequence < other.sequence {
            Some(Ordering::Greater)
        } else if self.sequence > other.sequence {
            Some(Ordering::Less)
        } else {
            Some(Ordering::Equal)
        }
    }
}

impl<E> PartialOrdSpecImpl for Scheduled<E> {
    open spec fn obeys_partial_cmp_spec() -> bool {
        true
    }

    open spec fn partial_cmp_spec(&self, other: &Scheduled<E>) -> Option<Ordering> {
        if before(*self, *other) {
            Some(Ordering::Greater)
        } else if before(*other, *self) {
            Some(Ordering::Less)
        } else {
            Some(Ordering::Equal)
        }
    }
}

/// How many leading entries of `pending` are due at or before `time`.
pub open spec fn due_by<E>(pending: Seq<Scheduled<E>>, time: Time) -> nat
    decreases pending.len(),
{
    if pending.len() == 0 || pending.last().time.0 <= time.0 {
        pending.len()
    } else {
        due_by(pending.drop_last(), time)
    }
}

/// What an event queue holds.
#[verifier::ext_equal]
pub struct QueueState<E> {
    /// The events that wait, in the order in which they will be processed.
    pub pending: Seq<Scheduled<E>>,
    /// The number of events that were ever scheduled.
    pub next_sequence: u64,
}

impl<E> QueueState<E> {
    /// A queue on which nothing was ever scheduled.
    pub open spec fn empty() -> QueueState<E> {
        QueueState { pending: Seq::empty(), next_sequence: 0 }
    }

    /// The events stand in processing order, and each was given its number by this queue.
    pub open spec fn wf(self) -> bool {
        &&& forall|i: int, j: int|
            0 <= i < j < self.pending.len() ==> #[trigger] before(self.pending[i], self.pending[j])
        &&& forall|i: int|
            0 <= i < self.pending.len() ==> (#[trigger] self.pending[i]).sequence
                < self.next_sequence
    }

    /// The queue after scheduling `event` at `time`: it stands behind everything
    /// that is due at or before `time`.
    pub open spec fn schedule(self, time: Time, event: E) -> QueueState<E> {
        QueueState {
            pending: self.pending.insert(
                due_by(self.pending, time) as int,
                Scheduled { time, sequence: self.next_sequence, event },
            ),
            next_sequence: (self.next_sequence + 1) as u64,
        }
    }

    /// The queue after scheduling every event of `items` in turn.
    pub open spec fn schedule_all(self, items: Seq<(Time, E)>) -> QueueState<E>
        decreases items.len(),
    {
        if items.len() == 0 {
            self
        } else {
            self.schedule_all(items.drop_last()).schedule(items.last().0, items.last().1)
        }
    }

    /// The queue without its first event.
    pub open spec fn rest(self) -> QueueState<E> {
        QueueState { pending: self.pending.drop_first(), next_sequence: self.next_sequence }
    }

    /// The queue with no event waiting.
    pub open spec fn cleared(self) -> QueueState<E> {
        QueueState { pending: Seq::empty(), next_sequence: self.next_sequence }
    }
}

/// `due_by` splits an ordered queue: what stands before the split is due at or
/// before `time`, what stands behind it is due later.
proof fn lemma_due_by<E>(pending: Seq<Scheduled<E>>, time: Time)
    requires
        forall|i: int, j: int| 0 <= i < j < pending.len() ==> #[trigger] before(pending[i], pending[j]),
    ensures
        due_by(pending, time) <= pending.len(),
        forall|i: int|
            0 <= i < due_by(pending, time) ==> (#[trigger] pending[i]).time.0 <= time.0,
        forall|i: int|
            due_by(pending, time) <= i < pending.len() ==> (#[trigger] pending[i]).time.0 > time.0,
    decreases pending.len(),
{
    if pending.len() == 0 {
    } else if pending.last().time.0 <= time.0 {
        assert forall|i: int| 0 <= i < pending.len() implies (#[trigger] pending[i]).time.0 <= time.0 by {
            if i < pending.len() - 1 {
                assert(before(pending[i], pending[pending.len() - 1]));
            }
        }
    } else {
        let shorter = pending.drop_last();
        assert forall|i: int, j: int| 0 <= i < j < shorter.len() implies #[trigger] before(
            shorter[i],
            shorter[j],
        ) by {
            assert(before(pending[i], pending[j]));
        }
        lemma_due_by(shorter, time);
        assert forall|i: int|
            due_by(pending, time) <= i < pending.len() implies (#[trigger] pending[i]).time.0
            > time.0 by {
            if i < pending.len() - 1 {
                assert(shorter[i] == pending[i]);
            }
        }
        assert forall|i: int| 0 <= i < due_by(pending, time) implies (#[trigger] pending[i]).time.0
            <= time.0 by {
            assert(shorter[i] == pending[i]);
        }
    }
}

/// A split of an ordered queue that puts what is due at or before `time` in
/// front is the one that `due_by` gives.
proof fn lemma_due_by_unique<E>(pending: Seq<Scheduled<E>>, time: Time, k: int)
    requires
        forall|i: int, j: int| 0 <= i < j < pending.len() ==> #[trigger] before(pending[i], pending[j]),
        0 <= k <= pending.len(),
        forall|i: int| 0 <= i < k ==> (#[trigger] pending[i]).time.0 <= time.0,
        forall|i: int| k <= i < pending.len() ==> (#[trigger] pending[i]).time.0 > time.0,
    ensures
        due_by(pending, time) == k,
{
    lemma_due_by(pending, time);
    let d = due_by(pending, time) as int;
    if d < k {
        assert(pending[d].time.0 <= time.0);
    }
    if k < d {
        assert(pending[k].time.0 > time.0);
    }
}

/// Scheduling keeps a queue in processing order.
pub proof fn schedule_keeps_order<E>(q: QueueState<E>, time: Time, event: E)
    requires
        q.wf(),
        q.next_sequence < u64::MAX,
    ensures
        q.schedule(time, event).wf(),
{
    lemma_due_by(q.pending, time);
    let d = due_by(q.pending, time) as int;
    let after = q.schedule(time, event).pending;
    let old = q.pending;
    assert forall|i: int, j: int| 0 <= i < j < after.len() implies #[trigger] before(
        after[i],
        after[j],
    ) by {
        let oi = if i < d { i } else { i - 1 };
        let oj = if j < d { j } else { j - 1 };
        if i != d && j != d {
            assert(after[i] == old[oi] && after[j] == old[oj]);
            assert(before(old[oi], old[oj]));
        } else if i == d {
            assert(after[j] == old[oj]);
        } else {
            assert(after[i] == old[oi]);
        }
    }
    assert forall|i: int| 0 <= i < after.len() implies (#[trigger] after[i]).sequence
        < q.next_sequence + 1 by {
        if i < d {
            assert(after[i] == old[i]);
        } else if i > d {
            assert(after[i] == old[i - 1]);
        }
    }
}

pub(crate) proof fn lemma_due_by_bound<E>(pending: Seq<Scheduled<E>>, time: Time)
    ensures
        due_by(pending, time) <= pending.len(),
    decreases pending.len(),
{
    if pending.len() > 0 && pending.last().time.0 > time.0 {
        lemma_due_by_bound(pending.drop_last(), time);
    }
}

/// Scheduling adds one event, at its time, and keeps all others.
pub proof fn schedule_adds_one_event<E>(q: QueueState<E>, time: Time, event: E)
    ensures
        q.schedule(time, event).pending.len() == q.pending.len() + 1,
        q.schedule(time, event).pending.to_multiset() == q.pending.to_multiset().insert(
            Scheduled { time, sequence: q.next_sequence, event },
        ),
        q.schedule(time, event).pending.contains(
            Scheduled { time, sequence: q.next_sequence, event },
        ),
        forall|s: Scheduled<E>|
            q.pending.contains(s) ==> #[trigger] q.schedule(time, event).pending.contains(s),
        forall|i: int|
            0 <= i < q.schedule(time, event).pending.len() ==> {
                let s = #[trigger] q.schedule(time, event).pending[i];
                s == (Scheduled { time, sequence: q.next_sequence, event }) || q.pending.contains(s)
            },
{
    broadcast use vstd::seq_lib::group_to_multiset_ensures;

    lemma_due_by_bound(q.pending, time);
    let d = due_by(q.pending, time) as int;
    let after = q.schedule(time, event).pending;
    assert forall|i: int| 0 <= i < after.len() implies {
        let s = #[trigger] after[i];
        s == (Scheduled { time, sequence: q.next_sequence, event }) || q.pending.contains(s)
    } by {
        if i < d {
            assert(after[i] == q.pending[i]);
        } else if i > d {
            assert(after[i] == q.pending[i - 1]);
        }
    }
    assert forall|s: Scheduled<E>| q.pending.contains(s) implies #[trigger] after.contains(s) by {
        let j = choose|j: int| 0 <= j < q.pending.len() && q.pending[j] == s;
        if j < d {
            assert(after[j] == s);
        } else {
            assert(after[j + 1] == s);
        }
    }
    assert(after[d] == Scheduled { time, sequence: q.next_sequence, event });
}

/// Scheduling several events adds them, each at its time, and keeps all others.
pub proof fn schedule_all_adds_events<E>(q: QueueState<E>, items: Seq<(Time, E)>)
    requires
        q.next_sequence + items.len() <= u64::MAX,
    ensures
        q.schedule_all(items).pending.len() == q.pending.len() + items.len(),
        q.schedule_all(items).next_sequence == q.next_sequence + items.len(),
        forall|i: int|
            0 <= i < q.schedule_all(items).pending.len() ==> {
                let s = #[trigger] q.schedule_all(items).pending[i];
                q.pending.contains(s) || items.contains((s.time, s.event))
            },
        forall|s: Scheduled<E>|
            q.pending.contains(s) ==> #[trigger] q.schedule_all(items).pending.contains(s),
    decreases items.len(),
{
    if items.len() > 0 {
        let fewer = items.drop_last();
        schedule_all_adds_events(q, fewer);
        let mid = q.schedule_all(fewer);
        schedule_adds_one_event(mid, items.last().0, items.last().1);
        let after = q.schedule_all(items).pending;
        assert forall|i: int| 0 <= i < after.len() implies {
            let s = #[trigger] after[i];
            q.pending.contains(s) || items.contains((s.time, s.event))
        } by {
            let s = after[i];
            if mid.pending.contains(s) {
                let j = choose|j: int| 0 <= j < mid.pending.len() && mid.pending[j] == s;
                if !q.pending.contains(mid.pending[j]) {
                    let k = choose|k: int| 0 <= k < fewer.len() && fewer[k] == (s.time, s.event);
                    assert(items[k] == (s.time, s.event));
                }
            } else {
                assert(items[items.len() - 1] == (s.time, s.event));
            }
        }
    }
}

/// What a rewriting function keeps, in order.
pub open spec fn kept<E>(outcomes: Seq<Option<(Time, E)>>) -> Seq<(Time, E)>
    decreases outcomes.len(),
{
    if outcomes.len() == 0 {
        Seq::empty()
    } else {
        match outcomes.last() {
            Some(item) => kept(outcomes.drop_last()).push(item),
            None => kept(outcomes.drop_last()),
        }
    }
}

/// Scheduling several events keeps a queue in processing order.
pub proof fn schedule_all_keeps_order<E>(q: QueueState<E>, items: Seq<(Time, E)>)
    requires
        q.wf(),
        q.next_sequence + items.len() <= u64::MAX,
    ensures
        q.schedule_all(items).wf(),
    decreases items.len(),
{
    if items.len() > 0 {
        schedule_all_keeps_order(q, items.drop_last());
        schedule_all_adds_events(q, items.drop_last());
        schedule_keeps_order(q.schedule_all(items.drop_last()), items.last().0, items.last().1);
    }
}

/// Of two events scheduled one after the other, the first is processed first
/// unless it is due later: events that are due at the same time are processed in
/// the order in which they were scheduled.
pub proof fn ties_are_first_in_first_out<E>(
    q: QueueState<E>,
    first: Time,
    a: E,
    second: Time,
    b: E,
    i: int,
    j: int,
)
    requires
        q.wf(),
        q.next_sequence + 2 <= u64::MAX,
        first.0 <= second.0,
        ({
            let after = q.schedule(first, a).schedule(second, b).pending;
            &&& 0 <= i < after.len()
            &&& 0 <= j < after.len()
            &&& after[i].sequence == q.next_sequence
            &&& after[j].sequence == q.next_sequence + 1
        }),
    ensures
        i < j,
        q.schedule(first, a).schedule(second, b).pending[i].event == a,
        q.schedule(first, a).schedule(second, b).pending[j].event == b,
{
    schedule_keeps_order(q, first, a);
    schedule_keeps_order(q.schedule(first, a), second, b);
    let mid = q.schedule(first, a);
    let after = mid.schedule(second, b).pending;
    schedule_adds_one_event(q, first, a);
    schedule_adds_one_event(mid, second, b);
    if mid.pending.contains(after[j]) {
        let k = choose|k: int| 0 <= k < mid.pending.len() && mid.pending[k] == after[j];
        assert(mid.pending[k].sequence < mid.next_sequence);
    }
    assert(mid.pending.contains(after[i]));
    if q.pending.contains(after[i]) {
        let k = choose|k: int| 0 <= k < q.pending.len() && q.pending[k] == after[i];
        assert(q.pending[k].sequence < q.next_sequence);
    } else {
        let k = choose|k: int| 0 <= k < mid.pending.len() && mid.pending[k] == after[i];
        assert(mid.pending[k] == after[i]);
    }
    if j < i {
        assert(before(after[j], after[i]));
    }
}

/// What a queue hands out next is due no later than anything that it keeps.
pub proof fn earliest_first<E>(q: QueueState<E>)
    requires
        q.wf(),
        q.pending.len() > 0,
    ensures
        q.rest().wf(),
        forall|i: int|
            0 <= i < q.rest().pending.len() ==> q.pending[0].time.0 <= (#[trigger] q.rest().pending[i]).time.0,
{
    let rest = q.rest().pending;
    assert forall|i: int, j: int| 0 <= i < j < rest.len() implies #[trigger] before(
        rest[i],
        rest[j],
    ) by {
        assert(before(q.pending[i + 1], q.pending[j + 1]));
    }
    assert forall|i: int| 0 <= i < rest.len() implies q.pending[0].time.0 <= (#[trigger] rest[i]).time.0 by {
        assert(before(q.pending[0], q.pending[i + 1]));
    }
}

/// A priority queue of scheduled events.
#[derive(Debug)]
pub struct EventQueue<E> {
    /// The waiting events, the one to be processed next last.
    entries: Vec<Scheduled<E>>,
    next_sequence: u64,
}

impl<E> View for EventQueue<E> {
    type V = QueueState<E>;

    closed spec fn view(&self) -> QueueState<E> {
        QueueState { pending: self.entries@.reverse(), next_sequence: self.next_sequence }
    }
}

impl<E> EventQueue<E> {
    #[verifier::type_invariant]
    spec fn ordered(self) -> bool {
        self@.wf()
    }

    /// Creates an empty queue.
    pub fn new() -> (q: EventQueue<E>)
        ensures
            q@ == QueueState::<E>::empty(),
    {
        let q = EventQueue { entries: Vec::new(), next_sequence: 0 };
        assert(q@ =~= QueueState::<E>::empty());
        q
    }

    /// Creates an empty queue with room for `capacity` events.
    pub fn with_capacity(capacity: usize) -> (q: EventQueue<E>)
        ensures
            q@ == QueueState::<E>::empty(),
    {
        let q = EventQueue { entries: Vec::with_capacity(capacity), next_sequence: 0 };
        assert(q@ =~= QueueState::<E>::empty());
        q
    }

    /// Schedules `event` at `time` and returns the number it was given.
    pub fn schedule(&mut self, time: Time, event: E) -> (sequence: u64)
        requires
            old(self)@.next_sequence < u64::MAX,
        ensures
            sequence == old(self)@.next_sequence,
            final(self)@ == old(self)@.schedule(time, event),
            final(self)@.wf(),
    {
        proof {
            use_type_invariant(&*self);
        }
        let sequence: u64 = self.next_sequence;
        let mut lo: usize = 0;
        let mut hi: usize = self.entries.len();
        while lo < hi
            invariant
                lo <= hi <= self.entries.len(),
                self@.wf(),
                self@ == old(self)@,
                forall|i: int| 0 <= i < lo ==> (#[trigger] self.entries@[i]).time.0 > time.0,
                forall|i: int|
                    hi <= i < self.entries.len() ==> (#[trigger] self.entries@[i]).time.0
                        <= time.0,
            decreases hi - lo,
        {
            let mid: usize = lo + (hi - lo) / 2;
            let ghost n = self.entries.len() as int;
            if self.entries[mid].time.0 > time.0 {
                assert forall|i: int| 0 <= i < mid + 1 implies (#[trigger] self.entries@[i]).time.0
                    > time.0 by {
                    if i < mid {
                        assert(before(self@.pending[n - 1 - mid], self@.pending[n - 1 - i]));
                    }
                }
                lo = mid + 1;
            } else {
                assert forall|i: int|
                    mid <= i < self.entries.len() implies (#[trigger] self.entries@[i]).time.0
                    <= time.0 by {
                    if mid < i {
                        assert(before(self@.pending[n - 1 - i], self@.pending[n - 1 - mid]));
                    }
                }
                hi = mid;
            }
        }
        let ghost pending = self@.pending;
        proof {
            let n = self.entries.len() as int;
            lemma_due_by_unique(pending, time, n - lo);
            schedule_keeps_order(self@, time, event);
        }
        let mut entries: Vec<Scheduled<E>> = Vec::new();
        core::mem::swap(&mut entries, &mut self.entries);
        entries.insert(lo, Scheduled { time, sequence, event });
        assert(entries@.reverse() =~= old(self)@.schedule(time, event).pending);
        self.next_sequence = sequence + 1;
        self.entries = entries;
        sequence
    }

    /// Schedules every event of `items` in turn.
    pub(crate) fn schedule_all(&mut self, items: Vec<(Time, E)>)
        requires
            old(self)@.next_sequence + items.len() <= u64::MAX,
        ensures
            final(self)@ == old(self)@.schedule_all(items@),
            final(self)@.next_sequence == old(self)@.next_sequence + items.len(),
    {
        let ghost all = items@;
        for item in it: items
            invariant
                it.seq() == all,
                old(self)@.next_sequence + all.len() <= u64::MAX,
                self@ == old(self)@.schedule_all(all.take(it.index())),
                self@.next_sequence == old(self)@.next_sequence + it.index(),
        {
            assert(all.take(it.index() + 1).drop_last() =~= all.take(it.index()));
            self.schedule(item.0, item.1);
        }
        assert(all.take(all.len() as int) =~= all);
    }

    /// Takes all waiting events off the queue, in processing order.
    pub(crate) fn drain(&mut self) -> (events: Vec<Scheduled<E>>)
        ensures
            events@ == old(self)@.pending,
            final(self)@ == old(self)@.cleared(),
    {
        let mut entries: Vec<Scheduled<E>> = Vec::new();
        core::mem::swap(&mut entries, &mut self.entries);
        let mut events: Vec<Scheduled<E>> = Vec::with_capacity(entries.len());
        let ghost all = entries@;
        while entries.len() > 0
            invariant
                events@ + entries@.reverse() =~= all.reverse(),
            decreases entries.len(),
        {
            let ghost rest = entries@.drop_last();
            if let Some(s) = entries.pop() {
                assert(entries@ =~= rest);
                events.push(s);
            }
        }
        assert(events@ =~= all.reverse());
        assert(self@ =~= old(self)@.cleared());
        events
    }

    /// Hands every waiting event to `f`, in processing order. What `f` returns is
    /// scheduled anew; where it returns nothing, the event is gone.
    pub fn rewrite<F>(&mut self, f: F) where F: FnMut(Scheduled<E>) -> Option<(Time, E)>
        requires
            forall|s: Scheduled<E>| call_requires(f, (s,)),
            old(self)@.next_sequence + old(self)@.pending.len() <= u64::MAX,
        ensures
            exists|outcomes: Seq<Option<(Time, E)>>|
                {
                    &&& outcomes.len() == old(self)@.pending.len()
                    &&& forall|i: int|
                        0 <= i < outcomes.len() ==> call_ensures(
                            f,
                            (old(self)@.pending[i],),
                            #[trigger] outcomes[i],
                        )
                    &&& final(self)@ == old(self)@.cleared().schedule_all(#[trigger] kept(outcomes))
                },
    {
        let ghost given = f;
        let mut f = f;
        let events: Vec<Scheduled<E>> = self.drain();
        let ghost all = events@;
        let mut items: Vec<(Time, E)> = Vec::new();
        let ghost mut outcomes: Seq<Option<(Time, E)>> = Seq::empty();
        for s in it: events
            invariant
                f == given,
                it.seq() == all,
                all == old(self)@.pending,
                forall|s: Scheduled<E>| call_requires(f, (s,)),
                outcomes.len() == it.index(),
                items@ == kept(outcomes),
                items.len() <= it.index(),
                forall|i: int|
                    0 <= i < it.index() ==> call_ensures(f, (all[i],), #[trigger] outcomes[i]),
        {
            let outcome = f(s);
            let ghost longer = outcomes.push(outcome);
            assert(longer.drop_last() =~= outcomes);
            proof {
                outcomes = longer;
            }
            if let Some(item) = outcome {
                items.push(item);
            }
        }
        self.schedule_all(items);
    }

    /// Removes the next event to process and returns it.
    pub fn pop(&mut self) -> (next: Option<Scheduled<E>>)
        ensures
            old(self)@.wf(),
            final(self)@.wf(),
            old(self)@.pending.len() == 0 ==> next is None && final(self)@ == old(self)@,
            old(self)@.pending.len() > 0 ==> next == Some(old(self)@.pending[0]) && final(self)@
                == old(self)@.rest(),
    {
        proof {
            use_type_invariant(&*self);
        }
        let ghost before_pop = self@;
        let mut entries: Vec<Scheduled<E>> = Vec::new();
        core::mem::swap(&mut entries, &mut self.entries);
        let next = entries.pop();
        proof {
            if before_pop.pending.len() > 0 {
                assert(entries@.reverse() =~= before_pop.rest().pending);
                assert forall|i: int, j: int|
                    0 <= i < j < before_pop.rest().pending.len() implies #[trigger] before(
                    before_pop.rest().pending[i],
                    before_pop.rest().pending[j],
                ) by {
                    assert(before(before_pop.pending[i + 1], before_pop.pending[j + 1]));
                }
            } else {
                assert(entries@.reverse() =~= before_pop.pending);
            }
        }
        self.entries = entries;
        next
    }

    /// The next event to process.
    pub fn peek(&self) -> (next: Option<&Scheduled<E>>)
        ensures
            self@.wf(),
            self@.pending.len() == 0 ==> next is None,
            self@.pending.len() > 0 ==> next == Some(&self@.pending[0]),
    {
        proof {
            use_type_invariant(self);
        }
        if self.entries.len() == 0 {
            None
        } else {
            Some(&self.entries[self.entries.len() - 1])
        }
    }

    /// Whether no event waits.
    pub fn is_empty(&self) -> (r: bool)
        ensures
            r == (self@.pending.len() == 0),
    {
        self.entries.len() == 0
    }

    /// The number of events that wait.
    pub fn len(&self) -> (n: usize)
        ensures
            n == self@.pending.len(),
    {
        self.entries.len()
    }

    /// Drops all waiting events.
    pub fn clear(&mut self)
        ensures
            final(self)@ == old(self)@.cleared(),
    {
        self.entries = Vec::new();
        assert(self@ =~= old(self)@.cleared());
    }

    /// The number of events that were ever scheduled.
    pub fn total_scheduled(&self) -> (n: u64)
        ensures
            n == self@.next_sequence,
    {
        self.next_sequence
    }
}

impl<E> Default for EventQueue<E> {
    fn default() -> (q: EventQueue<E>)
        ensures
            q@ == QueueState::<E>::empty(),
    {
        EventQueue::new()
    }
}

} // verus!
