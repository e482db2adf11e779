//! In what order events are processed, and what a simulation does with them.

use core::cmp::Ordering;

use vstd::prelude::*;
use vstd::std_specs::cmp::{PartialEqSpec, PartialOrdSpec};

use crate::queue::{
    due_by, kept, lemma_due_by_bound, schedule_adds_one_event, schedule_keeps_order, EventQueue,
    QueueState, Scheduled,
};
use crate::sim::{is_run, SimState, Simulation, SimulationStats};
use crate::time::{Duration, Time};

verus! {

/// Whether events stand in the order in which they are due, and of several that are due at the
/// same time in the order of their numbers.
pub open spec fn in_due_order<E>(pending: Seq<Scheduled<E>>) -> bool {
    forall|i: int, j: int|
        #![trigger pending[i], pending[j]]
        0 <= i < j < pending.len() ==> pending[i].time.0 < pending[j].time.0 || (
        pending[i].time.0 == pending[j].time.0 && pending[i].sequence < pending[j].sequence)
}

/// Whether all numbers given so far are below the next one.
pub open spec fn numbered_below<E>(q: QueueState<E>) -> bool {
    forall|i: int|
        0 <= i < q.pending.len() ==> (#[trigger] q.pending[i]).sequence < q.next_sequence
}

/// A queue is well-formed exactly if its events stand in the order in which they are due and
/// have numbers below the next one.
pub proof fn queues_stand_in_due_order<E>(q: QueueState<E>)
    ensures
        q.wf() <==> in_due_order(q.pending) && numbered_below(q),
{
    if q.wf() {
        assert forall|i: int, j: int|
            #![trigger q.pending[i], q.pending[j]]
            0 <= i < j < q.pending.len() implies q.pending[i].time.0 < q.pending[j].time.0 || (
        q.pending[i].time.0 == q.pending[j].time.0 && q.pending[i].sequence
            < q.pending[j].sequence) by {
            assert(crate::queue::before(q.pending[i], q.pending[j]));
        }
    }
    if in_due_order(q.pending) && numbered_below(q) {
        assert forall|i: int, j: int| 0 <= i < j < q.pending.len() implies #[trigger]
        crate::queue::before(q.pending[i], q.pending[j]) by {
            assert(q.pending[i].time.0 <= q.pending[j].time.0);
        }
    }
}

/// Of two scheduled events the one that is processed first is the greater: the one that is due
/// earlier, or that has the lower number if both are due at the same time. They are equal
/// exactly if neither is processed first.
pub proof fn what_is_processed_first_is_greater<E>(a: Scheduled<E>, b: Scheduled<E>)
    ensures
        a.time.0 < b.time.0 ==> a.partial_cmp_spec(&b) == Some(Ordering::Greater),
        a.time.0 > b.time.0 ==> a.partial_cmp_spec(&b) == Some(Ordering::Less),
        a.time.0 == b.time.0 && a.sequence < b.sequence ==> a.partial_cmp_spec(&b) == Some(
            Ordering::Greater,
        ),
        a.time.0 == b.time.0 && a.sequence > b.sequence ==> a.partial_cmp_spec(&b) == Some(
            Ordering::Less,
        ),
        a.time.0 == b.time.0 && a.sequence == b.sequence ==> a.partial_cmp_spec(&b) == Some(
            Ordering::Equal,
        ),
        a.eq_spec(&b) <==> a.time.0 == b.time.0 && a.sequence == b.sequence,
{
}

/// A new event waits with the next number, at its own time, behind everything that is due by
/// then and before everything that is due later. Nothing else changes.
pub proof fn new_events_wait_behind_what_is_due<E>(q: QueueState<E>, time: Time, event: E) -> (place:
    int)
    requires
        in_due_order(q.pending),
        numbered_below(q),
        q.next_sequence < u64::MAX,
    ensures
        ({
            let after = q.schedule(time, event);
            &&& 0 <= place <= q.pending.len()
            &&& after.pending == q.pending.insert(
                place,
                Scheduled { time, sequence: q.next_sequence, event },
            )
            &&& after.next_sequence == q.next_sequence + 1
            &&& forall|i: int| 0 <= i < place ==> (#[trigger] q.pending[i]).time.0 <= time.0
            &&& forall|i: int|
                place <= i < q.pending.len() ==> (#[trigger] q.pending[i]).time.0 > time.0
            &&& in_due_order(after.pending)
            &&& numbered_below(after)
        }),
{
    queues_stand_in_due_order(q);
    schedule_keeps_order(q, time, event);
    queues_stand_in_due_order(q.schedule(time, event));
    lemma_due_by_bound(q.pending, time);
    let place = due_by(q.pending, time) as int;
    let after = q.schedule(time, event).pending;
    assert(after[place].sequence == q.next_sequence);
    assert forall|i: int| 0 <= i < place implies (#[trigger] q.pending[i]).time.0 <= time.0 by {
        assert(after[i] == q.pending[i]);
        assert(after[i].time.0 <= after[place].time.0);
    }
    assert forall|i: int| place <= i < q.pending.len() implies (#[trigger] q.pending[i]).time.0
        > time.0 by {
        assert(after[i + 1] == q.pending[i]);
        let a = after[place];
        let b = after[i + 1];
        assert(b.sequence < q.next_sequence);
    }
    place
}

/// Events that are scheduled one after the other get numbers one after the other, and each
/// waits at its own time.
pub proof fn events_are_numbered_in_turn<E>(q: QueueState<E>, items: Seq<(Time, E)>)
    requires
        q.next_sequence + items.len() <= u64::MAX,
    ensures
        q.schedule_all(items).next_sequence == q.next_sequence + items.len(),
        q.schedule_all(items).pending.len() == q.pending.len() + items.len(),
        forall|k: int|
            0 <= k < items.len() ==> q.schedule_all(items).pending.contains(
                Scheduled {
                    time: (#[trigger] items[k]).0,
                    sequence: (q.next_sequence + k) as u64,
                    event: items[k].1,
                },
            ),
        forall|s: Scheduled<E>|
            q.pending.contains(s) ==> #[trigger] q.schedule_all(items).pending.contains(s),
    decreases items.len(),
{
    if items.len() > 0 {
        let fewer = items.drop_last();
        events_are_numbered_in_turn(q, fewer);
        let mid = q.schedule_all(fewer);
        schedule_adds_one_event(mid, items.last().0, items.last().1);
        assert forall|k: int| 0 <= k < items.len() implies q.schedule_all(items).pending.contains(
            Scheduled {
                time: (#[trigger] items[k]).0,
                sequence: (q.next_sequence + k) as u64,
                event: items[k].1,
            },
        ) by {
            if k < fewer.len() {
                assert(fewer[k] == items[k]);
                assert(mid.pending.contains(
                    Scheduled {
                        time: fewer[k].0,
                        sequence: (q.next_sequence + k) as u64,
                        event: fewer[k].1,
                    },
                ));
            }
        }
    }
}

/// Taking the next event off a queue takes the first and leaves the rest in their order, and
/// clearing a queue leaves nothing; neither gives a number again.
pub proof fn queues_are_emptied_from_the_front<E>(q: QueueState<E>)
    requires
        q.pending.len() > 0,
    ensures
        q.rest().pending.len() == q.pending.len() - 1,
        forall|i: int| 0 <= i < q.rest().pending.len() ==> #[trigger] q.rest().pending[i]
            == q.pending[i + 1],
        q.rest().next_sequence == q.next_sequence,
        q.cleared().pending.len() == 0,
        q.cleared().next_sequence == q.next_sequence,
        QueueState::<E>::empty().pending.len() == 0,
        QueueState::<E>::empty().next_sequence == 0,
{
}

/// What a rewriting function keeps are the outcomes that there are, in their order: `places`
/// tells where each of them stands among the outcomes.
pub proof fn rewriting_keeps_what_is_returned<E>(outcomes: Seq<Option<(Time, E)>>) -> (places: Seq<
    int,
>)
    ensures
        places.len() == kept(outcomes).len(),
        forall|k: int|
            0 <= k < places.len() ==> 0 <= #[trigger] places[k] < outcomes.len()
                && outcomes[places[k]] == Some(kept(outcomes)[k]),
        forall|j: int, k: int|
            #![trigger places[j], places[k]]
            0 <= j < k < places.len() ==> places[j] < places[k],
        forall|i: int|
            0 <= i < outcomes.len() && (#[trigger] outcomes[i]) is Some ==> places.contains(i),
    decreases outcomes.len(),
{
    if outcomes.len() == 0 {
        Seq::empty()
    } else {
        let fewer = outcomes.drop_last();
        let before = rewriting_keeps_what_is_returned(fewer);
        let last = outcomes.len() - 1;
        let places = if outcomes.last() is Some {
            before.push(last)
        } else {
            before
        };
        assert forall|k: int| 0 <= k < places.len() implies 0 <= #[trigger] places[k]
            < outcomes.len() && outcomes[places[k]] == Some(kept(outcomes)[k]) by {
            if k < before.len() {
                assert(places[k] == before[k]);
                assert(fewer[before[k]] == Some(kept(fewer)[k]));
            }
        }
        assert forall|j: int, k: int|
            #![trigger places[j], places[k]]
            0 <= j < k < places.len() implies places[j] < places[k] by {
            assert(places[j] == before[j]);
            if k < before.len() {
                assert(places[k] == before[k]);
            }
        }
        assert forall|i: int|
            0 <= i < outcomes.len() && (#[trigger] outcomes[i]) is Some implies places.contains(
            i,
        ) by {
            if i < last {
                assert(fewer[i] == outcomes[i]);
                assert(before.contains(i));
                let k = choose|k: int| 0 <= k < before.len() && before[k] == i;
                assert(places[k] == i);
            } else {
                assert(places[places.len() - 1] == i);
            }
        }
        places
    }
}

/// Handling an event sets the clock to the time at which it is due, counts it, and takes it off
/// the queue. The figures tell the count, the clock and the numbers given.
pub proof fn clocks_show_the_time_of_the_event<E>(sim: SimState<E>, time: Time, event: E)
    requires
        sim.queue.pending.len() > 0,
        sim.events_processed < u64::MAX,
    ensures
        sim.advanced().now == sim.queue.pending[0].time,
        sim.advanced().events_processed == sim.events_processed + 1,
        sim.advanced().queue.pending == sim.queue.pending.drop_first(),
        sim.advanced().queue.next_sequence == sim.queue.next_sequence,
        sim.schedule(time, event).now == sim.now,
        sim.schedule(time, event).events_processed == sim.events_processed,
        sim.schedule(time, event).queue == sim.queue.schedule(time, event),
        sim.stats().events_processed == sim.events_processed,
        sim.stats().final_time == sim.now,
        sim.stats().events_scheduled == sim.queue.next_sequence,
        SimState::<E>::initial().now.0 == 0,
        SimState::<E>::initial().events_processed == 0,
        SimState::<E>::initial().queue.pending.len() == 0,
        SimState::<E>::initial().queue.next_sequence == 0,
{
}

/// From each point of a run the handler is given the event that is due first, at the time at
/// which it is due.
pub proof fn runs_take_the_earliest_event<E>(
    handles: spec_fn(SimState<E>, E, SimState<E>) -> bool,
    states: Seq<SimState<E>>,
    i: int,
) -> (given: SimState<E>)
    requires
        is_run(handles, states),
        0 <= i < states.len() - 1,
        in_due_order(states[i].queue.pending),
        states[i].events_processed < u64::MAX,
    ensures
        ({
            let next = states[i].queue.pending[0];
            &&& states[i].queue.pending.len() > 0
            &&& handles(given, next.event, states[i + 1])
            &&& given.now == next.time
            &&& given.events_processed == states[i].events_processed + 1
            &&& given.queue.pending == states[i].queue.pending.drop_first()
            &&& forall|k: int|
                0 <= k < states[i].queue.pending.len() ==> next.time.0 <= (
                #[trigger] states[i].queue.pending[k]).time.0
        }),
{
    assert(states[i].queue.pending.len() > 0);
    states[i].advanced()
}

/// A queue hands out what waits in it from the front, the event that is due first, and an event
/// is not handed out again; looking at it changes nothing. Its length is the number of events
/// that wait, and it has given as many numbers as were scheduled.
pub proof fn queues_hand_out_the_earliest_event<E>(
    q: &mut EventQueue<E>,
    next: Option<Scheduled<E>>,
    same: EventQueue<E>,
    seen: Option<&Scheduled<E>>,
    n: usize,
    empty: bool,
    total: u64,
)
    requires
        call_ensures(EventQueue::<E>::pop, (q,), next),
        same@ == old(q)@,
        call_ensures(EventQueue::<E>::peek, (&same,), seen),
        call_ensures(EventQueue::<E>::len, (&same,), n),
        call_ensures(EventQueue::<E>::is_empty, (&same,), empty),
        call_ensures(EventQueue::<E>::total_scheduled, (&same,), total),
    ensures
        n == old(q)@.pending.len(),
        empty == (n == 0),
        total == old(q)@.next_sequence,
        next is None <==> empty,
        seen is None <==> empty,
        final(q)@.next_sequence == old(q)@.next_sequence,
        next matches Some(s) ==> {
            &&& seen == Some(&s)
            &&& seq![s] + final(q)@.pending == old(q)@.pending
            &&& forall|i: int|
                0 <= i < final(q)@.pending.len() ==> s.time.0 < (
                #[trigger] final(q)@.pending[i]).time.0 || (s.time.0
                    == final(q)@.pending[i].time.0 && s.sequence < final(q)@.pending[i].sequence)
        },
{
    queues_stand_in_due_order(old(q)@);
    if next is Some {
        assert(seq![next->0] + final(q)@.pending =~= old(q)@.pending);
        assert forall|i: int| 0 <= i < final(q)@.pending.len() implies next->0.time.0 < (
        #[trigger] final(q)@.pending[i]).time.0 || (next->0.time.0 == final(q)@.pending[i].time.0
            && next->0.sequence < final(q)@.pending[i].sequence) by {
            assert(final(q)@.pending[i] == old(q)@.pending[i + 1]);
            assert(old(q)@.pending[0] == next->0);
        }
    }
}

/// Scheduling returns the number of the event, which is the number of those scheduled before; a
/// queue that is cleared has nothing left and goes on with its numbers.
pub proof fn scheduling_returns_the_number<E>(
    q: &mut EventQueue<E>,
    time: Time,
    event: E,
    r: u64,
    fresh: EventQueue<E>,
    roomy: EventQueue<E>,
    capacity: usize,
)
    requires
        call_ensures(EventQueue::<E>::new, (), fresh),
        call_ensures(EventQueue::<E>::with_capacity, (capacity,), roomy),
    ensures
        fresh@.pending.len() == 0,
        fresh@.next_sequence == 0,
        roomy@ == fresh@,
        call_ensures(EventQueue::<E>::schedule, (q, time, event), r) ==> {
            &&& r == old(q)@.next_sequence
            &&& final(q)@ == old(q)@.schedule(time, event)
        },
        call_ensures(EventQueue::<E>::clear, (q,), ()) ==> {
            &&& final(q)@.pending.len() == 0
            &&& final(q)@.next_sequence == old(q)@.next_sequence
        },
{
}

/// A step of a simulation hands out the event that is due first, sets the clock to its time and
/// counts it; without an event nothing changes.
pub proof fn steps_follow_the_clock<E>(sim: &mut Simulation<E>, next: Option<Scheduled<E>>)
    requires
        call_ensures(Simulation::<E>::step, (sim,), next),
        old(sim)@.events_processed < u64::MAX,
    ensures
        next is None <==> old(sim)@.queue.pending.len() == 0,
        next is None ==> final(sim)@ == old(sim)@,
        next matches Some(s) ==> {
            &&& seq![s] + final(sim)@.queue.pending == old(sim)@.queue.pending
            &&& final(sim)@.queue.next_sequence == old(sim)@.queue.next_sequence
            &&& final(sim)@.now == s.time
            &&& final(sim)@.events_processed == old(sim)@.events_processed + 1
        },
{
    if next is Some {
        assert(seq![next->0] + final(sim)@.queue.pending =~= old(sim)@.queue.pending);
    }
}

/// An event is scheduled at the time that is given, or that much later than now, and its number
/// is returned; the clock stays. Clearing a simulation takes what waits and nothing else.
pub proof fn simulations_schedule_as_told<E>(
    sim: &mut Simulation<E>,
    time: Time,
    delay: Duration,
    event: E,
    r: u64,
)
    ensures
        ({
            let before = old(sim)@;
            let after = final(sim)@;
            &&& call_ensures(Simulation::<E>::schedule, (sim, time, event), r) ==> {
                &&& r == before.queue.next_sequence
                &&& after.queue == before.queue.schedule(time, event)
                &&& after.now == before.now
                &&& after.events_processed == before.events_processed
            }
            &&& call_ensures(Simulation::<E>::schedule_in, (sim, delay, event), r)
                && before.now.0 + delay.0 <= u64::MAX ==> {
                &&& r == before.queue.next_sequence
                &&& after.queue == before.queue.schedule(
                    Time((before.now.0 + delay.0) as u64),
                    event,
                )
                &&& after.now == before.now
                &&& after.events_processed == before.events_processed
            }
            &&& call_ensures(Simulation::<E>::clear, (sim,), ()) ==> {
                &&& after.queue.pending.len() == 0
                &&& after.queue.next_sequence == before.queue.next_sequence
                &&& after.now == before.now
                &&& after.events_processed == before.events_processed
            }
        }),
{
}

/// What a simulation is asked it answers by its state, and a new one stands at time zero with
/// nothing waiting and nothing processed.
pub proof fn simulations_know_their_state<E>(
    sim: Simulation<E>,
    now: Time,
    processed: u64,
    waiting: usize,
    empty: bool,
    total: u64,
    next: Option<&Scheduled<E>>,
    fresh: Simulation<E>,
)
    requires
        call_ensures(Simulation::<E>::now, (&sim,), now),
        call_ensures(Simulation::<E>::events_processed, (&sim,), processed),
        call_ensures(Simulation::<E>::pending_events, (&sim,), waiting),
        call_ensures(Simulation::<E>::is_empty, (&sim,), empty),
        call_ensures(Simulation::<E>::total_scheduled, (&sim,), total),
        call_ensures(Simulation::<E>::peek, (&sim,), next),
        call_ensures(Simulation::<E>::new, (), fresh),
    ensures
        now == sim@.now,
        processed == sim@.events_processed,
        waiting == sim@.queue.pending.len(),
        empty == (waiting == 0),
        total == sim@.queue.next_sequence,
        next is None <==> empty,
        next matches Some(s) ==> *s == sim@.queue.pending[0],
        fresh@.now.0 == 0,
        fresh@.events_processed == 0,
        fresh@.queue.pending.len() == 0,
        fresh@.queue.next_sequence == 0,
{
}

/// A run ends when nothing is left to be processed, and its figures are those of that point: the
/// time, the events processed and the numbers given.
pub proof fn runs_end_when_nothing_is_left<E, F: FnMut(&mut Simulation<E>, E)>(
    sim: Simulation<E>,
    handler: F,
    stats: SimulationStats,
)
    requires
        call_ensures(Simulation::<E>::run::<F>, (sim, handler), stats),
    ensures
        exists|states: Seq<SimState<E>>|
            #![trigger states.last()]
            {
                &&& states.len() > 0
                &&& states[0] == sim@
                &&& is_run(
                    |s0: SimState<E>, e: E, s1: SimState<E>|
                        exists|s: &mut Simulation<E>|
                            s@ == s0 && final(s)@ == s1 && #[trigger] call_ensures(
                                handler,
                                (s, e),
                                (),
                            ),
                    states,
                )
                &&& states.last().queue.pending.len() == 0
                &&& stats.final_time == states.last().now
                &&& stats.events_processed == states.last().events_processed
                &&& stats.events_scheduled == states.last().queue.next_sequence
            },
{
}

} // verus!
