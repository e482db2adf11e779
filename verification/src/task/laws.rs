//! Laws of task-based simulations.

use vstd::prelude::*;

use crate::net::graph::{route_of, Graph};
use crate::net::node::NodeId;
use crate::net::routing::healing_undoes_failing;
use crate::queue::{
    due_by, earliest_first, lemma_due_by_bound, schedule_adds_one_event, schedule_all_adds_events,
    schedule_all_keeps_order, schedule_keeps_order, QueueState, Scheduled,
};
use crate::task::event::{
    FailureAction, Shutdown, TaskEvent, TaskSimStats, TaskTraceDropReason, TaskTraceEvent,
};
use crate::task::run::{
    arrives, begins, drives, is_task_run, lemma_step_counts, may_finish, may_tell, upcoming,
    Awaited, Driven, Outcome, Reply, RunState, Step,
};
use crate::task::state::{
    in_telling_order, lemma_dropping_all, lemma_in_telling_order, lemma_survivors, losses,
    stranded, survivors, Loss, TaskState,
};
use crate::time::Time;
use crate::trace::{
    difference, traces_agree_iff_same_events, verdict, TraceEvent, TraceMismatch, TraceState,
};

verus! {

/// The number of messages on their way among the waiting events.
pub open spec fn on_the_way<M>(pending: Seq<Scheduled<TaskEvent<M>>>) -> nat
    decreases pending.len(),
{
    if pending.len() == 0 {
        0
    } else {
        on_the_way(pending.drop_last()) + if pending.last().event is Deliver {
            1nat
        } else {
            0
        }
    }
}

proof fn lemma_on_the_way_concat<M>(
    a: Seq<Scheduled<TaskEvent<M>>>,
    b: Seq<Scheduled<TaskEvent<M>>>,
)
    ensures
        on_the_way(a + b) == on_the_way(a) + on_the_way(b),
    decreases b.len(),
{
    if b.len() == 0 {
        assert(a + b =~= a);
    } else {
        assert((a + b).drop_last() =~= a + b.drop_last());
        lemma_on_the_way_concat(a, b.drop_last());
    }
}

proof fn lemma_on_the_way_one<M>(s: Scheduled<TaskEvent<M>>)
    ensures
        on_the_way(seq![s]) == if s.event is Deliver {
            1nat
        } else {
            0nat
        },
{
    assert(seq![s].drop_last() =~= Seq::<Scheduled<TaskEvent<M>>>::empty());
    assert(on_the_way(seq![s].drop_last()) == 0);
}

/// Scheduling an event puts a message on its way exactly if it is a delivery.
proof fn lemma_on_the_way_schedule<M>(q: QueueState<TaskEvent<M>>, time: Time, event: TaskEvent<M>)
    ensures
        on_the_way(q.schedule(time, event).pending) == on_the_way(q.pending) + if event is Deliver {
            1nat
        } else {
            0nat
        },
{
    lemma_due_by_bound(q.pending, time);
    let d = due_by(q.pending, time) as int;
    let s = Scheduled { time, sequence: q.next_sequence, event };
    let after = q.schedule(time, event).pending;
    assert(after =~= q.pending.take(d) + seq![s] + q.pending.skip(d));
    assert(q.pending =~= q.pending.take(d) + q.pending.skip(d));
    lemma_on_the_way_concat(q.pending.take(d) + seq![s], q.pending.skip(d));
    lemma_on_the_way_concat(q.pending.take(d), seq![s]);
    lemma_on_the_way_concat(q.pending.take(d), q.pending.skip(d));
    lemma_on_the_way_one(s);
}

/// The number of deliveries among events to schedule.
spec fn deliveries<M>(items: Seq<(Time, TaskEvent<M>)>) -> nat
    decreases items.len(),
{
    if items.len() == 0 {
        0
    } else {
        deliveries(items.drop_last()) + if items.last().1 is Deliver {
            1nat
        } else {
            0
        }
    }
}

proof fn lemma_on_the_way_schedule_all<M>(
    q: QueueState<TaskEvent<M>>,
    items: Seq<(Time, TaskEvent<M>)>,
)
    ensures
        on_the_way(q.schedule_all(items).pending) == on_the_way(q.pending) + deliveries(items),
    decreases items.len(),
{
    if items.len() > 0 {
        lemma_on_the_way_schedule_all(q, items.drop_last());
        lemma_on_the_way_schedule(
            q.schedule_all(items.drop_last()),
            items.last().0,
            items.last().1,
        );
    }
}

proof fn lemma_sweep_splits<M>(state: TaskState<M>, pending: Seq<Scheduled<TaskEvent<M>>>)
    ensures
        deliveries(survivors(state.graph, state.partitions, pending)) + losses(
            state.graph,
            state.partitions,
            pending,
        ).len() == on_the_way(pending),
        survivors(state.graph, state.partitions, pending).len() <= pending.len(),
    decreases pending.len(),
{
    if pending.len() > 0 {
        lemma_sweep_splits(state, pending.drop_last());
        let kept = survivors(state.graph, state.partitions, pending);
        let before = survivors(state.graph, state.partitions, pending.drop_last());
        if stranded(state.graph, state.partitions, pending.last().event) is None {
            assert(kept.drop_last() =~= before);
        }
    }
}

/// The number of deliveries that a trace tells of.
pub open spec fn deliveries_told(events: Seq<TraceEvent<TaskTraceEvent>>) -> nat
    decreases events.len(),
{
    if events.len() == 0 {
        0
    } else {
        deliveries_told(events.drop_last()) + if events.last().event is Delivered {
            1nat
        } else {
            0
        }
    }
}

/// The number of drops that a trace tells of.
pub open spec fn drops_told(events: Seq<TraceEvent<TaskTraceEvent>>) -> nat
    decreases events.len(),
{
    if events.len() == 0 {
        0
    } else {
        drops_told(events.drop_last()) + if events.last().event is Dropped {
            1nat
        } else {
            0
        }
    }
}

proof fn lemma_told_recorded(t: TraceState<TaskTraceEvent>, time: Time, event: TaskTraceEvent)
    ensures
        deliveries_told(t.recorded(time, event).events) == deliveries_told(t.events)
            + if event is Delivered {
            1nat
        } else {
            0nat
        },
        drops_told(t.recorded(time, event).events) == drops_told(t.events) + if event is Dropped {
            1nat
        } else {
            0nat
        },
{
    assert(t.recorded(time, event).events.drop_last() =~= t.events);
}

impl<M> TaskState<M> {
    /// Whether the trace, where one is recorded, tells of as many drops as were
    /// counted, and of `delivered` deliveries.
    pub open spec fn told_of(self, delivered: nat) -> bool {
        self.trace matches Some(t) ==> deliveries_told(t.events) == delivered && drops_told(
            t.events,
        ) == self.messages_dropped
    }

    /// Whether nothing that waits is overdue.
    pub open spec fn timely(self) -> bool {
        &&& self.queue.wf()
        &&& forall|i: int|
            0 <= i < self.queue.pending.len() ==> self.now.0 <= (
            #[trigger] self.queue.pending[i]).time.0
    }

    /// The same state without a trace.
    pub open spec fn untraced(self) -> TaskState<M> {
        TaskState { trace: None, ..self }
    }

    proof fn lemma_dropping_all(self, lost: Seq<Loss>, delivered: nat)
        requires
            self.messages_dropped + lost.len() <= u64::MAX,
        ensures
            self.dropping_all(lost) == (TaskState {
                messages_dropped: (self.messages_dropped + lost.len()) as u64,
                trace: self.dropping_all(lost).trace,
                ..self
            }),
            self.told_of(delivered) ==> self.dropping_all(lost).told_of(delivered),
            self.dropping_all(lost).untraced() == self.untraced().dropping_all(lost),
        decreases lost.len(),
    {
        if lost.len() > 0 {
            self.lemma_dropping_all(lost.drop_last(), delivered);
            let before = self.dropping_all(lost.drop_last());
            let loss = lost.last();
            if let Some(t) = before.trace {
                lemma_told_recorded(
                    t,
                    before.now,
                    TaskTraceEvent::Dropped { src: loss.0.0, dst: loss.1.0, reason: loss.2 },
                );
            }
        }
    }

    proof fn lemma_scheduling_timely(self, time: Time, event: TaskEvent<M>)
        requires
            self.timely(),
            self.now.0 <= time.0,
            self.scheduling(time, event) is Some,
        ensures
            self.scheduling(time, event)->0.timely(),
    {
        schedule_keeps_order(self.queue, time, event);
        schedule_adds_one_event(self.queue, time, event);
        let after = self.queue.schedule(time, event).pending;
        assert forall|i: int| 0 <= i < after.len() implies self.now.0 <= (
        #[trigger] after[i]).time.0 by {
            if self.queue.pending.contains(after[i]) {
                let j = choose|j: int|
                    0 <= j < self.queue.pending.len() && self.queue.pending[j] == after[i];
                assert(self.now.0 <= self.queue.pending[j].time.0);
            }
        }
    }

    /// A message that is sent is on its way or dropped; the trace tells of a drop
    /// and of nothing else; nothing becomes overdue; and recording a trace changes
    /// nothing but the trace.
    pub proof fn sending_is_accounted_for(
        self,
        src: NodeId,
        dst: NodeId,
        payload: M,
        delivered: nat,
    )
        requires
            self.posting(src, dst, payload) is Some,
        ensures
            ({
                let after = self.posting(src, dst, payload)->0;
                &&& after.messages_dropped + on_the_way(after.queue.pending)
                    == self.messages_dropped + on_the_way(self.queue.pending) + 1
                &&& self.told_of(delivered) ==> after.told_of(delivered)
                &&& self.timely() ==> after.timely()
                &&& self.untraced().posting(src, dst, payload) == Some(after.untraced())
                &&& after.inboxes == self.inboxes
                &&& after.shutdown == self.shutdown
            }),
    {
        let after = self.posting(src, dst, payload)->0;
        if self.partitioned(src, dst) || route_of(
            self.graph,
            src,
            dst,
        ) is None {
            let reason = if self.partitioned(src, dst) {
                TaskTraceDropReason::Partitioned
            } else {
                TaskTraceDropReason::NoRoute
            };
            if let Some(t) = self.trace {
                lemma_told_recorded(
                    t,
                    self.now,
                    TaskTraceEvent::Dropped { src: src.0, dst: dst.0, reason },
                );
            }
        } else {
            let route = route_of(self.graph, src, dst)->0;
            let time = Time((self.now.0 + route.total_latency.0) as u64);
            let event = TaskEvent::Deliver { src, dst, payload, sent_at: self.now };
            lemma_on_the_way_schedule(self.queue, time, event);
            if self.timely() {
                self.lemma_scheduling_timely(time, event);
            }
        }
    }

    /// A failure or a repair loses no message: what it drops is counted and told;
    /// nothing becomes overdue; and recording a trace changes nothing but the trace.
    pub proof fn failures_are_accounted_for(self, action: FailureAction, delivered: nat)
        requires
            self.applying(action) is Some,
        ensures
            ({
                let after = self.applying(action)->0;
                &&& after.messages_dropped + on_the_way(after.queue.pending)
                    == self.messages_dropped + on_the_way(self.queue.pending)
                &&& self.told_of(delivered) ==> after.told_of(delivered)
                &&& self.timely() ==> after.timely()
                &&& self.untraced().applying(action) == Some(after.untraced())
                &&& after.inboxes == self.inboxes
                &&& after.ready == self.ready
                &&& after.shutdown == self.shutdown
                &&& after.now == self.now
            }),
    {
        let changed = self.changed(action);
        if action.fails() && self.drop_in_flight_on_failure {
            let pending = changed.queue.pending;
            let kept = survivors(changed.graph, changed.partitions, pending);
            let lost = losses(changed.graph, changed.partitions, pending);
            lemma_sweep_splits(changed, pending);
            lemma_in_telling_order(lost);
            let cleared = changed.queue.cleared();
            lemma_on_the_way_schedule_all(cleared, kept);
            let swept = TaskState { queue: cleared.schedule_all(kept), ..changed };
            swept.lemma_dropping_all(in_telling_order(lost), delivered);
            assert(swept.untraced() == TaskState {
                queue: cleared.schedule_all(kept),
                ..changed.untraced()
            });
            assert(changed.untraced() == self.untraced().changed(action));
            if self.timely() {
                schedule_all_keeps_order(cleared, kept);
                schedule_all_adds_events(cleared, kept);
                let after = cleared.schedule_all(kept).pending;
                assert forall|i: int| 0 <= i < after.len() implies self.now.0 <= (
                #[trigger] after[i]).time.0 by {
                    assert(!cleared.pending.contains(after[i]));
                    let k = choose|k: int|
                        0 <= k < kept.len() && kept[k] == (after[i].time, after[i].event);
                    lemma_survivor_origin(changed, pending, k);
                    let j = choose|j: int|
                        0 <= j < pending.len() && (#[trigger] pending[j]).time == kept[k].0;
                    assert(self.now.0 <= self.queue.pending[j].time.0);
                }
            }
        } else {
            assert(changed.untraced() == self.untraced().changed(action));
        }
    }
}

proof fn lemma_survivor_origin<M>(
    state: TaskState<M>,
    pending: Seq<Scheduled<TaskEvent<M>>>,
    k: int,
)
    requires
        0 <= k < survivors(state.graph, state.partitions, pending).len(),
    ensures
        exists|j: int|
            0 <= j < pending.len() && (#[trigger] pending[j]).time == survivors(
                state.graph,
                state.partitions,
                pending,
            )[k].0,
    decreases pending.len(),
{
    if pending.len() > 0 {
        let fewer = pending.drop_last();
        let before = survivors(state.graph, state.partitions, fewer);
        let after = survivors(state.graph, state.partitions, pending);
        if k < before.len() {
            lemma_survivor_origin(state, fewer, k);
            let j = choose|j: int|
                0 <= j < fewer.len() && (#[trigger] fewer[j]).time == before[k].0;
            assert(pending[j].time == after[k].0);
        } else {
            assert(pending[pending.len() - 1].time == after[k].0);
        }
    }
}

/// The number of messages that a run and its simulation account for: delivered,
/// dropped, on their way, or taken off the queue and about to be delivered.
pub open spec fn accounted<M>(run: RunState<M>, sim: TaskState<M>) -> int {
    run.stats.messages_delivered + sim.messages_dropped + on_the_way(sim.queue.pending)
        + if run.awaited matches Awaited::Answer(next) && next.event is Deliver {
        1int
    } else {
        0
    }
}

/// Whether nothing is overdue in a run: neither what waits nor the event that was
/// taken off the queue, which comes before everything that waits.
pub open spec fn in_time<M>(run: RunState<M>, sim: TaskState<M>) -> bool {
    &&& sim.timely()
    &&& run.awaited matches Awaited::Answer(next) ==> {
        &&& sim.now.0 <= next.time.0
        &&& forall|i: int|
            0 <= i < sim.queue.pending.len() ==> next.time.0 <= (
            #[trigger] sim.queue.pending[i]).time.0
    }
}

/// What `proceed` says with what it leaves.
spec fn proceeds_well<M>(run: RunState<M>, sim: TaskState<M>) -> bool {
    match run.proceed(sim) {
        Some(o) => {
            &&& o.run.stats.messages_delivered + o.sim.messages_dropped + on_the_way(
                o.sim.queue.pending,
            ) + (if o.run.awaited matches Awaited::Answer(next) && next.event is Deliver {
                1int
            } else {
                0
            }) == run.stats.messages_delivered + sim.messages_dropped + on_the_way(
                sim.queue.pending,
            )
            &&& o.run.stats.messages_delivered == run.stats.messages_delivered
            &&& o.sim.messages_dropped == sim.messages_dropped
            &&& o.sim.trace == sim.trace
            &&& o.sim.now == sim.now
            &&& o.sim.shutdown == sim.shutdown
            &&& sim.timely() ==> in_time(o.run, o.sim)
            &&& run.proceed(sim.untraced()) == Some(
                Outcome { run: o.run, sim: o.sim.untraced(), step: o.step },
            )
        },
        None => run.proceed(sim.untraced()) is None,
    }
}

proof fn lemma_proceed<M>(run: RunState<M>, sim: TaskState<M>)
    ensures
        proceeds_well(run, sim),
    decreases sim.ready.len(),
{
    match upcoming(run.batch, run.completed, run.position) {
        Some(k) => {},
        None => {
            if sim.queue.pending.len() > 0 {
                let next = sim.queue.pending[0];
                assert(sim.queue.pending =~= seq![next] + sim.queue.rest().pending);
                lemma_on_the_way_concat(seq![next], sim.queue.rest().pending);
                lemma_on_the_way_one(next);
                if sim.timely() {
                    earliest_first(sim.queue);
                    assert forall|i: int|
                        0 <= i < sim.queue.rest().pending.len() implies sim.now.0 <= (
                    #[trigger] sim.queue.rest().pending[i]).time.0 by {
                        assert(sim.now.0 <= sim.queue.pending[i + 1].time.0);
                    }
                }
            } else if sim.ready.len() > 0 {
                let again = TaskState { ready: Seq::empty(), ..sim };
                lemma_proceed(run.reloaded(sim), again);
                assert(again.untraced() == TaskState { ready: Seq::empty(), ..sim.untraced() });
                assert(run.reloaded(sim) == run.reloaded(sim.untraced()));
            }
        },
    }
}

proof fn lemma_processing<M>(sim: TaskState<M>, event: TaskEvent<M>, delivered: nat)
    requires
        sim.processing(event) is Some,
    ensures
        ({
            let after = sim.processing(event)->0;
            let arrived: nat = if arrives(sim, event) {
                1
            } else {
                0
            };
            &&& after.messages_dropped + on_the_way(after.queue.pending) == sim.messages_dropped
                + on_the_way(sim.queue.pending)
            &&& sim.told_of(delivered) ==> after.told_of(delivered + arrived)
            &&& sim.timely() ==> after.timely()
            &&& sim.untraced().processing(event) == Some(after.untraced())
            &&& after.now == sim.now
            &&& after.shutdown == sim.shutdown
        }),
{
    match event {
        TaskEvent::Wake(id) => {},
        TaskEvent::ApplyFailure(action) => {
            sim.failures_are_accounted_for(action, delivered);
        },
        TaskEvent::Deliver { src, dst, payload, sent_at } => {
            if sim.graph.has(dst) {
                if let Some(t) = sim.trace {
                    lemma_told_recorded(
                        t,
                        sim.now,
                        TaskTraceEvent::Delivered { src: src.0, dst: dst.0 },
                    );
                }
            }
        },
    }
}

proof fn lemma_untraced_processing<M>(sim: TaskState<M>, event: TaskEvent<M>)
    ensures
        sim.processing(event) is None <==> sim.untraced().processing(event) is None,
{
    if let TaskEvent::ApplyFailure(action) = event {
        assert(sim.changed(action).untraced() == sim.untraced().changed(action));
    }
}

/// Every step of a run keeps account of the messages: none appears, and none is
/// lost, except that the run may be ended before an event, and that a message to no
/// node of the topology is of no effect. The trace, where one is recorded, tells of
/// as many deliveries and drops as are counted. The clock never goes back. The
/// signal to stop stays as it is.
pub proof fn steps_are_accounted_for<M>(run: RunState<M>, sim: TaskState<M>, reply: Reply)
    requires
        run.expects(reply),
        run.advance(sim, reply) is Some,
    ensures
        ({
            let o = run.advance(sim, reply)->0;
            &&& reply != (Reply::Answer { go_on: false }) && (
            run.awaited matches Awaited::Answer(next) ==> (next.event is Deliver ==> arrives(
                sim,
                next.event,
            ))) ==> accounted(o.run, o.sim) == accounted(run, sim)
            &&& sim.told_of(run.stats.messages_delivered as nat) ==> o.sim.told_of(
                o.run.stats.messages_delivered as nat,
            )
            &&& in_time(run, sim) ==> in_time(o.run, o.sim) && sim.now.0 <= o.sim.now.0
            &&& o.sim.shutdown == sim.shutdown
        }),
{
    match (run.awaited, reply) {
        (Awaited::Poll(id), Reply::Polled { ready }) => {
            let marked = if ready {
                RunState {
                    completed: run.completed.update(id.0 as int, true),
                    stats: TaskSimStats {
                        tasks_completed: (run.stats.tasks_completed + 1) as u64,
                        ..run.stats
                    },
                    ..run
                }
            } else {
                run
            };
            lemma_proceed(marked, sim);
        },
        (Awaited::Answer(next), Reply::Answer { go_on }) => {
            if go_on {
                let at = TaskState { now: next.time, ..sim };
                lemma_processing(at, next.event, run.stats.messages_delivered as nat);
                let after = at.processing(next.event)->0;
                let counted = run.processed(sim, next.event)->0;
                lemma_proceed(
                    counted.reloaded(after),
                    TaskState { ready: Seq::empty(), ..after },
                );
            }
        },
        _ => {
            lemma_proceed(run.reloaded(sim), TaskState { ready: Seq::empty(), ..sim });
        },
    }
}

/// Recording a trace changes nothing but the trace: a step does the same, with the
/// same result for the driver, whether or not a trace is recorded.
pub proof fn tracing_only_observes<M>(run: RunState<M>, sim: TaskState<M>, reply: Reply)
    requires
        run.expects(reply),
    ensures
        match run.advance(sim, reply) {
            Some(o) => run.advance(sim.untraced(), reply) == Some(
                Outcome { run: o.run, sim: o.sim.untraced(), step: o.step },
            ),
            None => run.advance(sim.untraced(), reply) is None,
        },
{
    match (run.awaited, reply) {
        (Awaited::Poll(id), Reply::Polled { ready }) => {
            let marked = if ready {
                RunState {
                    completed: run.completed.update(id.0 as int, true),
                    stats: TaskSimStats {
                        tasks_completed: (run.stats.tasks_completed + 1) as u64,
                        ..run.stats
                    },
                    ..run
                }
            } else {
                run
            };
            lemma_proceed(marked, sim);
        },
        (Awaited::Answer(next), Reply::Answer { go_on }) => {
            if go_on {
                let at = TaskState { now: next.time, ..sim };
                lemma_untraced_processing(at, next.event);
                assert(at.untraced() == TaskState { now: next.time, ..sim.untraced() });
                assert(run.processed(sim, next.event) == run.processed(
                    sim.untraced(),
                    next.event,
                ));
                if at.processing(next.event) is Some && run.processed(sim, next.event) is Some {
                    lemma_processing(at, next.event, 0);
                    let after = at.processing(next.event)->0;
                    let counted = run.processed(sim, next.event)->0;
                    let ready = TaskState { ready: Seq::empty(), ..after };
                    lemma_proceed(counted.reloaded(after), ready);
                    assert(ready.untraced() == TaskState {
                        ready: Seq::empty(),
                        ..after.untraced()
                    });
                    assert(counted.reloaded(after) == counted.reloaded(after.untraced()));
                }
            }
        },
        _ => {
            let ready = TaskState { ready: Seq::empty(), ..sim };
            lemma_proceed(run.reloaded(sim), ready);
            assert(ready.untraced() == TaskState { ready: Seq::empty(), ..sim.untraced() });
            assert(run.reloaded(sim) == run.reloaded(sim.untraced()));
        },
    }
}

/// At the start of a run nothing is overdue and nothing was sent, delivered,
/// dropped or told.
pub proof fn new_simulations_are_accounted_for<M>(
    graph: Graph,
    seed: u64,
    traced: bool,
    drops_in_flight: bool,
)
    ensures
        ({
            let sim = TaskState::<M>::initial(graph, seed, traced, drops_in_flight);
            let run = RunState::initial(sim);
            accounted(run, sim) == 0 && sim.told_of(0) && in_time(run, sim)
        }),
{
}

/// Whether a driver, in the same state and told to do the same, always does the same.
pub open spec fn acts_alike<M, D>(
    acts: spec_fn(D, Step, TaskState<M>, D, Reply, TaskState<M>) -> bool,
) -> bool {
    forall|
        d: D,
        step: Step,
        s: TaskState<M>,
        d1: D,
        r1: Reply,
        s1: TaskState<M>,
        d2: D,
        r2: Reply,
        s2: TaskState<M>,
    |
        #![trigger acts(d, step, s, d1, r1, s1), acts(d, step, s, d2, r2, s2)]
        acts(d, step, s, d1, r1, s1) && acts(d, step, s, d2, r2, s2) ==> d1 == d2 && r1 == r2 && s1
            == s2
}

proof fn lemma_task_runs_agree<M, D>(
    acts: spec_fn(D, Step, TaskState<M>, D, Reply, TaskState<M>) -> bool,
    a: Seq<Driven<M, D>>,
    b: Seq<Driven<M, D>>,
    n: nat,
)
    requires
        acts_alike(acts),
        is_task_run(acts, a),
        is_task_run(acts, b),
        a[0] == b[0],
        n <= a.len(),
        n <= b.len(),
    ensures
        forall|i: int| 0 <= i < n ==> #[trigger] a[i] == b[i],
    decreases n,
{
    if n > 1 {
        lemma_task_runs_agree(acts, a, b, (n - 1) as nat);
        let i = n - 2;
        assert(a[i] == b[i]);
        assert(drives(acts, a[i], a[i + 1]));
        assert(drives(acts, b[i], b[i + 1]));
    }
}

/// A task-based simulation is deterministic: two runs to the end from the same
/// start, with tasks that always do the same, go through the same points and end
/// with the same figures and the same trace.
pub proof fn task_runs_are_deterministic<M, D>(
    acts: spec_fn(D, Step, TaskState<M>, D, Reply, TaskState<M>) -> bool,
    a: Seq<Driven<M, D>>,
    b: Seq<Driven<M, D>>,
)
    requires
        acts_alike(acts),
        is_task_run(acts, a),
        is_task_run(acts, b),
        a[0] == b[0],
        a.last().run.awaited is Nothing,
        b.last().run.awaited is Nothing,
    ensures
        a == b,
        a.last().run.stats == b.last().run.stats,
        a.last().sim.trace == b.last().sim.trace,
{
    let n = if a.len() <= b.len() {
        a.len()
    } else {
        b.len()
    };
    lemma_task_runs_agree(acts, a, b, n);
    if a.len() < b.len() {
        assert(drives(acts, b[a.len() - 1], b[a.len() - 1 + 1]));
    }
    if b.len() < a.len() {
        assert(drives(acts, a[b.len() - 1], a[b.len() - 1 + 1]));
    }
    assert(a =~= b);
}

/// At its end a run waits for nothing.
proof fn lemma_finished_waits_for_nothing<M, D>(
    acts: spec_fn(D, Step, TaskState<M>, D, Reply, TaskState<M>) -> bool,
    sim: TaskState<M>,
    points: Seq<Driven<M, D>>,
)
    requires
        is_task_run(acts, points),
        begins(sim, points[0]),
        points.last().step is Finished,
    ensures
        points.last().run.awaited is Nothing,
{
    let n = points.len() as int;
    if n == 1 {
        lemma_step_counts(RunState::initial(sim), sim, Reply::Begin);
    } else {
        let before = points[n - 2];
        assert(drives(acts, before, points[n - 2 + 1]));
        let (reply, left) = choose|reply: Reply, left: TaskState<M>| #[trigger]
            acts(before.driver, before.step, before.sim, points.last().driver, reply, left)
                && before.run.expects(reply) && before.run.advance(left, reply) == Some(
                Outcome {
                    run: points.last().run,
                    sim: points.last().sim,
                    step: points.last().step,
                },
            );
        lemma_step_counts(before.run, left, reply);
    }
}

/// The same simulation with tasks that always do the same tells the same trace and comes
/// to the same figures, whenever it is run. Comparing two such traces finds no difference.
pub proof fn task_traces_are_reproducible<M>(
    acts: spec_fn((), Step, TaskState<M>, (), Reply, TaskState<M>) -> bool,
    sim: TaskState<M>,
    first: (TaskSimStats, TraceState<TaskTraceEvent>),
    second: (TaskSimStats, TraceState<TaskTraceEvent>),
)
    requires
        acts_alike(acts),
        may_tell(acts, sim, first.0, first.1),
        may_tell(acts, sim, second.0, second.1),
    ensures
        first == second,
        verdict(difference(first.1, second.1)) == Ok::<(), TraceMismatch>(()),
{
    let end = choose|end: TaskState<M>| #[trigger]
        may_finish(acts, sim, first.0, end) && first.1 == end.traced(first.0.final_time);
    let fin = choose|end: TaskState<M>| #[trigger]
        may_finish(acts, sim, second.0, end) && second.1 == end.traced(second.0.final_time);
    let a = choose|points: Seq<Driven<M, ()>>| #[trigger]
        is_task_run(acts, points) && begins(sim, points[0]) && points.last().step == Step::Finished(
            first.0,
        ) && points.last().sim == end;
    let b = choose|points: Seq<Driven<M, ()>>| #[trigger]
        is_task_run(acts, points) && begins(sim, points[0]) && points.last().step == Step::Finished(
            second.0,
        ) && points.last().sim == fin;
    lemma_finished_waits_for_nothing(acts, sim, a);
    lemma_finished_waits_for_nothing(acts, sim, b);
    assert(a[0] == b[0]);
    task_runs_are_deterministic(acts, a, b);
    traces_agree_iff_same_events(first.1, second.1);
}

/// Whether a driver schedules nothing in the past and leaves the simulation alone while
/// it decides whether to go on. Everything that a task can do keeps to that.
pub open spec fn acts_in_time<M, D>(
    acts: spec_fn(D, Step, TaskState<M>, D, Reply, TaskState<M>) -> bool,
) -> bool {
    forall|d: D, step: Step, s: TaskState<M>, e: D, reply: Reply, t: TaskState<M>| #[trigger]
        acts(d, step, s, e, reply, t) ==> {
            &&& s.timely() ==> t.timely() && t.now == s.now
            &&& step is Ask ==> t == s
        }
}

/// The clock never goes back during a run, if nothing is overdue at its start.
pub proof fn task_clock_is_monotone<M, D>(
    acts: spec_fn(D, Step, TaskState<M>, D, Reply, TaskState<M>) -> bool,
    points: Seq<Driven<M, D>>,
    i: int,
    j: int,
)
    requires
        acts_in_time(acts),
        is_task_run(acts, points),
        in_time(points[0].run, points[0].sim),
        points[0].run.awaited is Answer ==> points[0].step is Ask,
        0 <= i <= j < points.len(),
    ensures
        in_time(points[j].run, points[j].sim),
        points[j].run.awaited is Answer ==> points[j].step is Ask,
        points[i].sim.now.0 <= points[j].sim.now.0,
    decreases j,
{
    if j > 0 {
        task_clock_is_monotone(
            acts,
            points,
            if i < j {
                i
            } else {
                j - 1
            },
            j - 1,
        );
        let a = points[j - 1];
        let b = points[j];
        assert(drives(acts, points[j - 1], points[j - 1 + 1]));
        let (reply, sim) = choose|reply: Reply, sim: TaskState<M>| #[trigger]
            acts(a.driver, a.step, a.sim, b.driver, reply, sim) && a.run.expects(reply)
                && a.run.advance(sim, reply) == Some(
                Outcome { run: b.run, sim: b.sim, step: b.step },
            );
        assert(in_time(a.run, sim));
        steps_are_accounted_for(a.run, sim, reply);
        lemma_step_counts(a.run, sim, reply);
    }
}

/// Whether whatever a driver does leaves the trace telling of as many drops as are
/// counted, and of no delivery. Everything that a task can do keeps to that.
pub open spec fn acts_are_told<M, D>(
    acts: spec_fn(D, Step, TaskState<M>, D, Reply, TaskState<M>) -> bool,
) -> bool {
    forall|
        d: D,
        step: Step,
        s: TaskState<M>,
        e: D,
        reply: Reply,
        t: TaskState<M>,
        delivered: nat,
    |
        #![trigger acts(d, step, s, e, reply, t), t.told_of(delivered)]
        acts(d, step, s, e, reply, t) && s.told_of(delivered) ==> t.told_of(delivered)
}

/// At every point of a run the trace tells of exactly as many deliveries and drops as
/// are counted, if it does at the start.
pub proof fn task_traces_tell_everything<M, D>(
    acts: spec_fn(D, Step, TaskState<M>, D, Reply, TaskState<M>) -> bool,
    points: Seq<Driven<M, D>>,
    i: int,
)
    requires
        acts_are_told(acts),
        is_task_run(acts, points),
        points[0].sim.told_of(points[0].run.stats.messages_delivered as nat),
        0 <= i < points.len(),
    ensures
        points[i].sim.told_of(points[i].run.stats.messages_delivered as nat),
    decreases i,
{
    if i > 0 {
        task_traces_tell_everything(acts, points, i - 1);
        let a = points[i - 1];
        let b = points[i];
        assert(drives(acts, points[i - 1], points[i - 1 + 1]));
        let (reply, sim) = choose|reply: Reply, sim: TaskState<M>| #[trigger]
            acts(a.driver, a.step, a.sim, b.driver, reply, sim) && a.run.expects(reply)
                && a.run.advance(sim, reply) == Some(
                Outcome { run: b.run, sim: b.sim, step: b.step },
            );
        assert(sim.told_of(a.run.stats.messages_delivered as nat));
        steps_are_accounted_for(a.run, sim, reply);
    }
}

/// Whether whatever a driver does leaves the signal to stop given once it is. Everything
/// that a task can do keeps to that.
pub open spec fn acts_keep_the_signal<M, D>(
    acts: spec_fn(D, Step, TaskState<M>, D, Reply, TaskState<M>) -> bool,
) -> bool {
    forall|d: D, step: Step, s: TaskState<M>, e: D, reply: Reply, t: TaskState<M>| #[trigger]
        acts(d, step, s, e, reply, t) && s.shutdown.cancelled ==> t.shutdown.cancelled
}

/// Once the tasks were asked to stop, every token of the simulation says so for the rest
/// of the run.
pub proof fn the_signal_to_stop_stays<M, D>(
    acts: spec_fn(D, Step, TaskState<M>, D, Reply, TaskState<M>) -> bool,
    points: Seq<Driven<M, D>>,
    i: int,
    j: int,
)
    requires
        acts_keep_the_signal(acts),
        is_task_run(acts, points),
        0 <= i <= j < points.len(),
        points[i].sim.shutdown.cancelled,
    ensures
        points[j].sim.shutdown.cancelled,
    decreases j - i,
{
    if i < j {
        the_signal_to_stop_stays(acts, points, i, j - 1);
        let a = points[j - 1];
        let b = points[j];
        assert(drives(acts, points[j - 1], points[j - 1 + 1]));
        let (reply, sim) = choose|reply: Reply, sim: TaskState<M>| #[trigger]
            acts(a.driver, a.step, a.sim, b.driver, reply, sim) && a.run.expects(reply)
                && a.run.advance(sim, reply) == Some(
                Outcome { run: b.run, sim: b.sim, step: b.step },
            );
        assert(sim.shutdown.cancelled);
        steps_are_accounted_for(a.run, sim, reply);
    }
}

impl<M> TaskState<M> {
    /// Asking the tasks to stop a second time changes nothing.
    pub proof fn cancelling_again_changes_nothing(self)
        ensures
            ({
                let once = TaskState { shutdown: Shutdown { cancelled: true }, ..self };
                (TaskState { shutdown: Shutdown { cancelled: true }, ..once }) == once
            }),
    {
    }

    /// Messages leave an inbox in the order in which they arrived: what is taken
    /// next is what arrived first, and what arrives goes to the end.
    pub proof fn inboxes_are_first_in_first_out(
        self,
        src: NodeId,
        dst: NodeId,
        payload: M,
        sent_at: Time,
    )
        requires
            self.wf(),
            self.graph.has(dst),
        ensures
            ({
                let after = self.delivering(src, dst, payload, sent_at);
                let inbox = self.inboxes[dst.0 as int];
                &&& after.inboxes[dst.0 as int].drop_last() == inbox
                &&& after.inboxes[dst.0 as int].last().payload == payload
                &&& after.inboxes[dst.0 as int].last().received_at == self.now
                &&& inbox.len() > 0 ==> after.taken(dst) == self.taken(dst)
                &&& inbox.len() == 0 ==> after.taken(dst) == Some(after.inboxes[dst.0 as int].last())
                &&& self.taken(dst) matches Some(e) ==> seq![e] + self.taking(
                    dst,
                ).inboxes[dst.0 as int] == inbox
            }),
    {
        let inbox = self.inboxes[dst.0 as int];
        let after = self.delivering(src, dst, payload, sent_at);
        assert(after.inboxes[dst.0 as int].drop_last() =~= inbox);
        if inbox.len() > 0 {
            assert(seq![inbox[0]] + self.taking(dst).inboxes[dst.0 as int] =~= inbox);
        }
    }

    /// Unless it is configured otherwise, what is on its way when something fails
    /// stays on its way.
    pub proof fn messages_survive_failures(self, action: FailureAction)
        requires
            !self.drop_in_flight_on_failure,
        ensures
            self.applying(action) is Some,
            self.applying(action)->0.queue == self.queue,
            self.applying(action)->0.messages_dropped == self.messages_dropped,
    {
    }

    /// If so configured, every message that is still on its way after a failure has a
    /// route and crosses no partition.
    pub proof fn failures_leave_nothing_stranded(self, action: FailureAction)
        requires
            self.drop_in_flight_on_failure,
            action.fails(),
            self.applying(action) is Some,
        ensures
            ({
                let after = self.applying(action)->0;
                forall|i: int|
                    0 <= i < after.queue.pending.len() ==> stranded(
                        after.graph,
                        after.partitions,
                        (#[trigger] after.queue.pending[i]).event,
                    ) is None
            }),
    {
        let s = self.changed(action);
        let kept = survivors(s.graph, s.partitions, s.queue.pending);
        let lost = losses(s.graph, s.partitions, s.queue.pending);
        let after = self.applying(action)->0;
        lemma_survivors(s.graph, s.partitions, s.queue.pending);
        lemma_in_telling_order(lost);
        let requeued = TaskState { queue: s.queue.cleared().schedule_all(kept), ..s };
        assert(in_telling_order(lost).len() == lost.len());
        lemma_dropping_all(requeued, in_telling_order(lost));
        schedule_all_adds_events(s.queue.cleared(), kept);
        assert forall|i: int| 0 <= i < after.queue.pending.len() implies stranded(
            after.graph,
            after.partitions,
            (#[trigger] after.queue.pending[i]).event,
        ) is None by {
            let e = after.queue.pending[i];
            assert(!s.queue.cleared().pending.contains(e));
            let j = choose|j: int| 0 <= j < kept.len() && kept[j] == (e.time, e.event);
            assert(stranded(s.graph, s.partitions, kept[j].1) is None);
        }
    }

    /// Partitions have no direction, and what fails and is restored is as it was
    /// before.
    pub proof fn healing_undoes_failing(self, a: NodeId, b: NodeId)
        ensures
            self.partitioned(a, b) == self.partitioned(b, a),
            self.changed(FailureAction::Partition(a, b)).partitioned(b, a),
            !self.partitioned(a, b) ==> self.changed(FailureAction::Partition(a, b)).changed(
                FailureAction::Heal(b, a),
            ) == self,
            !self.graph.failed_links.contains((a, b)) && !self.graph.failed_links.contains((b, a))
                ==> self.changed(FailureAction::FailLink(a, b)).changed(
                FailureAction::HealLink(a, b),
            ) == self,
            !self.graph.failed_nodes.contains(a) ==> self.changed(
                FailureAction::FailNode(a),
            ).changed(FailureAction::HealNode(a)) == self,
    {
        healing_undoes_failing(self.graph, a, b);
        if !self.partitioned(a, b) {
            assert(self.changed(FailureAction::Partition(a, b)).changed(FailureAction::Heal(b, a))
                =~= self);
        }
    }
}

} // verus!
