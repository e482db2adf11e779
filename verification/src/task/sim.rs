//! The shared state of a task-based simulation.

use std::collections::VecDeque;

use vstd::prelude::*;

use crate::net::fabric::partition_key;
use crate::net::node::NodeId;
use crate::net::pairs::PairSet;
use crate::net::topology::Topology;
use crate::queue::{EventQueue, Scheduled};
use crate::task::event::{
    CancellationToken, Envelope, FailureAction, Shutdown, TaskEvent, TaskId, TaskTraceDropReason,
    TaskTraceEvent,
};
use crate::task::state::{
    addressed, in_telling_order, lemma_in_telling_order, losses, rank, stranded, survivors, Loss, TaskState,
};
use crate::time::Time;
use crate::trace::{Trace, TraceRecorder};

verus! {

/// A task-based simulation without its tasks: what they share, and what their
/// operations do to it.
#[derive(Debug)]
pub struct TaskSim<M> {
    now: Time,
    topology: Topology,
    inboxes: Vec<VecDeque<Envelope<M>>>,
    waiting: Vec<bool>,
    events: EventQueue<TaskEvent<M>>,
    ready: Vec<TaskId>,
    shutdown: Shutdown,
    partitions: PairSet,
    messages_dropped: u64,
    trace: Option<TraceRecorder<TaskTraceEvent>>,
    drop_in_flight_on_failure: bool,
    seed: u64,
}

impl CancellationToken {
    /// Whether the signal was given to the tasks of `sim`.
    pub fn is_cancelled<M>(&self, sim: &TaskSim<M>) -> (r: bool)
        ensures
            r == sim@.shutdown.cancelled,
    {
        sim.shutdown.cancelled
    }

    /// Asks the tasks of `sim` to stop. There is no way back.
    pub fn cancel<M>(&self, sim: &mut TaskSim<M>)
        ensures
            final(sim)@ == (TaskState { shutdown: Shutdown { cancelled: true }, ..old(sim)@ }),
    {
        sim.shutdown.cancelled = true;
        assert(sim@ =~= TaskState { shutdown: Shutdown { cancelled: true }, ..old(sim)@ });
    }
}

impl<M> View for TaskSim<M> {
    type V = TaskState<M>;

    closed spec fn view(&self) -> TaskState<M> {
        TaskState {
            now: self.now,
            graph: self.topology@,
            inboxes: Seq::new(self.inboxes@.len(), |i: int| self.inboxes@[i]@),
            waiting: self.waiting@,
            queue: self.events@,
            ready: self.ready@,
            shutdown: self.shutdown,
            partitions: self.partitions@,
            messages_dropped: self.messages_dropped,
            trace: match self.trace {
                Some(t) => Some(t@),
                None => None,
            },
            drop_in_flight_on_failure: self.drop_in_flight_on_failure,
            seed: self.seed,
        }
    }
}

/// Puts a loss in its place among losses in telling order.
fn place(sorted: &mut Vec<Loss>, x: Loss)
    ensures
        final(sorted)@ == old(sorted)@.insert(rank(old(sorted)@, x) as int, x),
{
    let mut i: usize = 0;
    proof {
        assert(sorted@.skip(0) =~= sorted@);
    }
    while i < sorted.len() && !(x.0.0 < sorted[i].0.0 || (x.0.0 == sorted[i].0.0 && x.1.0
        < sorted[i].1.0))
        invariant
            sorted@ == old(sorted)@,
            i <= sorted.len(),
            rank(sorted@, x) == i + rank(sorted@.skip(i as int), x),
        ensures
            sorted@ == old(sorted)@,
            i <= sorted.len(),
            rank(sorted@, x) == i,
        decreases sorted.len() - i,
    {
        assert(sorted@.skip(i as int).drop_first() =~= sorted@.skip(i + 1));
        i = i + 1;
    }
    sorted.insert(i, x);
}

impl<M> TaskSim<M> {
    /// Creates a simulation on `topology` in which every task is to be polled.
    pub(crate) fn new(
        topology: Topology,
        seed: u64,
        traced: bool,
        drop_in_flight_on_failure: bool,
    ) -> (s: TaskSim<M>)
        ensures
            s@ == TaskState::<M>::initial(topology@, seed, traced, drop_in_flight_on_failure),
            s@.wf(),
    {
        let n: usize = topology.node_count();
        let mut inboxes: Vec<VecDeque<Envelope<M>>> = Vec::new();
        let mut waiting: Vec<bool> = Vec::new();
        let mut ready: Vec<TaskId> = Vec::new();
        for i in 0..n
            invariant
                n == topology@.links.len(),
                topology@.wf(),
                inboxes.len() == i,
                waiting.len() == i,
                ready.len() == i,
                forall|k: int| 0 <= k < i ==> (#[trigger] inboxes@[k])@ == Seq::<Envelope<M>>::empty(),
                forall|k: int| 0 <= k < i ==> !#[trigger] waiting@[k],
                forall|k: int| 0 <= k < i ==> #[trigger] ready@[k] == TaskId(k as u32),
        {
            inboxes.push(VecDeque::new());
            waiting.push(false);
            ready.push(TaskId(i as u32));
        }
        let sim = TaskSim {
            now: Time(0),
            topology,
            inboxes,
            waiting,
            events: EventQueue::new(),
            ready,
            shutdown: Shutdown { cancelled: false },
            partitions: PairSet::new(),
            messages_dropped: 0,
            trace: if traced {
                Some(TraceRecorder::new(seed))
            } else {
                None
            },
            drop_in_flight_on_failure,
            seed,
        };
        assert(sim@ =~= TaskState::<M>::initial(topology@, seed, traced, drop_in_flight_on_failure));
        sim
    }

    /// The simulated time.
    pub fn now(&self) -> (t: Time)
        ensures
            t == self@.now,
    {
        self.now
    }

    /// The number of nodes, which is the number of tasks.
    pub fn node_count(&self) -> (n: usize)
        requires
            self@.wf(),
        ensures
            n == self@.graph.links.len(),
    {
        self.waiting.len()
    }

    /// The seed of the simulation.
    pub fn seed(&self) -> (s: u64)
        ensures
            s == self@.seed,
    {
        self.seed
    }

    /// The number of messages that were dropped.
    pub fn messages_dropped(&self) -> (n: u64)
        ensures
            n == self@.messages_dropped,
    {
        self.messages_dropped
    }

    /// A token for the signal by which the tasks are asked to stop.
    pub fn shutdown_token(&self) -> (t: CancellationToken)
        ensures
            t == CancellationToken,
    {
        CancellationToken
    }

    /// Tells an event to the trace, where one is recorded.
    fn tell(&mut self, event: TaskTraceEvent)
        ensures
            final(self)@ == old(self)@.telling(event),
    {
        match self.trace.take() {
            Some(recorder) => {
                let mut recorder = recorder;
                recorder.record(self.now, event);
                self.trace = Some(recorder);
            },
            None => {},
        }
        assert(self@ =~= old(self)@.telling(event));
    }

    /// Counts a dropped message and tells it to the trace.
    fn drop_message(&mut self, loss: Loss)
        requires
            old(self)@.messages_dropped < u64::MAX,
        ensures
            final(self)@ == old(self)@.dropping(loss),
    {
        self.messages_dropped = self.messages_dropped + 1;
        self.tell(TaskTraceEvent::Dropped { src: loss.0.0, dst: loss.1.0, reason: loss.2 });
        assert(self@ =~= old(self)@.dropping(loss));
    }

    /// Schedules an event, if it can be numbered.
    pub(crate) fn schedule(&mut self, time: Time, event: TaskEvent<M>) -> (done: bool)
        requires
            old(self)@.wf(),
            addressed(old(self)@.graph, event),
        ensures
            done == (old(self)@.scheduling(time, event) is Some),
            done ==> Some(final(self)@) == old(self)@.scheduling(time, event),
            !done ==> final(self)@ == old(self)@,
            final(self)@.wf(),
    {
        if self.events.total_scheduled() == u64::MAX {
            return false;
        }
        proof {
            self@.scheduling_keeps_wf(time, event);
        }
        self.events.schedule(time, event);
        assert(self@ =~= old(self)@.scheduling(time, event)->0);
        true
    }

    /// Sends a message from `src` to `dst`, if what becomes of it can be
    /// represented. Returns whether it can; if not, nothing changes.
    pub fn try_inject(&mut self, src: NodeId, dst: NodeId, payload: M) -> (done: bool)
        requires
            old(self)@.wf(),
        ensures
            done == (old(self)@.posting(src, dst, payload) is Some),
            done ==> Some(final(self)@) == old(self)@.posting(src, dst, payload),
            !done ==> final(self)@ == old(self)@,
            final(self)@.wf(),
    {
        if self.is_partitioned(src, dst) {
            if self.messages_dropped == u64::MAX {
                return false;
            }
            self.drop_message((src, dst, TaskTraceDropReason::Partitioned));
            return true;
        }
        if !self.topology.can_route(src, dst) {
            return false;
        }
        let route = self.topology.route(src, dst);
        assert(self@ =~= old(self)@);
        match route {
            None => {
                if self.messages_dropped == u64::MAX {
                    return false;
                }
                self.drop_message((src, dst, TaskTraceDropReason::NoRoute));
                true
            },
            Some(route) => {
                if route.total_latency.0 > u64::MAX - self.now.0 {
                    return false;
                }
                self.schedule(
                    Time(self.now.0 + route.total_latency.0),
                    TaskEvent::Deliver { src, dst, payload, sent_at: self.now },
                )
            },
        }
    }

    /// Sends a message from `src` to `dst`. It is delivered after the latency of
    /// its route, or dropped and counted if the nodes are partitioned from each
    /// other or there is no route.
    pub fn inject(&mut self, src: NodeId, dst: NodeId, payload: M)
        requires
            old(self)@.wf(),
            old(self)@.posting(src, dst, payload) is Some,
        ensures
            Some(final(self)@) == old(self)@.posting(src, dst, payload),
            final(self)@.wf(),
    {
        self.try_inject(src, dst, payload);
    }

    /// Schedules a failure or a repair.
    pub fn schedule_failure(&mut self, time: Time, action: FailureAction)
        requires
            old(self)@.wf(),
            old(self)@.scheduling(time, TaskEvent::ApplyFailure(action)) is Some,
        ensures
            Some(final(self)@) == old(self)@.scheduling(time, TaskEvent::ApplyFailure(action)),
            final(self)@.wf(),
    {
        self.schedule(time, TaskEvent::ApplyFailure(action));
    }

    /// Schedules a failure or a repair, if it can be numbered. Returns whether it
    /// can; if not, nothing changes.
    pub fn try_schedule_failure(&mut self, time: Time, action: FailureAction) -> (done: bool)
        requires
            old(self)@.wf(),
        ensures
            done == (old(self)@.scheduling(time, TaskEvent::ApplyFailure(action)) is Some),
            done ==> Some(final(self)@) == old(self)@.scheduling(
                time,
                TaskEvent::ApplyFailure(action),
            ),
            !done ==> final(self)@ == old(self)@,
            final(self)@.wf(),
    {
        self.schedule(time, TaskEvent::ApplyFailure(action))
    }

    /// Whether `a` and `b` are partitioned from each other.
    pub fn is_partitioned(&self, a: NodeId, b: NodeId) -> (r: bool)
        ensures
            r == self@.partitioned(a, b),
    {
        let (x, y) = partition_key(a, b);
        self.partitions.contains(x, y)
    }

    /// Drops the messages on their way that are stranded. Returns `false` if
    /// that cannot be represented.
    fn sweep_in_flight_drops(&mut self) -> (done: bool)
        requires
            old(self)@.wf(),
        ensures
            done == (old(self)@.sweeping() is Some),
            done ==> Some(final(self)@) == old(self)@.sweeping(),
    {
        let ghost state = self@;
        let ghost graph = self@.graph;
        let ghost partitions = self@.partitions;
        let events: Vec<Scheduled<TaskEvent<M>>> = self.events.drain();
        let ghost all = events@;
        let mut kept: Vec<(Time, TaskEvent<M>)> = Vec::new();
        let mut lost: Vec<Loss> = Vec::new();
        assert(all.take(0) =~= Seq::<Scheduled<TaskEvent<M>>>::empty());
        assert(self@ =~= TaskState { queue: state.queue.cleared(), ..state });
        for s in it: events
            invariant
                state == old(self)@,
                state.wf(),
                it.seq() == all,
                all == state.queue.pending,
                graph == state.graph,
                partitions == state.partitions,
                self@ == (TaskState { queue: state.queue.cleared(), ..state }),
                kept@ == survivors(graph, partitions, all.take(it.index())),
                lost@ == in_telling_order(losses(graph, partitions, all.take(it.index()))),
        {
            let ghost k = it.index();
            let ghost sofar = all.take(k + 1);
            proof {
                assert(sofar.drop_last() =~= all.take(k));
                assert(sofar.last() == all[k]);
                assert(addressed(graph, all[k].event));
                let l = losses(graph, partitions, sofar);
                if stranded(graph, partitions, all[k].event) is Some {
                    assert(l.drop_last() =~= losses(graph, partitions, all.take(k)));
                }
            }
            match s.event {
                TaskEvent::Deliver { src, dst, payload, sent_at } => {
                    if self.is_partitioned(src, dst) {
                        place(&mut lost, (src, dst, TaskTraceDropReason::Partitioned));
                    } else if self.topology.route(src, dst).is_none() {
                        place(&mut lost, (src, dst, TaskTraceDropReason::NoRoute));
                    } else {
                        kept.push((s.time, TaskEvent::Deliver { src, dst, payload, sent_at }));
                    }
                    assert(self@ =~= TaskState { queue: state.queue.cleared(), ..state });
                },
                other => {
                    kept.push((s.time, other));
                },
            }
        }
        assert(all.take(all.len() as int) =~= all);
        proof {
            lemma_in_telling_order(losses(graph, partitions, all));
        }
        if kept.len() as u64 > u64::MAX - self.events.total_scheduled() || lost.len() as u64
            > u64::MAX - self.messages_dropped {
            return false;
        }
        self.events.schedule_all(kept);
        let ghost before = TaskState {
            queue: state.queue.cleared().schedule_all(
                survivors(graph, partitions, all),
            ),
            ..state
        };
        assert(self@ =~= before);
        let ghost told = lost@;
        for loss in it: lost
            invariant
                it.seq() == told,
                before.messages_dropped + told.len() <= u64::MAX,
                self@.messages_dropped == before.messages_dropped + it.index(),
                self@ == before.dropping_all(told.take(it.index())),
        {
            assert(told.take(it.index() + 1).drop_last() =~= told.take(it.index()));
            self.drop_message(loss);
        }
        assert(told.take(told.len() as int) =~= told);
        true
    }

    /// Lets a failure or a repair take effect, if that can be represented.
    /// Returns whether it can; if not, nothing is said of the simulation any more.
    pub fn try_apply_failure(&mut self, action: FailureAction) -> (done: bool)
        requires
            old(self)@.wf(),
        ensures
            done == (old(self)@.applying(action) is Some),
            done ==> Some(final(self)@) == old(self)@.applying(action),
            done ==> final(self)@.wf(),
    {
        match action {
            FailureAction::Partition(a, b) => {
                let (x, y) = partition_key(a, b);
                self.partitions.insert(x, y);
            },
            FailureAction::Heal(a, b) => {
                let (x, y) = partition_key(a, b);
                self.partitions.remove(x, y);
            },
            FailureAction::FailLink(a, b) => {
                self.topology.fail_link(a, b);
            },
            FailureAction::HealLink(a, b) => {
                self.topology.heal_link(a, b);
            },
            FailureAction::FailLinkDirected(src, dst) => {
                self.topology.fail_link_directed(src, dst);
            },
            FailureAction::HealLinkDirected(src, dst) => {
                self.topology.heal_link_directed(src, dst);
            },
            FailureAction::FailNode(node) => {
                self.topology.fail_node(node);
            },
            FailureAction::HealNode(node) => {
                self.topology.heal_node(node);
            },
        }
        assert(self@ =~= old(self)@.changed(action));
        proof {
            old(self)@.changing_keeps_wf(action);
            if old(self)@.applying(action) is Some {
                old(self)@.applying_keeps_wf(action);
            }
        }
        if action.is_failure() && self.drop_in_flight_on_failure {
            self.sweep_in_flight_drops()
        } else {
            true
        }
    }

    /// Lets a failure or a repair take effect.
    pub fn apply_failure(&mut self, action: FailureAction)
        requires
            old(self)@.wf(),
            old(self)@.applying(action) is Some,
        ensures
            Some(final(self)@) == old(self)@.applying(action),
            final(self)@.wf(),
    {
        self.try_apply_failure(action);
    }

    /// Partitions `a` and `b` from each other: messages between them are dropped.
    pub fn partition(&mut self, a: NodeId, b: NodeId)
        requires
            old(self)@.wf(),
            old(self)@.applying(FailureAction::Partition(a, b)) is Some,
        ensures
            Some(final(self)@) == old(self)@.applying(FailureAction::Partition(a, b)),
            final(self)@.wf(),
    {
        self.apply_failure(FailureAction::Partition(a, b));
    }

    /// Lifts the partition between `a` and `b`.
    pub fn heal(&mut self, a: NodeId, b: NodeId)
        requires
            old(self)@.wf(),
        ensures
            final(self)@ == old(self)@.changed(FailureAction::Heal(a, b)),
            final(self)@.wf(),
    {
        self.apply_failure(FailureAction::Heal(a, b));
    }

    /// Fails the edges between `a` and `b` in both directions.
    pub fn fail_link(&mut self, a: NodeId, b: NodeId)
        requires
            old(self)@.wf(),
            old(self)@.applying(FailureAction::FailLink(a, b)) is Some,
        ensures
            Some(final(self)@) == old(self)@.applying(FailureAction::FailLink(a, b)),
            final(self)@.wf(),
    {
        self.apply_failure(FailureAction::FailLink(a, b));
    }

    /// Restores the edges between `a` and `b` in both directions.
    pub fn heal_link(&mut self, a: NodeId, b: NodeId)
        requires
            old(self)@.wf(),
        ensures
            final(self)@ == old(self)@.changed(FailureAction::HealLink(a, b)),
            final(self)@.wf(),
    {
        self.apply_failure(FailureAction::HealLink(a, b));
    }

    /// Fails the directed edge from `src` to `dst`.
    pub fn fail_link_directed(&mut self, src: NodeId, dst: NodeId)
        requires
            old(self)@.wf(),
            old(self)@.applying(FailureAction::FailLinkDirected(src, dst)) is Some,
        ensures
            Some(final(self)@) == old(self)@.applying(FailureAction::FailLinkDirected(src, dst)),
            final(self)@.wf(),
    {
        self.apply_failure(FailureAction::FailLinkDirected(src, dst));
    }

    /// Restores the directed edge from `src` to `dst`.
    pub fn heal_link_directed(&mut self, src: NodeId, dst: NodeId)
        requires
            old(self)@.wf(),
        ensures
            final(self)@ == old(self)@.changed(FailureAction::HealLinkDirected(src, dst)),
            final(self)@.wf(),
    {
        self.apply_failure(FailureAction::HealLinkDirected(src, dst));
    }

    /// Fails `node`: no route starts, ends or passes there.
    pub fn fail_node(&mut self, node: NodeId)
        requires
            old(self)@.wf(),
            old(self)@.applying(FailureAction::FailNode(node)) is Some,
        ensures
            Some(final(self)@) == old(self)@.applying(FailureAction::FailNode(node)),
            final(self)@.wf(),
    {
        self.apply_failure(FailureAction::FailNode(node));
    }

    /// Restores `node`.
    pub fn heal_node(&mut self, node: NodeId)
        requires
            old(self)@.wf(),
        ensures
            final(self)@ == old(self)@.changed(FailureAction::HealNode(node)),
            final(self)@.wf(),
    {
        self.apply_failure(FailureAction::HealNode(node));
    }

    /// Whether the edges between `a` and `b` have failed in both directions.
    pub fn is_link_failed(&self, a: NodeId, b: NodeId) -> (r: bool)
        ensures
            r == (self@.graph.failed_links.contains((a, b)) && self@.graph.failed_links.contains(
                (b, a),
            )),
    {
        self.topology.is_link_failed(a, b)
    }

    /// Whether the directed edge from `src` to `dst` has failed.
    pub fn is_link_failed_directed(&self, src: NodeId, dst: NodeId) -> (r: bool)
        ensures
            r == self@.graph.failed_links.contains((src, dst)),
    {
        self.topology.is_link_failed_directed(src, dst)
    }

    /// Whether `node` has failed.
    pub fn is_node_failed(&self, node: NodeId) -> (r: bool)
        ensures
            r == self@.graph.failed_nodes.contains(node),
    {
        self.topology.is_node_failed(node)
    }

    /// Notes whether the task of `node` waits for a message.
    pub(crate) fn set_waiting(&mut self, node: NodeId, waits: bool)
        requires
            old(self)@.wf(),
            old(self)@.graph.has(node),
        ensures
            final(self)@ == old(self)@.waiting_set(node, waits),
            final(self)@.wf(),
    {
        self.waiting.set(node.as_usize(), waits);
        assert(self@ =~= old(self)@.waiting_set(node, waits));
    }

    /// Takes the next message from the inbox of `node`; if there is none, its task
    /// waits for one from now on.
    pub(crate) fn take(&mut self, node: NodeId) -> (r: Option<Envelope<M>>)
        requires
            old(self)@.wf(),
            old(self)@.graph.has(node),
        ensures
            r == old(self)@.taken(node),
            final(self)@ == old(self)@.taking(node),
            final(self)@.wf(),
    {
        let i: usize = node.as_usize();
        assert(self@.inboxes[i as int] == self.inboxes@[i as int]@);
        let next = self.inboxes[i].pop_front();
        self.waiting.set(i, next.is_none());
        assert(self@.inboxes =~= old(self)@.taking(node).inboxes);
        assert(self@ =~= old(self)@.taking(node));
        next
    }

    /// Puts a message into the inbox of its destination, if that is a node of the
    /// topology. Returns whether it is.
    pub(crate) fn deliver(&mut self, src: NodeId, dst: NodeId, payload: M, sent_at: Time) -> (r: bool)
        requires
            old(self)@.wf(),
        ensures
            r == old(self)@.graph.has(dst),
            final(self)@ == old(self)@.delivering(src, dst, payload, sent_at),
            final(self)@.wf(),
    {
        let i: usize = dst.as_usize();
        if i >= self.waiting.len() {
            return false;
        }
        assert(self@.inboxes[i as int] == self.inboxes@[i as int]@);
        let received_at = self.now;
        self.inboxes[i].push_back(Envelope { src, dst, payload, sent_at, received_at });
        if self.waiting[i] {
            self.ready.push(TaskId(dst.0));
        }
        self.tell(TaskTraceEvent::Delivered { src: src.0, dst: dst.0 });
        assert(self@.inboxes =~= old(self)@.delivering(src, dst, payload, sent_at).inboxes);
        assert(self@ =~= old(self)@.delivering(src, dst, payload, sent_at));
        true
    }

    /// Advances the clock to the time of an event.
    pub(crate) fn set_now(&mut self, time: Time)
        requires
            old(self)@.wf(),
        ensures
            final(self)@ == (TaskState { now: time, ..old(self)@ }),
            final(self)@.wf(),
    {
        self.now = time;
        assert(self@ =~= TaskState { now: time, ..old(self)@ });
    }

    /// Makes a task the last of those that are to be polled.
    pub(crate) fn make_ready(&mut self, id: TaskId)
        requires
            old(self)@.wf(),
        ensures
            final(self)@ == (TaskState { ready: old(self)@.ready.push(id), ..old(self)@ }),
            final(self)@.wf(),
    {
        self.ready.push(id);
        assert(self@ =~= TaskState { ready: old(self)@.ready.push(id), ..old(self)@ });
    }

    /// Whether a task is to be polled.
    pub(crate) fn has_ready(&self) -> (r: bool)
        ensures
            r == (self@.ready.len() > 0),
    {
        self.ready.len() > 0
    }

    /// Hands out the tasks that are to be polled.
    pub(crate) fn take_ready(&mut self) -> (r: Vec<TaskId>)
        requires
            old(self)@.wf(),
        ensures
            r@ == old(self)@.ready,
            final(self)@ == (TaskState { ready: Seq::empty(), ..old(self)@ }),
            final(self)@.wf(),
    {
        let mut ready: Vec<TaskId> = Vec::new();
        core::mem::swap(&mut ready, &mut self.ready);
        assert(self@ =~= TaskState { ready: Seq::empty(), ..old(self)@ });
        ready
    }

    /// Takes the next event off the queue.
    pub(crate) fn pop_event(&mut self) -> (r: Option<Scheduled<TaskEvent<M>>>)
        requires
            old(self)@.wf(),
        ensures
            old(self)@.queue.pending.len() == 0 ==> r is None && final(self)@ == old(self)@,
            old(self)@.queue.pending.len() > 0 ==> r == Some(old(self)@.queue.pending[0])
                && final(self)@ == (TaskState { queue: old(self)@.queue.rest(), ..old(self)@ }),
            final(self)@.wf(),
    {
        let next = self.events.pop();
        proof {
            if old(self)@.queue.pending.len() > 0 {
                assert(self@ =~= TaskState { queue: old(self)@.queue.rest(), ..old(self)@ });
                assert forall|i: int| 0 <= i < self@.queue.pending.len() implies addressed(
                    self@.graph,
                    (#[trigger] self@.queue.pending[i]).event,
                ) by {
                    assert(addressed(self@.graph, old(self)@.queue.pending[i + 1].event));
                }
            } else {
                assert(self@ =~= old(self)@);
            }
        }
        next
    }

    /// Records a trace from now on, unless one is recorded already.
    pub fn start_trace(&mut self)
        requires
            old(self)@.wf(),
        ensures
            final(self)@ == old(self)@.tracing(),
            final(self)@.wf(),
    {
        if self.trace.is_none() {
            self.trace = Some(TraceRecorder::new(self.seed));
        }
    }

    /// Ends the recording and hands out the trace of a run that ended at
    /// `final_time`; it is empty if none was recorded.
    pub fn finish_trace(&mut self, final_time: Time) -> (t: Trace<TaskTraceEvent>)
        requires
            old(self)@.wf(),
        ensures
            t@ == old(self)@.traced(final_time),
            final(self)@ == (TaskState { trace: None, ..old(self)@ }),
            final(self)@.wf(),
    {
        let mut trace: Trace<TaskTraceEvent> = match self.trace.take() {
            Some(recorder) => recorder.finish(),
            None => Trace::new(self.seed),
        };
        trace.set_final_time(final_time);
        assert(self@ =~= TaskState { trace: None, ..old(self)@ });
        trace
    }
}

} // verus!
