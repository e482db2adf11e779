//! The state that the tasks of a simulation share, and what is done to it.

use vstd::prelude::*;

use crate::net::fabric::unordered;
use crate::net::graph::{route_of, Graph};
use crate::net::node::NodeId;
use crate::queue::{
    schedule_adds_one_event, schedule_all_adds_events, QueueState, Scheduled,
};
use crate::task::event::{
    Envelope, FailureAction, Shutdown, TaskEvent, TaskId, TaskTraceDropReason,
    TaskTraceEvent,
};
use crate::time::Time;
use crate::trace::TraceState;

verus! {

/// A message that was dropped: its ends and the reason.
pub type Loss = (NodeId, NodeId, TaskTraceDropReason);

/// Whether `a` is told before `b` where several messages are dropped at once.
pub open spec fn told_before(a: Loss, b: Loss) -> bool {
    a.0.0 < b.0.0 || (a.0.0 == b.0.0 && a.1.0 < b.1.0)
}

/// The number of leading losses that are not told after `x`.
pub open spec fn rank(losses: Seq<Loss>, x: Loss) -> nat
    decreases losses.len(),
{
    if losses.len() == 0 || told_before(x, losses[0]) {
        0
    } else {
        1 + rank(losses.drop_first(), x)
    }
}

/// The losses in the order in which they are told: by source, then by
/// destination.
pub open spec fn in_telling_order(losses: Seq<Loss>) -> Seq<Loss>
    decreases losses.len(),
{
    if losses.len() == 0 {
        losses
    } else {
        let sorted = in_telling_order(losses.drop_last());
        sorted.insert(rank(sorted, losses.last()) as int, losses.last())
    }
}

/// What the tasks of a simulation share.
#[verifier::ext_equal]
pub struct TaskState<M> {
    /// The simulated time.
    pub now: Time,
    /// The topology with its failures.
    pub graph: Graph,
    /// The messages that each node has received and not yet taken, in order of
    /// arrival.
    pub inboxes: Seq<Seq<Envelope<M>>>,
    /// Whether the task of each node waits for a message.
    pub waiting: Seq<bool>,
    /// The events that are due.
    pub queue: QueueState<TaskEvent<M>>,
    /// The tasks to poll next, in order.
    pub ready: Seq<TaskId>,
    /// The signal by which the tasks are asked to stop.
    pub shutdown: Shutdown,
    /// The pairs of nodes that are partitioned from each other.
    pub partitions: Set<(NodeId, NodeId)>,
    /// The number of messages that were dropped.
    pub messages_dropped: u64,
    /// The trace, where one is recorded.
    pub trace: Option<TraceState<TaskTraceEvent>>,
    /// Whether a failure drops the messages on their way that it strands.
    pub drop_in_flight_on_failure: bool,
    /// The seed of the simulation.
    pub seed: u64,
}

/// Whether a waiting event is one that the simulation can have scheduled: a
/// message goes from a node of the topology to another, or from a node to itself.
pub open spec fn addressed<M>(graph: Graph, event: TaskEvent<M>) -> bool {
    match event {
        TaskEvent::Deliver { src, dst, .. } => src == dst || (graph.has(src) && graph.has(dst)),
        _ => true,
    }
}

/// Why a failure drops a waiting event, if it does.
pub open spec fn stranded<M>(
    graph: Graph,
    partitions: Set<(NodeId, NodeId)>,
    event: TaskEvent<M>,
) -> Option<Loss> {
    match event {
        TaskEvent::Deliver { src, dst, .. } => {
            if partitions.contains(unordered(src, dst)) {
                Some((src, dst, TaskTraceDropReason::Partitioned))
            } else if route_of(graph, src, dst) is None {
                Some((src, dst, TaskTraceDropReason::NoRoute))
            } else {
                None
            }
        },
        _ => None,
    }
}

/// The events that outlive a failure, in processing order.
pub open spec fn survivors<M>(
    graph: Graph,
    partitions: Set<(NodeId, NodeId)>,
    pending: Seq<Scheduled<TaskEvent<M>>>,
) -> Seq<(Time, TaskEvent<M>)>
    decreases pending.len(),
{
    if pending.len() == 0 {
        Seq::empty()
    } else {
        let kept = survivors(graph, partitions, pending.drop_last());
        if stranded(graph, partitions, pending.last().event) is None {
            kept.push((pending.last().time, pending.last().event))
        } else {
            kept
        }
    }
}

/// The messages that a failure drops, in processing order.
pub open spec fn losses<M>(
    graph: Graph,
    partitions: Set<(NodeId, NodeId)>,
    pending: Seq<Scheduled<TaskEvent<M>>>,
) -> Seq<Loss>
    decreases pending.len(),
{
    if pending.len() == 0 {
        Seq::empty()
    } else {
        let lost = losses(graph, partitions, pending.drop_last());
        match stranded(graph, partitions, pending.last().event) {
            Some(loss) => lost.push(loss),
            None => lost,
        }
    }
}

impl<M> TaskState<M> {
    /// The state of a new simulation: every task is to be polled once, in the
    /// order of the nodes.
    pub open spec fn initial(
        graph: Graph,
        seed: u64,
        traced: bool,
        drop_in_flight_on_failure: bool,
    ) -> TaskState<M> {
        let n = graph.links.len();
        TaskState {
            now: Time(0),
            graph,
            inboxes: Seq::new(n, |i: int| Seq::empty()),
            waiting: Seq::new(n, |i: int| false),
            queue: QueueState::empty(),
            ready: Seq::new(n, |i: int| TaskId(i as u32)),
            shutdown: Shutdown { cancelled: false },
            partitions: Set::empty(),
            messages_dropped: 0,
            trace: if traced {
                Some(TraceState::empty(seed))
            } else {
                None
            },
            drop_in_flight_on_failure,
            seed,
        }
    }

    /// Every node of the topology has an inbox, and every waiting message can
    /// have been sent.
    pub open spec fn wf(self) -> bool {
        &&& self.graph.wf()
        &&& self.inboxes.len() == self.graph.links.len()
        &&& self.waiting.len() == self.graph.links.len()
        &&& forall|i: int|
            0 <= i < self.queue.pending.len() ==> addressed(
                self.graph,
                (#[trigger] self.queue.pending[i]).event,
            )
    }

    /// Whether `a` and `b` are partitioned from each other.
    pub open spec fn partitioned(self, a: NodeId, b: NodeId) -> bool {
        self.partitions.contains(unordered(a, b))
    }

    /// The state with an event told to the trace, where one is recorded.
    pub open spec fn telling(self, event: TaskTraceEvent) -> TaskState<M> {
        TaskState {
            trace: match self.trace {
                Some(t) => Some(t.recorded(self.now, event)),
                None => None,
            },
            ..self
        }
    }

    /// The state in which a trace is recorded.
    pub open spec fn tracing(self) -> TaskState<M> {
        TaskState {
            trace: match self.trace {
                Some(t) => Some(t),
                None => Some(TraceState::empty(self.seed)),
            },
            ..self
        }
    }

    /// The trace of a run that ended at `final_time`; it is empty if none was
    /// recorded.
    pub open spec fn traced(self, final_time: Time) -> TraceState<TaskTraceEvent> {
        TraceState {
            final_time_ns: final_time.0,
            ..match self.trace {
                Some(t) => t,
                None => TraceState::empty(self.seed),
            }
        }
    }

    /// The state after one more message was dropped.
    pub open spec fn dropping(self, loss: Loss) -> TaskState<M> {
        TaskState {
            messages_dropped: (self.messages_dropped + 1) as u64,
            ..self.telling(
                TaskTraceEvent::Dropped { src: loss.0.0, dst: loss.1.0, reason: loss.2 },
            )
        }
    }

    /// The state after dropping messages one after the other.
    pub open spec fn dropping_all(self, losses: Seq<Loss>) -> TaskState<M>
        decreases losses.len(),
    {
        if losses.len() == 0 {
            self
        } else {
            self.dropping_all(losses.drop_last()).dropping(losses.last())
        }
    }

    /// The state after scheduling an event, where it can be numbered.
    pub open spec fn scheduling(self, time: Time, event: TaskEvent<M>) -> Option<TaskState<M>> {
        if self.queue.next_sequence < u64::MAX {
            Some(TaskState { queue: self.queue.schedule(time, event), ..self })
        } else {
            None
        }
    }

    /// The state after a message was sent: it is dropped if its ends are
    /// partitioned from each other or there is no route between them, and
    /// otherwise on its way for the latency of its route. `None` if it would go
    /// between working nodes one of which is not in the topology, or a time or a counter would be too large.
    pub open spec fn posting(self, src: NodeId, dst: NodeId, payload: M) -> Option<TaskState<M>> {
        if self.partitioned(src, dst) {
            self.losing((src, dst, TaskTraceDropReason::Partitioned))
        } else if !self.graph.spans(src, dst) {
            None
        } else {
            match route_of(self.graph, src, dst) {
                None => self.losing((src, dst, TaskTraceDropReason::NoRoute)),
                Some(route) => if self.now.0 + route.total_latency.0 <= u64::MAX {
                    self.scheduling(
                        Time((self.now.0 + route.total_latency.0) as u64),
                        TaskEvent::Deliver { src, dst, payload, sent_at: self.now },
                    )
                } else {
                    None
                },
            }
        }
    }

    /// The state after one more message was dropped, where it can be counted.
    pub open spec fn losing(self, loss: Loss) -> Option<TaskState<M>> {
        if self.messages_dropped < u64::MAX {
            Some(self.dropping(loss))
        } else {
            None
        }
    }

    /// The state after the task of `node` took the next message from its inbox, or
    /// began to wait for one where there is none.
    pub open spec fn taking(self, node: NodeId) -> TaskState<M> {
        let inbox = self.inboxes[node.0 as int];
        if inbox.len() > 0 {
            TaskState {
                inboxes: self.inboxes.update(node.0 as int, inbox.drop_first()),
                ..self.waiting_set(node, false)
            }
        } else {
            self.waiting_set(node, true)
        }
    }

    /// What the task of `node` gets when it takes the next message.
    pub open spec fn taken(self, node: NodeId) -> Option<Envelope<M>> {
        let inbox = self.inboxes[node.0 as int];
        if inbox.len() > 0 {
            Some(inbox[0])
        } else {
            None
        }
    }

    /// The state in which the task of `node` waits for a message, or does not.
    pub open spec fn waiting_set(self, node: NodeId, waits: bool) -> TaskState<M> {
        TaskState { waiting: self.waiting.update(node.0 as int, waits), ..self }
    }

    /// The state after a message arrived: it is the last in the inbox of its
    /// destination, whose task is to be polled if it waits for a message. A
    /// message to no node of the topology changes nothing.
    pub open spec fn delivering(
        self,
        src: NodeId,
        dst: NodeId,
        payload: M,
        sent_at: Time,
    ) -> TaskState<M> {
        if self.graph.has(dst) {
            TaskState {
                inboxes: self.inboxes.update(
                    dst.0 as int,
                    self.inboxes[dst.0 as int].push(
                        Envelope { src, dst, payload, sent_at, received_at: self.now },
                    ),
                ),
                ready: if self.waiting[dst.0 as int] {
                    self.ready.push(TaskId(dst.0))
                } else {
                    self.ready
                },
                ..self.telling(TaskTraceEvent::Delivered { src: src.0, dst: dst.0 })
            }
        } else {
            self
        }
    }

    /// The state after an event was processed: a task is to be polled, a failure
    /// or a repair takes effect, or a message arrives. `None` if a number or a
    /// counter would be too large.
    pub open spec fn processing(self, event: TaskEvent<M>) -> Option<TaskState<M>> {
        match event {
            TaskEvent::Wake(id) => Some(TaskState { ready: self.ready.push(id), ..self }),
            TaskEvent::ApplyFailure(action) => self.applying(action),
            TaskEvent::Deliver { src, dst, payload, sent_at } => Some(
                self.delivering(src, dst, payload, sent_at),
            ),
        }
    }

    /// The state with the topology and the partitions changed by `action`.
    pub open spec fn changed(self, action: FailureAction) -> TaskState<M> {
        match action {
            FailureAction::Partition(a, b) => TaskState {
                partitions: self.partitions.insert(unordered(a, b)),
                ..self
            },
            FailureAction::Heal(a, b) => TaskState {
                partitions: self.partitions.remove(unordered(a, b)),
                ..self
            },
            FailureAction::FailLink(a, b) => TaskState {
                graph: self.graph.with_failed_link(a, b).with_failed_link(b, a),
                ..self
            },
            FailureAction::HealLink(a, b) => TaskState {
                graph: self.graph.with_healed_link(a, b).with_healed_link(b, a),
                ..self
            },
            FailureAction::FailLinkDirected(src, dst) => TaskState {
                graph: self.graph.with_failed_link(src, dst),
                ..self
            },
            FailureAction::HealLinkDirected(src, dst) => TaskState {
                graph: self.graph.with_healed_link(src, dst),
                ..self
            },
            FailureAction::FailNode(node) => TaskState {
                graph: self.graph.with_failed_node(node),
                ..self
            },
            FailureAction::HealNode(node) => TaskState {
                graph: self.graph.with_healed_node(node),
                ..self
            },
        }
    }

    /// The state after the stranded messages were dropped: what is not stranded
    /// keeps its time and is numbered anew, in processing order. `None` if a
    /// number or the counter would be too large.
    pub open spec fn sweeping(self) -> Option<TaskState<M>> {
        let kept = survivors(self.graph, self.partitions, self.queue.pending);
        let lost = losses(self.graph, self.partitions, self.queue.pending);
        if self.queue.next_sequence + kept.len() <= u64::MAX && self.messages_dropped + lost.len()
            <= u64::MAX {
            Some(
                TaskState {
                    queue: self.queue.cleared().schedule_all(kept),
                    ..self
                }.dropping_all(in_telling_order(lost)),
            )
        } else {
            None
        }
    }

    /// The state after a failure or a repair took effect. A failure drops the
    /// messages that it strands, if so configured. `None` if a number or a
    /// counter would be too large.
    pub open spec fn applying(self, action: FailureAction) -> Option<TaskState<M>> {
        if action.fails() && self.drop_in_flight_on_failure {
            self.changed(action).sweeping()
        } else {
            Some(self.changed(action))
        }
    }
}

pub(crate) proof fn lemma_survivors<M>(
    graph: Graph,
    partitions: Set<(NodeId, NodeId)>,
    pending: Seq<Scheduled<TaskEvent<M>>>,
)
    ensures
        survivors(graph, partitions, pending).len() + losses(graph, partitions, pending).len()
            == pending.len(),
        forall|i: int|
            0 <= i < survivors(graph, partitions, pending).len() ==> {
                let kept = #[trigger] survivors(graph, partitions, pending)[i];
                &&& stranded(graph, partitions, kept.1) is None
                &&& exists|j: int|
                    0 <= j < pending.len() && (#[trigger] pending[j]).time == kept.0
                        && pending[j].event == kept.1
            },
    decreases pending.len(),
{
    if pending.len() > 0 {
        let fewer = pending.drop_last();
        lemma_survivors(graph, partitions, fewer);
        let before = survivors(graph, partitions, fewer);
        let after = survivors(graph, partitions, pending);
        assert forall|i: int| 0 <= i < after.len() implies {
            let kept = #[trigger] after[i];
            &&& stranded(graph, partitions, kept.1) is None
            &&& exists|j: int|
                0 <= j < pending.len() && (#[trigger] pending[j]).time == kept.0
                    && pending[j].event == kept.1
        } by {
            if i < before.len() {
                assert(after[i] == before[i]);
                let j = choose|j: int|
                    0 <= j < fewer.len() && (#[trigger] fewer[j]).time == before[i].0
                        && fewer[j].event == before[i].1;
                assert(pending[j] == fewer[j]);
            } else {
                assert(pending[pending.len() - 1].time == after[i].0);
            }
        }
    }
}

pub(crate) proof fn lemma_dropping_all<M>(state: TaskState<M>, lost: Seq<Loss>)
    requires
        state.messages_dropped + lost.len() <= u64::MAX,
    ensures
        state.dropping_all(lost) == (TaskState {
            messages_dropped: (state.messages_dropped + lost.len()) as u64,
            trace: state.dropping_all(lost).trace,
            ..state
        }),
        (state.dropping_all(lost).trace is Some) == (state.trace is Some),
        state.trace is Some ==> state.dropping_all(lost).trace->0.events.len()
            == state.trace->0.events.len() + lost.len(),
    decreases lost.len(),
{
    if lost.len() > 0 {
        lemma_dropping_all(state, lost.drop_last());
    }
}

impl<M> TaskState<M> {
    /// Scheduling an event keeps the state well-formed.
    pub proof fn scheduling_keeps_wf(self, time: Time, event: TaskEvent<M>)
        requires
            self.wf(),
            addressed(self.graph, event),
            self.scheduling(time, event) is Some,
        ensures
            self.scheduling(time, event)->0.wf(),
    {
        schedule_adds_one_event(self.queue, time, event);
        let after = self.queue.schedule(time, event).pending;
        assert forall|i: int| 0 <= i < after.len() implies addressed(
            self.graph,
            (#[trigger] after[i]).event,
        ) by {
            if self.queue.pending.contains(after[i]) {
                let j = choose|j: int|
                    0 <= j < self.queue.pending.len() && self.queue.pending[j] == after[i];
                assert(addressed(self.graph, self.queue.pending[j].event));
            }
        }
    }

    /// Sending a message keeps the state well-formed.
    pub proof fn posting_keeps_wf(self, src: NodeId, dst: NodeId, payload: M)
        requires
            self.wf(),
            self.posting(src, dst, payload) is Some,
        ensures
            self.posting(src, dst, payload)->0.wf(),
    {
        if !self.partitioned(src, dst) {
            if let Some(route) = route_of(self.graph, src, dst) {
                self.scheduling_keeps_wf(
                    Time((self.now.0 + route.total_latency.0) as u64),
                    TaskEvent::Deliver { src, dst, payload, sent_at: self.now },
                );
            }
        }
    }

    /// A change of the topology or the partitions keeps the state well-formed.
    pub proof fn changing_keeps_wf(self, action: FailureAction)
        requires
            self.wf(),
        ensures
            self.changed(action).wf(),
    {
        let changed = self.changed(action);
        assert forall|i: int| 0 <= i < changed.queue.pending.len() implies addressed(
            changed.graph,
            (#[trigger] changed.queue.pending[i]).event,
        ) by {
            assert(addressed(self.graph, self.queue.pending[i].event));
        }
    }

    /// A failure or a repair keeps the state well-formed.
    pub proof fn applying_keeps_wf(self, action: FailureAction)
        requires
            self.wf(),
            self.applying(action) is Some,
        ensures
            self.applying(action)->0.wf(),
    {
        let changed = self.changed(action);
        self.changing_keeps_wf(action);
        if action.fails() && self.drop_in_flight_on_failure {
            let pending = changed.queue.pending;
            let kept = survivors(changed.graph, changed.partitions, pending);
            let lost = losses(changed.graph, changed.partitions, pending);
            lemma_survivors(changed.graph, changed.partitions, pending);
            lemma_in_telling_order(lost);
            let cleared = changed.queue.cleared();
            schedule_all_adds_events(cleared, kept);
            let after = cleared.schedule_all(kept);
            lemma_dropping_all(TaskState { queue: after, ..changed }, in_telling_order(lost));
            assert forall|i: int| 0 <= i < after.pending.len() implies addressed(
                changed.graph,
                (#[trigger] after.pending[i]).event,
            ) by {
                let s = after.pending[i];
                assert(!cleared.pending.contains(s));
                let k = choose|k: int| 0 <= k < kept.len() && kept[k] == (s.time, s.event);
                let j = choose|j: int|
                    0 <= j < pending.len() && (#[trigger] pending[j]).time == kept[k].0
                        && pending[j].event == kept[k].1;
                assert(addressed(changed.graph, pending[j].event));
            }
        }
    }
}

proof fn lemma_rank(losses: Seq<Loss>, x: Loss)
    ensures
        rank(losses, x) <= losses.len(),
        forall|i: int| 0 <= i < rank(losses, x) ==> !told_before(x, #[trigger] losses[i]),
        rank(losses, x) < losses.len() ==> told_before(x, losses[rank(losses, x) as int]),
    decreases losses.len(),
{
    if losses.len() > 0 && !told_before(x, losses[0]) {
        let rest = losses.drop_first();
        lemma_rank(rest, x);
        assert forall|i: int| 0 <= i < rank(losses, x) implies !told_before(x, #[trigger] losses[i]) by {
            if i > 0 {
                assert(losses[i] == rest[i - 1]);
            }
        }
    }
}

/// Losses in telling order are the same losses, sorted by source and then by
/// destination.
pub proof fn lemma_in_telling_order(losses: Seq<Loss>)
    ensures
        in_telling_order(losses).len() == losses.len(),
        in_telling_order(losses).to_multiset() == losses.to_multiset(),
        forall|i: int, j: int|
            0 <= i < j < losses.len() ==> !told_before(
                #[trigger] in_telling_order(losses)[j],
                #[trigger] in_telling_order(losses)[i],
            ),
    decreases losses.len(),
{
    broadcast use vstd::seq_lib::group_to_multiset_ensures;

    if losses.len() > 0 {
        let fewer = losses.drop_last();
        let x = losses.last();
        lemma_in_telling_order(fewer);
        let sorted = in_telling_order(fewer);
        lemma_rank(sorted, x);
        let r = rank(sorted, x) as int;
        let after = in_telling_order(losses);
        assert(losses =~= fewer.push(x));
        assert forall|i: int, j: int| 0 <= i < j < losses.len() implies !told_before(
            #[trigger] after[j],
            #[trigger] after[i],
        ) by {
            if j < r {
                assert(after[i] == sorted[i] && after[j] == sorted[j]);
            } else if j == r {
                assert(after[i] == sorted[i]);
            } else if i < r {
                assert(after[i] == sorted[i] && after[j] == sorted[j - 1]);
            } else if i == r {
                assert(after[j] == sorted[j - 1]);
                if j - 1 > r {
                    assert(!told_before(sorted[j - 1], sorted[r]));
                }
            } else {
                assert(after[i] == sorted[i - 1] && after[j] == sorted[j - 1]);
            }
        }
    }
}

} // verus!
