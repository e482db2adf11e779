//! What is done to the messages, the topology and the trace of a task-based simulation.

use vstd::prelude::*;

use crate::net::delivery::parted;
use crate::net::graph::{route_of, Graph};
use crate::net::node::NodeId;
use crate::order::events_are_numbered_in_turn;
use crate::queue::{schedule_adds_one_event, Scheduled};
use crate::task::context::{contexts_of, first_of, Either, Polled};
use crate::task::event::{
    FailureAction, TaskEvent, TaskId, TaskTraceDropReason, TaskTraceEvent,
};
use crate::task::state::{in_telling_order, losses, rank, stranded, survivors, Loss, TaskState};
use crate::time::Time;
use crate::trace::TraceEvent;

verus! {

/// Whether `b` differs from `a` in nothing but its queue, its inboxes, the waiting and the ready
/// tasks, the trace and the number of dropped messages.
pub open spec fn same_world<M>(a: TaskState<M>, b: TaskState<M>) -> bool {
    &&& a.now == b.now
    &&& a.graph == b.graph
    &&& a.shutdown == b.shutdown
    &&& a.partitions == b.partitions
    &&& a.drop_in_flight_on_failure == b.drop_in_flight_on_failure
    &&& a.seed == b.seed
}

/// Whether nobody got a message or was woken between `a` and `b`.
pub open spec fn same_tasks<M>(a: TaskState<M>, b: TaskState<M>) -> bool {
    &&& a.inboxes == b.inboxes
    &&& a.waiting == b.waiting
    &&& a.ready == b.ready
}

/// Whether the trace of `b`, if there is one, is that of `a` with `event` told at the end, at the
/// time of `a` and numbered by its place.
pub open spec fn tells<M>(a: TaskState<M>, b: TaskState<M>, event: TaskTraceEvent) -> bool {
    &&& (a.trace is Some) == (b.trace is Some)
    &&& a.trace is Some ==> {
        let before = a.trace->0;
        let after = b.trace->0;
        &&& after.seed == before.seed
        &&& after.events.len() == before.events.len() + 1
        &&& after.events.drop_last() == before.events
        &&& after.events.last() == (TraceEvent {
            time_ns: a.now.0,
            sequence: before.events.len() as u64,
            event,
        })
        &&& after.final_time_ns == a.now.0
    }
}

/// A new simulation starts at time zero with nothing waiting anywhere, and every task is to be
/// polled, in the order of the nodes.
pub proof fn new_simulations_poll_every_task<M>(
    graph: Graph,
    seed: u64,
    traced: bool,
    drop_in_flight_on_failure: bool,
    node: int,
)
    requires
        graph.links.len() <= u32::MAX,
        0 <= node < graph.links.len(),
    ensures
        ({
            let s = TaskState::<M>::initial(graph, seed, traced, drop_in_flight_on_failure);
            &&& s.now.0 == 0
            &&& s.graph == graph
            &&& s.inboxes.len() == graph.links.len()
            &&& s.inboxes[node].len() == 0
            &&& s.waiting.len() == graph.links.len()
            &&& !s.waiting[node]
            &&& s.queue.pending.len() == 0
            &&& s.queue.next_sequence == 0
            &&& s.ready.len() == graph.links.len()
            &&& s.ready[node].0 == node
            &&& !s.shutdown.cancelled
            &&& forall|a: NodeId, b: NodeId| !parted(s.partitions, a, b)
            &&& s.messages_dropped == 0
            &&& traced == (s.trace is Some)
            &&& traced ==> s.trace->0.seed == seed && s.trace->0.events.len() == 0
                && s.trace->0.final_time_ns == 0
            &&& s.drop_in_flight_on_failure == drop_in_flight_on_failure
            &&& s.seed == seed
        }),
{
}

/// The task of a node works with that node and that task.
pub proof fn tasks_belong_to_their_nodes(n: nat, i: int)
    requires
        0 <= i < n <= u32::MAX,
    ensures
        contexts_of(n).len() == n,
        contexts_of(n)[i].node_id.0 == i,
        contexts_of(n)[i].task_id.0 == i,
{
}

/// A message is dropped and told, for the partition or for want of a route, or it waits to be
/// delivered when the latency of its route has passed. Nothing else changes.
pub proof fn posted_messages_arrive_after_the_latency<M>(
    s: TaskState<M>,
    src: NodeId,
    dst: NodeId,
    payload: M,
)
    ensures
        s.posting(src, dst, payload) matches Some(after) ==> {
            let apart = parted(s.partitions, src, dst);
            let route = route_of(s.graph, src, dst);
            &&& same_world(s, after)
            &&& same_tasks(s, after)
            &&& apart || route is None ==> after.queue == s.queue && after.messages_dropped
                == s.messages_dropped + 1
            &&& apart ==> tells(
                s,
                after,
                TaskTraceEvent::Dropped {
                    src: src.0,
                    dst: dst.0,
                    reason: TaskTraceDropReason::Partitioned,
                },
            )
            &&& !apart && route is None ==> tells(
                s,
                after,
                TaskTraceEvent::Dropped {
                    src: src.0,
                    dst: dst.0,
                    reason: TaskTraceDropReason::NoRoute,
                },
            )
            &&& !apart && route is Some ==> {
                &&& after.messages_dropped == s.messages_dropped
                &&& after.trace == s.trace
                &&& after.queue.next_sequence == s.queue.next_sequence + 1
                &&& after.queue.pending.len() == s.queue.pending.len() + 1
                &&& s.now.0 + route->0.total_latency.0 <= u64::MAX
                &&& after.queue.pending.to_multiset() == s.queue.pending.to_multiset().insert(
                    Scheduled {
                        time: Time((s.now.0 + route->0.total_latency.0) as u64),
                        sequence: s.queue.next_sequence,
                        event: TaskEvent::Deliver { src, dst, payload, sent_at: s.now },
                    },
                )
            }
        },
        s.posting(src, dst, payload) is None ==> {
            let apart = parted(s.partitions, src, dst);
            let route = route_of(s.graph, src, dst);
            let known = src.0 < s.graph.links.len() && dst.0 < s.graph.links.len();
            let failed = s.graph.failed_nodes.contains(src) || s.graph.failed_nodes.contains(dst);
            ||| (apart || route is None) && s.messages_dropped == u64::MAX
            ||| !apart && src != dst && !failed && !known
            ||| !apart && route is Some && s.now.0 + route->0.total_latency.0 > u64::MAX
            ||| !apart && route is Some && s.queue.next_sequence == u64::MAX
        },
{
    if let Some(route) = route_of(s.graph, src, dst) {
        schedule_adds_one_event(
            s.queue,
            Time((s.now.0 + route.total_latency.0) as u64),
            TaskEvent::Deliver { src, dst, payload, sent_at: s.now },
        );
    }
    if let Some(after) = s.posting(src, dst, payload) {
        if after.trace is Some && s.trace is Some && after.trace != s.trace {
            assert(after.trace->0.events.drop_last() =~= s.trace->0.events);
        }
    }
}

/// Scheduling an event puts it into the queue at its time, under the next number, and changes
/// nothing else; it fails only if there is no next number.
pub proof fn scheduled_events_wait_for_their_time<M>(
    s: TaskState<M>,
    time: Time,
    event: TaskEvent<M>,
)
    ensures
        s.scheduling(time, event) is None <==> s.queue.next_sequence == u64::MAX,
        s.scheduling(time, event) matches Some(after) ==> {
            &&& same_world(s, after)
            &&& same_tasks(s, after)
            &&& after.messages_dropped == s.messages_dropped
            &&& after.trace == s.trace
            &&& after.queue.next_sequence == s.queue.next_sequence + 1
            &&& after.queue.pending.to_multiset() == s.queue.pending.to_multiset().insert(
                Scheduled { time, sequence: s.queue.next_sequence, event },
            )
        },
{
    schedule_adds_one_event(s.queue, time, event);
}

/// Taking the next message takes the oldest one of the inbox; without one, the task waits. No
/// other node is concerned.
pub proof fn the_oldest_message_is_taken<M>(s: TaskState<M>, node: NodeId, other: int)
    requires
        s.inboxes.len() == s.waiting.len(),
        node.0 < s.inboxes.len(),
        0 <= other < s.inboxes.len(),
        other != node.0,
    ensures
        ({
            let after = s.taking(node);
            let inbox = s.inboxes[node.0 as int];
            &&& same_world(s, after)
            &&& after.queue == s.queue
            &&& after.ready == s.ready
            &&& after.trace == s.trace
            &&& after.messages_dropped == s.messages_dropped
            &&& after.inboxes.len() == s.inboxes.len()
            &&& after.waiting.len() == s.waiting.len()
            &&& after.inboxes[other] == s.inboxes[other]
            &&& after.waiting[other] == s.waiting[other]
            &&& match s.taken(node) {
                Some(envelope) => {
                    &&& inbox == seq![envelope] + after.inboxes[node.0 as int]
                    &&& !after.waiting[node.0 as int]
                },
                None => {
                    &&& inbox.len() == 0
                    &&& after.inboxes[node.0 as int].len() == 0
                    &&& after.waiting[node.0 as int]
                },
            }
        }),
{
    let inbox = s.inboxes[node.0 as int];
    if inbox.len() > 0 {
        assert(inbox =~= seq![inbox[0]] + inbox.drop_first());
    }
}

/// Whether a task waits is noted for that task and no other.
pub proof fn waiting_is_noted_for_one_task<M>(s: TaskState<M>, node: NodeId, waits: bool, other: int)
    requires
        node.0 < s.waiting.len(),
        0 <= other < s.waiting.len(),
        other != node.0,
    ensures
        ({
            let after = s.waiting_set(node, waits);
            &&& after.waiting.len() == s.waiting.len()
            &&& after.waiting[node.0 as int] == waits
            &&& after.waiting[other] == s.waiting[other]
            &&& (TaskState { waiting: s.waiting, ..after }) == s
        }),
{
}

/// A message that arrives comes last in the inbox of its destination, as it was sent and with the
/// time at which it was received, and is told. The task of the destination is to be polled if it
/// waits, after those that already are. A message to no node changes nothing.
pub proof fn arriving_messages_come_last<M>(
    s: TaskState<M>,
    src: NodeId,
    dst: NodeId,
    payload: M,
    sent_at: Time,
    other: int,
)
    requires
        s.inboxes.len() == s.graph.links.len(),
        s.waiting.len() == s.graph.links.len(),
        0 <= other < s.inboxes.len(),
        other != dst.0,
    ensures
        ({
            let after = s.delivering(src, dst, payload, sent_at);
            &&& s.processing(TaskEvent::Deliver { src, dst, payload, sent_at }) == Some(after)
            &&& dst.0 >= s.graph.links.len() ==> after == s
            &&& dst.0 < s.graph.links.len() ==> {
                let inbox = after.inboxes[dst.0 as int];
                &&& same_world(s, after)
                &&& after.queue == s.queue
                &&& after.waiting == s.waiting
                &&& after.messages_dropped == s.messages_dropped
                &&& after.inboxes.len() == s.inboxes.len()
                &&& after.inboxes[other] == s.inboxes[other]
                &&& inbox.len() == s.inboxes[dst.0 as int].len() + 1
                &&& inbox.drop_last() == s.inboxes[dst.0 as int]
                &&& inbox.last().src == src
                &&& inbox.last().dst == dst
                &&& inbox.last().payload == payload
                &&& inbox.last().sent_at == sent_at
                &&& inbox.last().received_at == s.now
                &&& tells(s, after, TaskTraceEvent::Delivered { src: src.0, dst: dst.0 })
                &&& !s.waiting[dst.0 as int] ==> after.ready == s.ready
                &&& s.waiting[dst.0 as int] ==> {
                    &&& after.ready.len() == s.ready.len() + 1
                    &&& after.ready.drop_last() == s.ready
                    &&& after.ready.last().0 == dst.0
                }
            }
        }),
{
    let after = s.delivering(src, dst, payload, sent_at);
    if dst.0 < s.graph.links.len() {
        assert(after.inboxes[dst.0 as int].drop_last() =~= s.inboxes[dst.0 as int]);
        if s.waiting[dst.0 as int] {
            assert(after.ready.drop_last() =~= s.ready);
        }
        if s.trace is Some {
            assert(after.trace->0.events.drop_last() =~= s.trace->0.events);
        }
    }
}

/// A task that is due to go on is to be polled after those that already are, and nothing else
/// changes.
pub proof fn woken_tasks_are_polled_in_turn<M>(s: TaskState<M>, id: TaskId)
    ensures
        s.processing(TaskEvent::Wake(id)) matches Some(after) && {
            &&& after.ready.len() == s.ready.len() + 1
            &&& after.ready.drop_last() == s.ready
            &&& after.ready.last() == id
            &&& (TaskState { ready: s.ready, ..after }) == s
        },
{
    let after = s.processing(TaskEvent::Wake(id))->0;
    assert(after.ready.drop_last() =~= s.ready);
}

/// A dropped message is counted and told, and nothing else changes.
pub proof fn dropped_messages_are_counted<M>(s: TaskState<M>, loss: Loss)
    ensures
        s.losing(loss) is None <==> s.messages_dropped == u64::MAX,
        s.losing(loss) matches Some(after) ==> {
            &&& same_world(s, after)
            &&& same_tasks(s, after)
            &&& after.queue == s.queue
            &&& after.messages_dropped == s.messages_dropped + 1
            &&& tells(
                s,
                after,
                TaskTraceEvent::Dropped { src: loss.0.0, dst: loss.1.0, reason: loss.2 },
            )
        },
{
    if let Some(after) = s.losing(loss) {
        if s.trace is Some {
            assert(after.trace->0.events.drop_last() =~= s.trace->0.events);
        }
    }
}

/// Recording starts with an empty trace, unless there is one already, and a finished trace shows
/// the time at which the run ended.
pub proof fn traces_are_started_and_finished<M>(s: TaskState<M>, end: Time)
    ensures
        s.tracing().trace is Some,
        s.trace is Some ==> s.tracing() == s,
        s.trace is None ==> {
            let t = s.tracing().trace->0;
            t.seed == s.seed && t.events.len() == 0 && t.final_time_ns == 0
        },
        (TaskState { trace: s.trace, ..s.tracing() }) == s,
        s.traced(end).final_time_ns == end.0,
        match s.trace {
            Some(t) => s.traced(end).seed == t.seed && s.traced(end).events == t.events,
            None => s.traced(end).seed == s.seed && s.traced(end).events.len() == 0,
        },
{
}

/// Each failure and each repair concerns what it names: a partition holds in both directions, an
/// edge fails in both unless one is named, and nothing else changes.
pub proof fn failures_do_what_they_say<M>(
    s: TaskState<M>,
    a: NodeId,
    b: NodeId,
    c: NodeId,
    d: NodeId,
)
    ensures
        ({
            let same = (c == a && d == b) || (c == b && d == a);
            let forth = c == a && d == b;
            let p = s.changed(FailureAction::Partition(a, b));
            let h = s.changed(FailureAction::Heal(a, b));
            let f = s.changed(FailureAction::FailLink(a, b));
            let r = s.changed(FailureAction::HealLink(a, b));
            let g = s.changed(FailureAction::FailLinkDirected(a, b));
            let q = s.changed(FailureAction::HealLinkDirected(a, b));
            let m = s.changed(FailureAction::FailNode(a));
            let n = s.changed(FailureAction::HealNode(a));
            let was = s.graph.failed_links.contains((c, d));
            &&& parted(p.partitions, c, d) == (same || parted(s.partitions, c, d))
            &&& parted(h.partitions, c, d) == (!same && parted(s.partitions, c, d))
            &&& f.graph.failed_links.contains((c, d)) == (same || was)
            &&& r.graph.failed_links.contains((c, d)) == (!same && was)
            &&& g.graph.failed_links.contains((c, d)) == (forth || was)
            &&& q.graph.failed_links.contains((c, d)) == (!forth && was)
            &&& m.graph.failed_nodes.contains(c) == (c == a || s.graph.failed_nodes.contains(c))
            &&& n.graph.failed_nodes.contains(c) == (c != a && s.graph.failed_nodes.contains(c))
            &&& (TaskState { partitions: s.partitions, ..p }) == s
            &&& (TaskState { partitions: s.partitions, ..h }) == s
            &&& changes_edges_only(s, f) && changes_edges_only(s, r)
            &&& changes_edges_only(s, g) && changes_edges_only(s, q)
            &&& changes_nodes_only(s, m) && changes_nodes_only(s, n)
        }),
{
}

/// Whether `b` differs from `a` in nothing but the edges that have failed.
pub open spec fn changes_edges_only<M>(a: TaskState<M>, b: TaskState<M>) -> bool {
    &&& (TaskState { graph: a.graph, ..b }) == a
    &&& (Graph { failed_links: a.graph.failed_links, ..b.graph }) == a.graph
}

/// Whether `b` differs from `a` in nothing but the nodes that have failed.
pub open spec fn changes_nodes_only<M>(a: TaskState<M>, b: TaskState<M>) -> bool {
    &&& (TaskState { graph: a.graph, ..b }) == a
    &&& (Graph { failed_nodes: a.graph.failed_nodes, ..b.graph }) == a.graph
}

/// Repairs strand nothing: only what fails something is a failure.
pub proof fn repairs_are_no_failures(a: NodeId, b: NodeId)
    ensures
        FailureAction::Partition(a, b).fails(),
        FailureAction::FailLink(a, b).fails(),
        FailureAction::FailLinkDirected(a, b).fails(),
        FailureAction::FailNode(a).fails(),
        !FailureAction::Heal(a, b).fails(),
        !FailureAction::HealLink(a, b).fails(),
        !FailureAction::HealLinkDirected(a, b).fails(),
        !FailureAction::HealNode(a).fails(),
{
}

/// Whether an event is a message that is parted from its destination.
pub open spec fn cut_off<M>(s: TaskState<M>, event: TaskEvent<M>) -> bool {
    event matches TaskEvent::Deliver { src, dst, .. } && parted(s.partitions, src, dst)
}

/// Whether an event is a message to whose destination there is no route.
pub open spec fn unrouted<M>(s: TaskState<M>, event: TaskEvent<M>) -> bool {
    event matches TaskEvent::Deliver { src, dst, .. } && route_of(s.graph, src, dst) is None
}

/// Whether `places` picks places of a sequence of length `len` from the front to the back.
pub open spec fn in_sequence(places: Seq<int>, len: nat) -> bool {
    &&& forall|k: int| 0 <= k < places.len() ==> 0 <= #[trigger] places[k] < len
    &&& forall|j: int, k: int|
        #![trigger places[j], places[k]]
        0 <= j < k < places.len() ==> places[j] < places[k]
}

/// What outlives a failure is what is neither parted from its destination nor without a route,
/// with its time and in its order; what is lost is the rest, with the reason. `kept` and `lost`
/// tell where each stands in the queue.
pub proof fn failures_take_what_cannot_arrive<M>(
    s: TaskState<M>,
    pending: Seq<Scheduled<TaskEvent<M>>>,
) -> (r: (Seq<int>, Seq<int>))
    ensures
        ({
            let (kept, lost) = r;
            let stay = survivors(s.graph, s.partitions, pending);
            let gone = losses(s.graph, s.partitions, pending);
            &&& kept.len() == stay.len()
            &&& lost.len() == gone.len()
            &&& in_sequence(kept, pending.len())
            &&& in_sequence(lost, pending.len())
            &&& forall|k: int|
                0 <= k < kept.len() ==> {
                    let e = pending[#[trigger] kept[k]];
                    &&& !cut_off(s, e.event)
                    &&& !unrouted(s, e.event)
                    &&& stay[k].0 == e.time
                    &&& stay[k].1 == e.event
                }
            &&& forall|k: int|
                0 <= k < lost.len() ==> {
                    let e = pending[#[trigger] lost[k]];
                    &&& e.event matches TaskEvent::Deliver { src, dst, .. } && gone[k].0 == src
                        && gone[k].1 == dst
                    &&& gone[k].2 is Partitioned <==> cut_off(s, e.event)
                    &&& gone[k].2 is NoRoute ==> unrouted(s, e.event)
                }
            &&& kept.len() + lost.len() == pending.len()
        }),
    decreases pending.len(),
{
    if pending.len() == 0 {
        (Seq::empty(), Seq::empty())
    } else {
        let fewer = pending.drop_last();
        let (kept, lost) = failures_take_what_cannot_arrive(s, fewer);
        let stay = survivors(s.graph, s.partitions, fewer);
        let gone = losses(s.graph, s.partitions, fewer);
        let last = pending.len() - 1;
        assert forall|k: int| 0 <= k < kept.len() implies fewer[#[trigger] kept[k]]
            == pending[kept[k]] by {}
        assert forall|k: int| 0 <= k < lost.len() implies fewer[#[trigger] lost[k]]
            == pending[lost[k]] by {}
        if stranded(s.graph, s.partitions, pending.last().event) is None {
            let longer = kept.push(last);
            assert forall|k: int| 0 <= k < longer.len() implies {
                let e = pending[#[trigger] longer[k]];
                &&& !cut_off(s, e.event)
                &&& !unrouted(s, e.event)
                &&& stay.push((pending.last().time, pending.last().event))[k] == (e.time, e.event)
            } by {
                if k < kept.len() {
                    assert(longer[k] == kept[k]);
                    assert(fewer[kept[k]] == pending[kept[k]]);
                }
            }
            (longer, lost)
        } else {
            let longer = lost.push(last);
            let loss = stranded(s.graph, s.partitions, pending.last().event)->0;
            assert forall|k: int| 0 <= k < longer.len() implies {
                let e = pending[#[trigger] longer[k]];
                let l = gone.push(loss)[k];
                &&& e.event matches TaskEvent::Deliver { src, dst, .. } && l.0 == src && l.1 == dst
                &&& l.2 is Partitioned <==> cut_off(s, e.event)
                &&& l.2 is NoRoute ==> unrouted(s, e.event)
            } by {
                if k < lost.len() {
                    assert(longer[k] == lost[k]);
                    assert(fewer[lost[k]] == pending[lost[k]]);
                }
            }
            (kept, longer)
        }
    }
}

/// Whether what is lost under `a` is told before what is lost under `b`: by source, then by
/// destination.
pub open spec fn has_lower_ends(a: Loss, b: Loss) -> bool {
    a.0.0 < b.0.0 || (a.0.0 == b.0.0 && a.1.0 < b.1.0)
}

/// Whether `places` lists every place of a sequence of length `len` once.
pub open spec fn rearranges(places: Seq<int>, len: nat) -> bool {
    &&& places.len() == len
    &&& forall|k: int| 0 <= k < places.len() ==> 0 <= #[trigger] places[k] < len
    &&& forall|j: int, k: int|
        #![trigger places[j], places[k]]
        0 <= j < k < places.len() ==> places[j] != places[k]
}

proof fn lemma_place(sorted: Seq<Loss>, x: Loss)
    ensures
        rank(sorted, x) <= sorted.len(),
        forall|i: int| 0 <= i < rank(sorted, x) ==> !has_lower_ends(x, #[trigger] sorted[i]),
        rank(sorted, x) < sorted.len() ==> has_lower_ends(x, sorted[rank(sorted, x) as int]),
    decreases sorted.len(),
{
    if rank(sorted, x) > 0 {
        let rest = sorted.drop_first();
        lemma_place(rest, x);
        assert forall|i: int| 0 <= i < rank(sorted, x) implies !has_lower_ends(
            x,
            #[trigger] sorted[i],
        ) by {
            if i > 0 {
                assert(sorted[i] == rest[i - 1]);
            }
        }
    }
}

/// Messages that are dropped at once are told by source and then by destination, and those with
/// the same ends in the order in which they were due; each is told once. `places` tells where
/// each of them stood.
pub proof fn losses_are_told_by_their_ends(lost: Seq<Loss>) -> (places: Seq<int>)
    ensures
        ({
            let told = in_telling_order(lost);
            &&& told.len() == lost.len()
            &&& rearranges(places, lost.len())
            &&& forall|k: int|
                0 <= k < places.len() ==> told[k] == lost[#[trigger] places[k]]
            &&& forall|j: int, k: int|
                #![trigger told[j], told[k]]
                0 <= j < k < told.len() ==> !has_lower_ends(told[k], told[j])
            &&& forall|j: int, k: int|
                #![trigger places[j], places[k]]
                0 <= j < k < told.len() && !has_lower_ends(told[j], told[k]) ==> places[j]
                    < places[k]
        }),
    decreases lost.len(),
{
    if lost.len() == 0 {
        Seq::empty()
    } else {
        let fewer = lost.drop_last();
        let x = lost.last();
        let before = losses_are_told_by_their_ends(fewer);
        let sorted = in_telling_order(fewer);
        lemma_place(sorted, x);
        let r = rank(sorted, x) as int;
        let last = lost.len() - 1;
        let places = before.insert(r, last);
        let told = in_telling_order(lost);
        assert(told == sorted.insert(r, x));
        assert forall|k: int| 0 <= k < places.len() implies 0 <= #[trigger] places[k] < lost.len()
            && told[k] == lost[places[k]] by {
            if k < r {
                assert(places[k] == before[k] && told[k] == sorted[k]);
            } else if k > r {
                assert(places[k] == before[k - 1] && told[k] == sorted[k - 1]);
            }
        }
        assert forall|j: int, k: int|
            #![trigger places[j], places[k]]
            0 <= j < k < places.len() implies places[j] != places[k] by {
            lemma_insert_apart(before, r, last, j, k);
        }
        assert forall|j: int, k: int|
            #![trigger told[j], told[k]]
            0 <= j < k < told.len() implies !has_lower_ends(told[k], told[j]) by {
            lemma_insert_sorted(sorted, x, r, j, k);
        }
        assert forall|j: int, k: int|
            #![trigger places[j], places[k]]
            0 <= j < k < told.len() && !has_lower_ends(told[j], told[k]) implies places[j]
            < places[k] by {
            if k < r {
                assert(places[j] == before[j] && places[k] == before[k]);
                assert(told[j] == sorted[j] && told[k] == sorted[k]);
            } else if k == r {
                assert(places[j] == before[j]);
                assert(0 <= before[j] < fewer.len());
            } else if j < r {
                assert(places[j] == before[j] && places[k] == before[k - 1]);
                assert(told[j] == sorted[j] && told[k] == sorted[k - 1]);
            } else if j == r {
                assert(told[k] == sorted[k - 1]);
                assert(has_lower_ends(x, sorted[r]));
                if k - 1 > r {
                    assert(!has_lower_ends(sorted[k - 1], sorted[r]));
                }
            } else {
                assert(places[j] == before[j - 1] && places[k] == before[k - 1]);
                assert(told[j] == sorted[j - 1] && told[k] == sorted[k - 1]);
            }
        }
        places
    }
}

proof fn lemma_insert_apart(before: Seq<int>, r: int, last: int, j: int, k: int)
    requires
        rearranges(before, before.len()),
        before.len() == last,
        0 <= r <= before.len(),
        0 <= j < k <= before.len(),
    ensures
        before.insert(r, last)[j] != before.insert(r, last)[k],
{
    let places = before.insert(r, last);
    if k < r {
        assert(places[j] == before[j] && places[k] == before[k]);
    } else if k == r {
        assert(places[j] == before[j] && places[k] == last);
    } else if j < r {
        assert(places[j] == before[j] && places[k] == before[k - 1]);
        assert(j < k - 1);
    } else if j == r {
        assert(places[j] == last && places[k] == before[k - 1]);
    } else {
        assert(places[j] == before[j - 1] && places[k] == before[k - 1]);
    }
}

proof fn lemma_insert_sorted(sorted: Seq<Loss>, x: Loss, r: int, j: int, k: int)
    requires
        forall|j: int, k: int|
            #![trigger sorted[j], sorted[k]]
            0 <= j < k < sorted.len() ==> !has_lower_ends(sorted[k], sorted[j]),
        0 <= r <= sorted.len(),
        forall|i: int| 0 <= i < r ==> !has_lower_ends(x, #[trigger] sorted[i]),
        r < sorted.len() ==> has_lower_ends(x, sorted[r]),
        0 <= j < k <= sorted.len(),
    ensures
        !has_lower_ends(sorted.insert(r, x)[k], sorted.insert(r, x)[j]),
{
    let told = sorted.insert(r, x);
    if k < r {
        assert(told[j] == sorted[j] && told[k] == sorted[k]);
    } else if k == r {
        assert(told[j] == sorted[j] && told[k] == x);
    } else if j < r {
        assert(told[j] == sorted[j] && told[k] == sorted[k - 1]);
        assert(j < k - 1);
    } else if j == r {
        assert(told[j] == x && told[k] == sorted[k - 1]);
        assert(r < sorted.len());
        if k - 1 > r {
            assert(!has_lower_ends(sorted[k - 1], sorted[r]));
        }
    } else {
        assert(told[j] == sorted[j - 1] && told[k] == sorted[k - 1]);
    }
}

/// Dropping messages one after the other counts and tells each of them, in turn and at the time
/// of the state, and changes nothing else.
pub proof fn losses_are_told_one_by_one<M>(s: TaskState<M>, lost: Seq<Loss>)
    requires
        s.messages_dropped + lost.len() <= u64::MAX,
        s.trace is Some ==> s.trace->0.events.len() + lost.len() <= u64::MAX,
    ensures
        ({
            let after = s.dropping_all(lost);
            &&& same_world(s, after)
            &&& same_tasks(s, after)
            &&& after.queue == s.queue
            &&& after.messages_dropped == s.messages_dropped + lost.len()
            &&& (after.trace is Some) == (s.trace is Some)
            &&& s.trace is Some ==> {
                let n = s.trace->0.events.len();
                let events = after.trace->0.events;
                &&& after.trace->0.seed == s.trace->0.seed
                &&& after.trace->0.final_time_ns == (if lost.len() > 0 {
                    s.now.0
                } else {
                    s.trace->0.final_time_ns
                })
                &&& events.len() == n + lost.len()
                &&& events.take(n as int) == s.trace->0.events
                &&& forall|k: int|
                    #![trigger lost[k]]
                    0 <= k < lost.len() ==> events[n + k] == (TraceEvent {
                        time_ns: s.now.0,
                        sequence: (n + k) as u64,
                        event: TaskTraceEvent::Dropped {
                            src: lost[k].0.0,
                            dst: lost[k].1.0,
                            reason: lost[k].2,
                        },
                    })
            }
        }),
    decreases lost.len(),
{
    if lost.len() > 0 {
        let fewer = lost.drop_last();
        losses_are_told_one_by_one(s, fewer);
        let mid = s.dropping_all(fewer);
        let after = s.dropping_all(lost);
        if s.trace is Some {
            let n = s.trace->0.events.len();
            let events = after.trace->0.events;
            assert(events.take(n as int) =~= mid.trace->0.events.take(n as int));
            assert forall|k: int|
                #![trigger lost[k]]
                0 <= k < lost.len() implies events[n + k] == (TraceEvent {
                time_ns: s.now.0,
                sequence: (n + k) as u64,
                event: TaskTraceEvent::Dropped {
                    src: lost[k].0.0,
                    dst: lost[k].1.0,
                    reason: lost[k].2,
                },
            }) by {
                if k < fewer.len() {
                    assert(fewer[k] == lost[k]);
                    assert(events[n + k] == mid.trace->0.events[n + k]);
                }
            }
        }
    } else if s.trace is Some {
        let n = s.trace->0.events.len();
        assert(s.trace->0.events.take(n as int) =~= s.trace->0.events);
    }
}

/// If so configured, a failure changes what it names and then drops what cannot arrive any more:
/// what stays is numbered anew in its order, at its time, and what goes is dropped one by one in
/// the order in which losses are told. Otherwise, and for a repair, there is only the change.
pub proof fn failures_sweep_what_is_on_its_way<M>(s: TaskState<M>, action: FailureAction)
    ensures
        ({
            let mid = s.changed(action);
            let stay = survivors(mid.graph, mid.partitions, s.queue.pending);
            let gone = losses(mid.graph, mid.partitions, s.queue.pending);
            let fails = action is Partition || action is FailLink || action is FailLinkDirected
                || action is FailNode;
            &&& s.processing(TaskEvent::ApplyFailure(action)) == s.applying(action)
            &&& !fails || !s.drop_in_flight_on_failure ==> s.applying(action) == Some(mid)
            &&& fails && s.drop_in_flight_on_failure ==> match s.applying(action) {
                None => s.queue.next_sequence + stay.len() > u64::MAX || s.messages_dropped
                    + gone.len() > u64::MAX,
                Some(after) => {
                    let told = in_telling_order(gone);
                    let requeued = TaskState { queue: after.queue, ..mid };
                    &&& after == requeued.dropping_all(told)
                    &&& after.queue.next_sequence == s.queue.next_sequence + stay.len()
                    &&& after.queue.pending.len() == stay.len()
                    &&& forall|k: int|
                        0 <= k < stay.len() ==> after.queue.pending.contains(
                            Scheduled {
                                time: (#[trigger] stay[k]).0,
                                sequence: (s.queue.next_sequence + k) as u64,
                                event: stay[k].1,
                            },
                        )
                },
            }
        }),
{
    let mid = s.changed(action);
    let stay = survivors(mid.graph, mid.partitions, s.queue.pending);
    let gone = losses(mid.graph, mid.partitions, s.queue.pending);
    if action.fails() && s.drop_in_flight_on_failure {
        if let Some(after) = s.applying(action) {
            let queue = mid.queue.cleared().schedule_all(stay);
            events_are_numbered_in_turn(mid.queue.cleared(), stay);
            losses_are_told_by_their_ends(gone);
            crate::task::state::lemma_dropping_all(
                TaskState { queue, ..mid },
                in_telling_order(gone),
            );
            assert(after.queue == queue);
            assert(TaskState { queue: after.queue, ..mid } =~= TaskState { queue, ..mid });
        }
    }
}

/// What comes of two computations is what comes of the first, unless that one waits; then it is
/// what comes of the second.
pub proof fn the_first_computation_has_precedence<X, Y>(a: Polled<X>, b: Polled<Y>)
    ensures
        match first_of(a, b) {
            Polled::Ready(Either::Left(x)) => a == Polled::Ready(x),
            Polled::Ready(Either::Right(y)) => a is Pending && b == Polled::Ready(y),
            Polled::Overflow => a is Overflow || (a is Pending && b is Overflow),
            Polled::Pending => a is Pending && b is Pending,
        },
{
}

} // verus!
