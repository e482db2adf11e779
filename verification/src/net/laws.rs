//! Laws of sending messages and of running a network.

use vstd::prelude::*;

use crate::net::fabric::{
    busy_until, committed, transmission, unordered, Admission, Dispatch, FabricState, Passage,
};
use crate::net::graph::{link_of, route_of, Graph, Link};
use crate::net::latency::{FixedLatency, LatencyModel};
use crate::net::message::{DropReason, Message, NetEvent};
use crate::net::network::{swept, swept_queue, sweepable, NetState};
use crate::net::node::{MessageId, NodeId};
use crate::net::routing::routes_reach_their_destination;
use crate::net::run::{is_net_run, sending_all, CtxState, RunState, SendRequest};
use crate::net::traced::{recorded, run_trace, NetTraceEvent};
use crate::queue::{
    schedule_adds_one_event, schedule_all_adds_events, schedule_all_keeps_order, QueueState,
    Scheduled,
};
use crate::sim::SimState;
use crate::time::{saturated, Duration, Time};
use crate::trace::{difference, traces_agree_iff_same_events, verdict, TraceEvent, TraceMismatch};

verus! {

/// A message is decided on at the time at which it is sent or later, and counted;
/// a drop is decided on at once.
pub proof fn nothing_arrives_before_it_is_sent<P, L: LatencyModel>(
    fabric: FabricState<L>,
    time: Time,
    src: NodeId,
    dst: NodeId,
    payload: P,
    size_bytes: u64,
)
    requires
        fabric.dispatch(time, src, dst, payload, size_bytes) is Some,
    ensures
        ({
            let d = fabric.dispatch(time, src, dst, payload, size_bytes)->0;
            &&& d.time.0 >= time.0
            &&& d.event is Drop ==> d.time == time
            &&& d.state.next_message_id == fabric.next_message_id + 1
        }),
{
}

/// A message without a size is subject to no bandwidth limit and takes none up.
pub proof fn unsized_messages_take_no_bandwidth<P, L: LatencyModel>(
    fabric: FabricState<L>,
    time: Time,
    src: NodeId,
    dst: NodeId,
    payload: P,
)
    requires
        fabric.dispatch(time, src, dst, payload, 0) is Some,
    ensures
        ({
            let d = fabric.dispatch(time, src, dst, payload, 0)->0;
            &&& d.state.bandwidths == fabric.bandwidths
            &&& d.state.link_busy == fabric.link_busy
            &&& !(d.event matches NetEvent::Drop { reason, .. } && reason == DropReason::BufferOverflow)
        }),
{
}

/// A message that a link refuses takes up none of the links on its path.
pub proof fn refused_messages_take_no_links<P, L: LatencyModel>(
    fabric: FabricState<L>,
    time: Time,
    src: NodeId,
    dst: NodeId,
    payload: P,
    size_bytes: u64,
)
    requires
        fabric.dispatch(time, src, dst, payload, size_bytes) matches Some(d) && d.event is Drop,
    ensures
        fabric.dispatch(time, src, dst, payload, size_bytes)->0.state.link_busy == fabric.link_busy,
{
}

/// Transmissions over a link of limited bandwidth do not overlap: a message that
/// takes the link is transmitted after everything that has taken it before.
pub proof fn transmissions_do_not_overlap(
    p: Passage,
    link: Link,
    next: NodeId,
    size_bytes: u64,
    busy: Map<(NodeId, NodeId), Time>,
)
    requires
        link.bandwidth is Some,
        p.over(Some(link), next, size_bytes, busy) is Through,
    ensures
        ({
            let q = p.over(Some(link), next, size_bytes, busy)->Through_0;
            let (pair, free_at) = q.admissions.last();
            &&& q.admissions.len() == p.admissions.len() + 1
            &&& pair == (p.node, next)
            &&& free_at >= busy_until(busy, pair) + transmission(link.bandwidth->0, size_bytes)
            &&& free_at >= p.time + transmission(link.bandwidth->0, size_bytes)
            &&& q.time == free_at + link.latency.0
        }),
{
}

/// Partitions have no direction, and lifting one undoes setting it.
pub proof fn partitions_are_symmetric<L: LatencyModel>(fabric: FabricState<L>, a: NodeId, b: NodeId)
    ensures
        fabric.partitioned(a, b) == fabric.partitioned(b, a),
        fabric.with_partition(a, b).partitioned(b, a),
        !fabric.without_partition(a, b).partitioned(b, a),
        !fabric.partitioned(a, b) ==> fabric.with_partition(a, b).without_partition(a, b) == fabric,
{
    if !fabric.partitioned(a, b) {
        assert(fabric.with_partition(a, b).without_partition(a, b) =~= fabric);
    }
}

/// A partition concerns only the nodes that it parts from each other.
pub proof fn partitions_concern_only_their_nodes<L: LatencyModel>(
    fabric: FabricState<L>,
    a: NodeId,
    b: NodeId,
    c: NodeId,
    d: NodeId,
)
    requires
        unordered(a, b) != unordered(c, d),
    ensures
        fabric.with_partition(a, b).partitioned(c, d) == fabric.partitioned(c, d),
        fabric.without_partition(a, b).partitioned(c, d) == fabric.partitioned(c, d),
{
}

/// Under the bandwidth limit between two nodes, messages are transmitted one after the
/// other: a message starts no earlier than the one before it is through, and the next
/// one starts no earlier than this one is through.
pub proof fn pair_transmissions_do_not_overlap<L: LatencyModel>(
    fabric: FabricState<L>,
    src: NodeId,
    dst: NodeId,
    size_bytes: u64,
    time: Time,
)
    requires
        size_bytes > 0,
        fabric.bandwidths.contains_key((src, dst)),
        ({
            let (departure, tx) = fabric.paced(src, dst, size_bytes, time);
            departure + tx <= u64::MAX
        }),
    ensures
        ({
            let limit = fabric.bandwidths[(src, dst)];
            let (departure, tx) = fabric.paced(src, dst, size_bytes, time);
            let after = fabric.occupied(src, dst, size_bytes, departure + tx);
            &&& departure >= limit.link_free_at.0
            &&& departure >= time.0
            &&& tx == transmission(limit.bps, size_bytes)
            &&& after.bandwidths[(src, dst)].link_free_at.0 == departure + tx
            &&& after.bandwidths[(src, dst)].bps == limit.bps
        }),
{
}

/// Where nothing is lost and every message takes the latency of its route, a message
/// without a size arrives exactly that latency after it was sent, and no draw is taken.
pub proof fn fixed_latency_is_exact<P>(
    fabric: FabricState<FixedLatency>,
    time: Time,
    src: NodeId,
    dst: NodeId,
    payload: P,
)
    requires
        fabric.config.packet_loss is Never,
        fabric.next_message_id < u64::MAX,
        !fabric.partitioned(src, dst),
        fabric.graph.spans(src, dst),
        route_of(fabric.graph, src, dst) matches Some(route) && time.0 + route.total_latency.0
            <= u64::MAX,
    ensures
        fabric.dispatch(time, src, dst, payload, 0) == Some(
            Dispatch {
                state: FabricState {
                    next_message_id: (fabric.next_message_id + 1) as u64,
                    ..fabric
                },
                time: Time(
                    (time.0 + route_of(fabric.graph, src, dst)->0.total_latency.0) as u64,
                ),
                event: NetEvent::Deliver(
                    Message { id: MessageId(fabric.next_message_id), src, dst, payload },
                ),
            },
        ),
{
}

/// Between partitioned nodes nothing arrives: every message is dropped for that
/// reason, with no draw from the generator.
pub proof fn partitions_drop_everything<P, L: LatencyModel>(
    fabric: FabricState<L>,
    time: Time,
    src: NodeId,
    dst: NodeId,
    payload: P,
    size_bytes: u64,
)
    requires
        fabric.partitioned(src, dst),
        fabric.next_message_id < u64::MAX,
    ensures
        fabric.dispatch(time, src, dst, payload, size_bytes) matches Some(d)
            && d.event matches NetEvent::Drop { reason, .. } && reason == DropReason::Partitioned
            && d.state.rng == fabric.rng,
{
}

/// Whether every admission keeps its link busy at least as long as it was, and no
/// longer than until `limit`.
spec fn busier(
    busy: Map<(NodeId, NodeId), Time>,
    admissions: Seq<((NodeId, NodeId), nat)>,
    limit: nat,
) -> bool {
    forall|i: int|
        0 <= i < admissions.len() ==> {
            let (pair, free_at) = #[trigger] admissions[i];
            busy_until(busy, pair) <= free_at <= limit
        }
}

proof fn lemma_onward_busier(
    p: Passage,
    g: Graph,
    dst: NodeId,
    size_bytes: u64,
    busy: Map<(NodeId, NodeId), Time>,
    hops: nat,
)
    requires
        busier(busy, p.admissions, p.time),
    ensures
        ({
            let end = p.onward(g, dst, size_bytes, busy, hops).passage();
            busier(busy, end.admissions, end.time)
        }),
    decreases hops,
{
    if p.node != dst && hops > 0 {
        if let Some(r) = route_of(g, p.node, dst) {
            let link = link_of(g, p.node, r.next_hop);
            if let Admission::Through(q) = p.over(link, r.next_hop, size_bytes, busy) {
                assert(busier(busy, q.admissions, q.time)) by {
                    assert forall|i: int| 0 <= i < q.admissions.len() implies {
                        let (pair, free_at) = #[trigger] q.admissions[i];
                        busy_until(busy, pair) <= free_at <= q.time
                    } by {
                        if i < p.admissions.len() {
                            assert(q.admissions[i] == p.admissions[i]);
                        }
                    }
                }
                lemma_onward_busier(q, g, dst, size_bytes, busy, (hops - 1) as nat);
            }
        }
    }
}

proof fn lemma_committed_busier(
    busy: Map<(NodeId, NodeId), Time>,
    admissions: Seq<((NodeId, NodeId), nat)>,
    limit: nat,
    pair: (NodeId, NodeId),
)
    requires
        busier(busy, admissions, limit),
        limit <= u64::MAX,
    ensures
        busy_until(committed(busy, admissions), pair) >= busy_until(busy, pair),
    decreases admissions.len(),
{
    if admissions.len() > 0 {
        let fewer = admissions.drop_last();
        assert(busier(busy, fewer, limit)) by {
            assert forall|i: int| 0 <= i < fewer.len() implies {
                let (pair, free_at) = #[trigger] fewer[i];
                busy_until(busy, pair) <= free_at <= limit
            } by {
                assert(fewer[i] == admissions[i]);
            }
        }
        lemma_committed_busier(busy, fewer, limit, pair);
        assert(busy_until(busy, admissions[admissions.len() - 1].0) <= admissions[admissions.len()
            - 1].1);
    }
}

/// Sending a message never makes a link free earlier.
pub proof fn links_only_get_busier<P, L: LatencyModel>(
    fabric: FabricState<L>,
    time: Time,
    src: NodeId,
    dst: NodeId,
    payload: P,
    size_bytes: u64,
    pair: (NodeId, NodeId),
)
    requires
        fabric.dispatch(time, src, dst, payload, size_bytes) is Some,
    ensures
        busy_until(
            fabric.dispatch(time, src, dst, payload, size_bytes)->0.state.link_busy,
            pair,
        ) >= busy_until(fabric.link_busy, pair),
{
    let d = fabric.dispatch(time, src, dst, payload, size_bytes)->0;
    if d.state.link_busy != fabric.link_busy {
        let (lost, tossed) = fabric.tossed();
        let route = route_of(fabric.graph, src, dst)->0;
        let (latency, model, rng) = fabric.model.computed(route.total_latency, tossed.rng);
        let sent = FabricState { model, rng, ..tossed };
        let (departure, pair_tx) = sent.paced(src, dst, size_bytes, time);
        let ready = departure + pair_tx;
        let occupied = sent.occupied(src, dst, size_bytes, ready);
        lemma_onward_busier(
            occupied.departing(src, ready),
            occupied.graph,
            dst,
            size_bytes,
            occupied.link_busy,
            occupied.graph.links.len(),
        );
        let end = occupied.admission(src, dst, size_bytes, ready).passage();
        lemma_committed_busier(fabric.link_busy, end.admissions, end.time, pair);
    }
}

/// Whether every message that was sent is accounted for: it was delivered, it was
/// dropped, or its event waits.
pub open spec fn accounted<P, L>(run: RunState<P, L>) -> bool {
    run.ctx.fabric.next_message_id == run.ctx.delivered + run.ctx.dropped
        + run.sim.queue.pending.len()
}

/// In a new network every message is accounted for and nothing is overdue, and
/// sending messages, for now or later, keeps it so.
pub proof fn sending_is_accounted_for<P, L: LatencyModel>(
    graph: Graph,
    model: L,
    seed: u64,
    net: NetState<P, L>,
    time: Time,
    src: NodeId,
    dst: NodeId,
    payload: P,
    size_bytes: u64,
)
    requires
        net.sending(time, src, dst, payload, size_bytes) is Some,
    ensures
        ({
            let new = RunState::<P, L>::initial(
                NetState {
                    sim: SimState::initial(),
                    fabric: FabricState::initial(graph, model, seed),
                },
            );
            accounted(new) && new.sim.timely()
        }),
        ({
            let after = net.sending(time, src, dst, payload, size_bytes)->0;
            &&& accounted(RunState::initial(net)) ==> accounted(RunState::initial(after))
            &&& net.sim.timely() && net.sim.now.0 <= time.0 ==> after.sim.timely()
        }),
{
    nothing_arrives_before_it_is_sent(net.fabric, time, src, dst, payload, size_bytes);
    let d = net.fabric.dispatch(time, src, dst, payload, size_bytes)->0;
    schedule_adds_one_event(net.sim.queue, d.time, d.event);
    if net.sim.timely() && net.sim.now.0 <= time.0 {
        net.sim.scheduling_ahead_is_timely(d.time, d.event);
    }
}

proof fn lemma_sending_all_accounts<P, L: LatencyModel>(
    net: NetState<P, L>,
    requests: Seq<SendRequest<P>>,
)
    requires
        sending_all(net, requests) is Some,
    ensures
        ({
            let after = sending_all(net, requests)->0;
            &&& after.fabric.next_message_id == net.fabric.next_message_id + requests.len()
            &&& after.sim.queue.pending.len() == net.sim.queue.pending.len() + requests.len()
            &&& after.sim.now == net.sim.now
            &&& net.sim.timely() ==> after.sim.timely()
        }),
    decreases requests.len(),
{
    if requests.len() > 0 {
        lemma_sending_all_accounts(net, requests.drop_last());
        let before = sending_all(net, requests.drop_last())->0;
        let (src, dst, payload, size_bytes) = requests.last();
        nothing_arrives_before_it_is_sent(
            before.fabric,
            before.sim.now,
            src,
            dst,
            payload,
            size_bytes,
        );
        let d = before.fabric.dispatch(before.sim.now, src, dst, payload, size_bytes)->0;
        schedule_adds_one_event(before.sim.queue, d.time, d.event);
        if net.sim.timely() {
            before.sim.scheduling_ahead_is_timely(d.time, d.event);
        }
    }
}

/// A sweep keeps every waiting event, as it is or as a drop that is due at once;
/// it turns nothing into a drop but deliveries whose ends are partitioned from each
/// other or have no route.
pub proof fn sweeps_keep_every_event<P, L: LatencyModel>(
    fabric: FabricState<L>,
    now: Time,
    queue: QueueState<NetEvent<P>>,
)
    requires
        sweepable(fabric, queue),
    ensures
        ({
            let after = swept_queue(fabric, now, queue);
            &&& after.pending.len() == queue.pending.len()
            &&& forall|i: int|
                0 <= i < after.pending.len() ==> exists|j: int|
                    {
                        &&& 0 <= j < queue.pending.len()
                        &&& swept(fabric, now, #[trigger] queue.pending[j]) == Some(
                            ((#[trigger] after.pending[i]).time, after.pending[i].event),
                        )
                    }
        }),
{
    let items = queue.pending.map_values(|s: Scheduled<NetEvent<P>>| swept(fabric, now, s)->0);
    schedule_all_adds_events(queue.cleared(), items);
    let after = swept_queue(fabric, now, queue);
    assert forall|i: int| 0 <= i < after.pending.len() implies exists|j: int|
        {
            &&& 0 <= j < queue.pending.len()
            &&& swept(fabric, now, #[trigger] queue.pending[j]) == Some(
                ((#[trigger] after.pending[i]).time, after.pending[i].event),
            )
        } by {
        let s = after.pending[i];
        assert(!queue.cleared().pending.contains(s));
        let j = choose|j: int| 0 <= j < items.len() && items[j] == (s.time, s.event);
        assert(swept(fabric, Time(0), queue.pending[j]) is Some);
        assert(swept(fabric, now, queue.pending[j]) == Some((s.time, s.event)));
    }
}

/// Unless it is configured otherwise, what is on its way when something fails stays on
/// its way.
pub proof fn messages_survive_failures<P, L: LatencyModel>(
    net: NetState<P, L>,
    fabric: FabricState<L>,
)
    requires
        !fabric.config.drop_in_flight_on_failure,
    ensures
        net.can_fail(fabric),
        net.failing(fabric).sim == net.sim,
{
}

/// After a sweep every delivery on its way has a route and crosses no partition.
pub proof fn sweeps_leave_nothing_stranded<P, L: LatencyModel>(
    fabric: FabricState<L>,
    now: Time,
    queue: QueueState<NetEvent<P>>,
)
    requires
        sweepable(fabric, queue),
    ensures
        forall|i: int|
            0 <= i < swept_queue(fabric, now, queue).pending.len() ==> {
                (#[trigger] swept_queue(fabric, now, queue).pending[i]).event matches
                    NetEvent::Deliver(message) ==> !fabric.partitioned(message.src, message.dst)
                    && route_of(fabric.graph, message.src, message.dst) is Some
            },
{
    sweeps_keep_every_event(fabric, now, queue);
    let after = swept_queue(fabric, now, queue).pending;
    assert forall|i: int| 0 <= i < after.len() implies {
        (#[trigger] after[i]).event matches NetEvent::Deliver(message) ==> !fabric.partitioned(
            message.src,
            message.dst,
        ) && route_of(fabric.graph, message.src, message.dst) is Some
    } by {
        let j = choose|j: int|
            {
                &&& 0 <= j < queue.pending.len()
                &&& swept(fabric, now, #[trigger] queue.pending[j]) == Some(
                    (after[i].time, after[i].event),
                )
            };
        assert(swept(fabric, now, queue.pending[j]) == Some((after[i].time, after[i].event)));
    }
}

/// After a sweep nothing is overdue, if nothing was before.
pub proof fn sweeps_are_timely<P, L: LatencyModel>(
    fabric: FabricState<L>,
    sim: SimState<NetEvent<P>>,
)
    requires
        sweepable(fabric, sim.queue),
        sim.timely(),
    ensures
        (SimState { queue: swept_queue(fabric, sim.now, sim.queue), ..sim }).timely(),
{
    let queue = sim.queue;
    let items = queue.pending.map_values(|s: Scheduled<NetEvent<P>>| swept(fabric, sim.now, s)->0);
    schedule_all_keeps_order(queue.cleared(), items);
    sweeps_keep_every_event(fabric, sim.now, queue);
    let after = swept_queue(fabric, sim.now, queue);
    assert forall|i: int| 0 <= i < after.pending.len() implies sim.now.0 <= (
    #[trigger] after.pending[i]).time.0 by {
        let j = choose|j: int|
            {
                &&& 0 <= j < queue.pending.len()
                &&& swept(fabric, sim.now, #[trigger] queue.pending[j]) == Some(
                    (after.pending[i].time, after.pending[i].event),
                )
            };
        assert(sim.now.0 <= queue.pending[j].time.0);
    }
}

/// A message without a size can be sent between any two nodes of the topology, as long
/// as there are numbers for it and its event, and the latency of its route leads to no
/// time beyond the last.
pub proof fn unsized_messages_can_be_sent<P, L: LatencyModel>(
    net: NetState<P, L>,
    time: Time,
    src: NodeId,
    dst: NodeId,
    payload: P,
)
    requires
        net.fabric.graph.has(src),
        net.fabric.graph.has(dst),
        net.fabric.next_message_id < u64::MAX,
        net.sim.queue.next_sequence < u64::MAX,
        route_of(net.fabric.graph, src, dst) matches Some(route) ==> {
            let rng = net.fabric.tossed().1.rng;
            &&& net.fabric.model.admits(route.total_latency, rng)
            &&& time.0 + net.fabric.model.computed(route.total_latency, rng).0.0 <= u64::MAX
        },
    ensures
        net.sending(time, src, dst, payload, 0) is Some,
{
}

/// A message that has a route always comes to something, unless a time along its way is
/// beyond the last: its transmission between its ends or over its links, or its arrival.
pub proof fn only_time_runs_out<P, L: LatencyModel>(
    fabric: FabricState<L>,
    time: Time,
    message: Message<P>,
    size_bytes: u64,
    latency: Duration,
)
    requires
        fabric.graph.wf(),
        fabric.graph.has(message.src),
        fabric.graph.has(message.dst),
        route_of(fabric.graph, message.src, message.dst) is Some,
        fabric.carried(time, message, size_bytes, latency) is None,
    ensures
        ({
            let (departure, pair_tx) = fabric.paced(message.src, message.dst, size_bytes, time);
            let ready = departure + pair_tx;
            let occupied = fabric.occupied(message.src, message.dst, size_bytes, ready);
            let p = occupied.admission(message.src, message.dst, size_bytes, ready).passage();
            if size_bytes == 0 {
                ready + latency.0 > u64::MAX
            } else {
                ||| ready > u64::MAX
                ||| p.time > u64::MAX
                ||| ready + latency.0 + saturated(saturated(p.time - ready) - p.latency) > u64::MAX
            }
        }),
{
    let (departure, pair_tx) = fabric.paced(message.src, message.dst, size_bytes, time);
    let ready = departure + pair_tx;
    let occupied = fabric.occupied(message.src, message.dst, size_bytes, ready);
    routes_reach_their_destination(occupied, message.src, message.dst, size_bytes, ready);
}

/// Whether every delivery on its way is between nodes of the topology, or of a node to
/// itself.
pub open spec fn addressed<P, L>(net: NetState<P, L>) -> bool {
    forall|i: int|
        0 <= i < net.sim.queue.pending.len() ==> {
            (#[trigger] net.sim.queue.pending[i]).event matches NetEvent::Deliver(message)
                ==> message.src == message.dst || (net.fabric.graph.has(message.src)
                && net.fabric.graph.has(message.dst))
        }
}

/// Sending puts only deliveries between nodes of the topology on their way.
pub proof fn sending_stays_addressed<P, L: LatencyModel>(
    net: NetState<P, L>,
    time: Time,
    src: NodeId,
    dst: NodeId,
    payload: P,
    size_bytes: u64,
)
    requires
        addressed(net),
        net.sending(time, src, dst, payload, size_bytes) is Some,
    ensures
        addressed(net.sending(time, src, dst, payload, size_bytes)->0),
{
    let d = net.fabric.dispatch(time, src, dst, payload, size_bytes)->0;
    let after = net.sending(time, src, dst, payload, size_bytes)->0;
    schedule_adds_one_event(net.sim.queue, d.time, d.event);
    assert forall|i: int| 0 <= i < after.sim.queue.pending.len() implies {
        (#[trigger] after.sim.queue.pending[i]).event matches NetEvent::Deliver(message)
            ==> message.src == message.dst || (after.fabric.graph.has(message.src)
            && after.fabric.graph.has(message.dst))
    } by {
        let s = after.sim.queue.pending[i];
        if net.sim.queue.pending.contains(s) {
            let j = choose|j: int|
                0 <= j < net.sim.queue.pending.len() && net.sim.queue.pending[j] == s;
            assert(net.sim.queue.pending[j] == s);
        }
    }
}

/// While the topology keeps its nodes, every failure can be represented, as long as
/// there are numbers to schedule the waiting events anew, and no failure puts anything
/// but deliveries between nodes of the topology on its way.
pub proof fn addressed_networks_can_fail<P, L: LatencyModel>(
    net: NetState<P, L>,
    fabric: FabricState<L>,
)
    requires
        addressed(net),
        net.sim.queue.next_sequence + net.sim.queue.pending.len() <= u64::MAX,
        fabric.graph.links.len() == net.fabric.graph.links.len(),
    ensures
        net.can_fail(fabric),
        addressed(net.failing(fabric)),
{
    let queue = net.sim.queue;
    let after = net.failing(fabric);
    assert(sweepable(fabric, queue)) by {
        assert forall|i: int| 0 <= i < queue.pending.len() implies swept(
            fabric,
            Time(0),
            #[trigger] queue.pending[i],
        ) is Some by {}
    }
    if fabric.config.drop_in_flight_on_failure {
        sweeps_keep_every_event(fabric, net.sim.now, queue);
        assert forall|i: int| 0 <= i < after.sim.queue.pending.len() implies {
            (#[trigger] after.sim.queue.pending[i]).event matches NetEvent::Deliver(message)
                ==> message.src == message.dst || (fabric.graph.has(message.src)
                && fabric.graph.has(message.dst))
        } by {
            let s = after.sim.queue.pending[i];
            let j = choose|j: int|
                {
                    &&& 0 <= j < queue.pending.len()
                    &&& swept(fabric, net.sim.now, #[trigger] queue.pending[j]) == Some(
                        (s.time, s.event),
                    )
                };
            assert(swept(fabric, net.sim.now, queue.pending[j]) == Some((s.time, s.event)));
        }
    }
}

/// Whether a handler leaves the counts alone, as everything that a context offers
/// does.
pub open spec fn handler_keeps_counts<P, L>(
    handles: spec_fn(CtxState<P, L>, NetEvent<P>, CtxState<P, L>) -> bool,
) -> bool {
    forall|c: CtxState<P, L>, e: NetEvent<P>, d: CtxState<P, L>| #[trigger]
        handles(c, e, d) ==> {
            &&& d.fabric.next_message_id == c.fabric.next_message_id
            &&& d.delivered == c.delivered
            &&& d.dropped == c.dropped
        }
}

proof fn lemma_step_accounts<P, L: LatencyModel>(
    handles: spec_fn(CtxState<P, L>, NetEvent<P>, CtxState<P, L>) -> bool,
    run: RunState<P, L>,
    next: RunState<P, L>,
)
    requires
        handler_keeps_counts(handles),
        run.leads_to(handles, next),
        accounted(run),
        run.ctx.pending_sends.len() == 0,
    ensures
        next.ctx.pending_sends.len() == 0,
        next.ctx.delivered + next.ctx.dropped == run.ctx.delivered + run.ctx.dropped + 1,
        accounted(next),
{
    let ctx = choose|ctx: CtxState<P, L>|
        #![trigger RunState::absorbed(run.sim.advanced(), ctx)]
        handles(run.entered()->0, run.sim.queue.pending[0].event, ctx) && RunState::absorbed(
            run.sim.advanced(),
            ctx,
        ) == Some(next);
    let sim = run.sim.advanced();
    let sweeps = ctx.needs_failure_sweep && ctx.fabric.config.drop_in_flight_on_failure;
    if sweeps {
        sweeps_keep_every_event(ctx.fabric, sim.now, sim.queue);
    }
    let net = NetState {
        sim: if sweeps {
            SimState { queue: swept_queue(ctx.fabric, sim.now, sim.queue), ..sim }
        } else {
            sim
        },
        fabric: ctx.fabric,
    };
    lemma_sending_all_accounts(net, ctx.pending_sends);
}

/// Every message that was sent is accounted for throughout a run: it was
/// delivered, it was dropped, or its event waits. When no event waits any more,
/// as many messages were delivered or dropped as were sent.
pub proof fn messages_are_conserved<P, L: LatencyModel>(
    handles: spec_fn(CtxState<P, L>, NetEvent<P>, CtxState<P, L>) -> bool,
    states: Seq<RunState<P, L>>,
    i: int,
)
    requires
        handler_keeps_counts(handles),
        is_net_run(handles, states),
        accounted(states[0]),
        states[0].ctx.pending_sends.len() == 0,
        0 <= i < states.len(),
    ensures
        accounted(states[i]),
        states[i].ctx.pending_sends.len() == 0,
        states[i].ctx.delivered + states[i].ctx.dropped == states[0].ctx.delivered
            + states[0].ctx.dropped + i,
        states[i].sim.queue.pending.len() == 0 ==> states[i].stats().messages_sent
            == states[i].stats().messages_delivered + states[i].stats().messages_dropped,
    decreases i,
{
    if i > 0 {
        messages_are_conserved(handles, states, i - 1);
        assert(states[i - 1].leads_to(handles, states[i - 1 + 1]));
        lemma_step_accounts(handles, states[i - 1], states[i]);
    }
}

/// Whether a handler, given the same context and the same event, always leaves the
/// same context.
pub open spec fn reacts_alike<P, L>(
    handles: spec_fn(CtxState<P, L>, NetEvent<P>, CtxState<P, L>) -> bool,
) -> bool {
    forall|c: CtxState<P, L>, e: NetEvent<P>, d: CtxState<P, L>, f: CtxState<P, L>|
        #![trigger handles(c, e, d), handles(c, e, f)]
        handles(c, e, d) && handles(c, e, f) ==> d == f
}

proof fn lemma_net_runs_agree<P, L: LatencyModel>(
    handles: spec_fn(CtxState<P, L>, NetEvent<P>, CtxState<P, L>) -> bool,
    a: Seq<RunState<P, L>>,
    b: Seq<RunState<P, L>>,
    n: nat,
)
    requires
        reacts_alike(handles),
        is_net_run(handles, a),
        is_net_run(handles, b),
        a[0] == b[0],
        n <= a.len(),
        n <= b.len(),
    ensures
        forall|i: int| 0 <= i < n ==> #[trigger] a[i] == b[i],
    decreases n,
{
    if n > 1 {
        lemma_net_runs_agree(handles, a, b, (n - 1) as nat);
        let i = n - 2;
        assert(a[i] == b[i]);
        assert(a[i].leads_to(handles, a[i + 1]));
        assert(b[i].leads_to(handles, b[i + 1]));
        let x = choose|ctx: CtxState<P, L>|
            #![trigger RunState::absorbed(a[i].sim.advanced(), ctx)]
            handles(a[i].entered()->0, a[i].sim.queue.pending[0].event, ctx) && RunState::absorbed(
                a[i].sim.advanced(),
                ctx,
            ) == Some(a[i + 1]);
        let y = choose|ctx: CtxState<P, L>|
            #![trigger RunState::absorbed(b[i].sim.advanced(), ctx)]
            handles(b[i].entered()->0, b[i].sim.queue.pending[0].event, ctx) && RunState::absorbed(
                b[i].sim.advanced(),
                ctx,
            ) == Some(b[i + 1]);
        assert(x == y);
    }
}

/// A network simulation is deterministic: two runs to the end from the same start
/// (the same seed, topology and messages), with a handler that always does the
/// same, are the same run, with the same trace and the same figures.
pub proof fn network_runs_are_deterministic<P, L: LatencyModel>(
    handles: spec_fn(CtxState<P, L>, NetEvent<P>, CtxState<P, L>) -> bool,
    a: Seq<RunState<P, L>>,
    b: Seq<RunState<P, L>>,
)
    requires
        reacts_alike(handles),
        is_net_run(handles, a),
        is_net_run(handles, b),
        a[0] == b[0],
        a.last().sim.queue.pending.len() == 0,
        b.last().sim.queue.pending.len() == 0,
    ensures
        a == b,
        run_trace(a) == run_trace(b),
        a.last().stats() == b.last().stats(),
{
    let n = if a.len() <= b.len() {
        a.len()
    } else {
        b.len()
    };
    lemma_net_runs_agree(handles, a, b, n);
    if a.len() < b.len() {
        assert(b[a.len() - 1].leads_to(handles, b[a.len() - 1 + 1]));
    }
    if b.len() < a.len() {
        assert(a[b.len() - 1].leads_to(handles, a[b.len() - 1 + 1]));
    }
    assert(a =~= b);
}

/// The trace of a run validates as a replay of the same run: two runs to the end from the
/// same start, with a handler that always does the same, give traces with the same seed,
/// events and final time, and comparing the two finds no difference.
pub proof fn replays_of_runs_agree<P, L: LatencyModel>(
    handles: spec_fn(CtxState<P, L>, NetEvent<P>, CtxState<P, L>) -> bool,
    seed: u64,
    a: Seq<RunState<P, L>>,
    b: Seq<RunState<P, L>>,
)
    requires
        reacts_alike(handles),
        is_net_run(handles, a),
        is_net_run(handles, b),
        a[0] == b[0],
        a.last().sim.queue.pending.len() == 0,
        b.last().sim.queue.pending.len() == 0,
    ensures
        a.last().stats() == b.last().stats(),
        recorded(seed, a) == recorded(seed, b),
        verdict(difference(recorded(seed, a), recorded(seed, b))) == Ok::<(), TraceMismatch>(()),
{
    network_runs_are_deterministic(handles, a, b);
    traces_agree_iff_same_events(recorded(seed, a), recorded(seed, b));
}

/// A point of a run whose handler remembers something.
#[verifier::ext_equal]
pub struct Remembered<P, L, D> {
    /// What the handler remembers.
    pub memory: D,
    /// The run.
    pub run: RunState<P, L>,
}

/// The run that such points go through.
pub open spec fn runs<P, L, D>(points: Seq<Remembered<P, L, D>>) -> Seq<RunState<P, L>> {
    points.map_values(|point: Remembered<P, L, D>| point.run)
}

/// What a handler may do that comes from one memory to another.
/// `handles(d, c, e, f, g)` says that the handler with memory `d`, given context `c` and
/// event `e`, may come to memory `f` and leave context `g`.
pub open spec fn with_memory<P, L, D>(
    handles: spec_fn(D, CtxState<P, L>, NetEvent<P>, D, CtxState<P, L>) -> bool,
    before: D,
    after: D,
) -> spec_fn(CtxState<P, L>, NetEvent<P>, CtxState<P, L>) -> bool {
    |c: CtxState<P, L>, e: NetEvent<P>, g: CtxState<P, L>| handles(before, c, e, after, g)
}

/// Whether `points` follows a run whose handler remembers something, from event to event.
pub open spec fn is_remembering_run<P, L: LatencyModel, D>(
    handles: spec_fn(D, CtxState<P, L>, NetEvent<P>, D, CtxState<P, L>) -> bool,
    points: Seq<Remembered<P, L, D>>,
) -> bool {
    &&& points.len() > 0
    &&& forall|i: int|
        0 <= i < points.len() - 1 ==> (#[trigger] points[i]).run.leads_to(
            with_memory(handles, points[i].memory, points[i + 1].memory),
            points[i + 1].run,
        )
}

/// Whether a handler, with the same memory and given the same context and event, always
/// comes to the same memory and leaves the same context.
pub open spec fn remembers_alike<P, L, D>(
    handles: spec_fn(D, CtxState<P, L>, NetEvent<P>, D, CtxState<P, L>) -> bool,
) -> bool {
    forall|
        d: D,
        c: CtxState<P, L>,
        e: NetEvent<P>,
        f: D,
        x: CtxState<P, L>,
        g: D,
        y: CtxState<P, L>,
    |
        #![trigger handles(d, c, e, f, x), handles(d, c, e, g, y)]
        handles(d, c, e, f, x) && handles(d, c, e, g, y) ==> f == g && x == y
}

proof fn lemma_remembering_runs_agree<P, L: LatencyModel, D>(
    handles: spec_fn(D, CtxState<P, L>, NetEvent<P>, D, CtxState<P, L>) -> bool,
    a: Seq<Remembered<P, L, D>>,
    b: Seq<Remembered<P, L, D>>,
    n: nat,
)
    requires
        remembers_alike(handles),
        is_remembering_run(handles, a),
        is_remembering_run(handles, b),
        a[0] == b[0],
        n <= a.len(),
        n <= b.len(),
    ensures
        forall|i: int| 0 <= i < n ==> #[trigger] a[i] == b[i],
    decreases n,
{
    if n > 1 {
        lemma_remembering_runs_agree(handles, a, b, (n - 1) as nat);
        let i = n - 2;
        assert(a[i] == b[i]);
        let run = a[i].run;
        let event = run.sim.queue.pending[0].event;
        let x = choose|c: CtxState<P, L>|
            #![trigger RunState::absorbed(run.sim.advanced(), c)]
            with_memory(handles, a[i].memory, a[i + 1].memory)(run.entered()->0, event, c)
                && RunState::absorbed(run.sim.advanced(), c) == Some(a[i + 1].run);
        let y = choose|c: CtxState<P, L>|
            #![trigger RunState::absorbed(run.sim.advanced(), c)]
            with_memory(handles, b[i].memory, b[i + 1].memory)(run.entered()->0, event, c)
                && RunState::absorbed(run.sim.advanced(), c) == Some(b[i + 1].run);
        assert(handles(a[i].memory, run.entered()->0, event, a[i + 1].memory, x));
        assert(handles(a[i].memory, run.entered()->0, event, b[i + 1].memory, y));
    }
}

/// A network simulation is deterministic for a handler with a memory, too: two runs to
/// the end from the same start and the same memory, with a handler that always does the
/// same, are the same run, and comparing their traces finds no difference.
pub proof fn remembering_runs_are_deterministic<P, L: LatencyModel, D>(
    handles: spec_fn(D, CtxState<P, L>, NetEvent<P>, D, CtxState<P, L>) -> bool,
    seed: u64,
    a: Seq<Remembered<P, L, D>>,
    b: Seq<Remembered<P, L, D>>,
)
    requires
        remembers_alike(handles),
        is_remembering_run(handles, a),
        is_remembering_run(handles, b),
        a[0] == b[0],
        a.last().run.sim.queue.pending.len() == 0,
        b.last().run.sim.queue.pending.len() == 0,
    ensures
        a == b,
        a.last().run.stats() == b.last().run.stats(),
        verdict(difference(recorded(seed, runs(a)), recorded(seed, runs(b)))) == Ok::<
            (),
            TraceMismatch,
        >(()),
{
    let n = if a.len() <= b.len() {
        a.len()
    } else {
        b.len()
    };
    lemma_remembering_runs_agree(handles, a, b, n);
    if a.len() < b.len() {
        assert(b[a.len() - 1].run.sim.queue.pending.len() > 0);
    }
    if b.len() < a.len() {
        assert(a[b.len() - 1].run.sim.queue.pending.len() > 0);
    }
    assert(a =~= b);
    traces_agree_iff_same_events(recorded(seed, runs(a)), recorded(seed, runs(b)));
}

/// The clock of a network never goes back during a run, if nothing is overdue at
/// its start.
pub proof fn network_clock_is_monotone<P, L: LatencyModel>(
    handles: spec_fn(CtxState<P, L>, NetEvent<P>, CtxState<P, L>) -> bool,
    states: Seq<RunState<P, L>>,
    i: int,
    j: int,
)
    requires
        is_net_run(handles, states),
        states[0].sim.timely(),
        0 <= i <= j < states.len(),
    ensures
        states[j].sim.timely(),
        states[i].sim.now.0 <= states[j].sim.now.0,
    decreases j,
{
    if j > 0 {
        network_clock_is_monotone(
            handles,
            states,
            if i < j {
                i
            } else {
                j - 1
            },
            j - 1,
        );
        let run = states[j - 1];
        assert(run.leads_to(handles, states[j - 1 + 1]));
        let ctx = choose|ctx: CtxState<P, L>|
            #![trigger RunState::absorbed(run.sim.advanced(), ctx)]
            handles(run.entered()->0, run.sim.queue.pending[0].event, ctx) && RunState::absorbed(
                run.sim.advanced(),
                ctx,
            ) == Some(states[j]);
        run.sim.clock_never_goes_back();
        let sim = run.sim.advanced();
        let sweeps = ctx.needs_failure_sweep && ctx.fabric.config.drop_in_flight_on_failure;
        if sweeps {
            sweeps_are_timely(ctx.fabric, sim);
        }
        let net = NetState {
            sim: if sweeps {
                SimState { queue: swept_queue(ctx.fabric, sim.now, sim.queue), ..sim }
            } else {
                sim
            },
            fabric: ctx.fabric,
        };
        lemma_sending_all_accounts(net, ctx.pending_sends);
    }
}

/// The number of deliveries that a trace tells of.
pub open spec fn deliveries_told(trace: Seq<TraceEvent<NetTraceEvent>>) -> nat
    decreases trace.len(),
{
    if trace.len() == 0 {
        0
    } else {
        deliveries_told(trace.drop_last()) + if trace.last().event is Delivered {
            1nat
        } else {
            0
        }
    }
}

proof fn lemma_step_counts<P, L: LatencyModel>(
    handles: spec_fn(CtxState<P, L>, NetEvent<P>, CtxState<P, L>) -> bool,
    run: RunState<P, L>,
    next: RunState<P, L>,
)
    requires
        handler_keeps_counts(handles),
        run.leads_to(handles, next),
    ensures
        run.sim.queue.pending[0].event is Deliver ==> next.ctx.delivered == run.ctx.delivered + 1
            && next.ctx.dropped == run.ctx.dropped,
        run.sim.queue.pending[0].event is Drop ==> next.ctx.delivered == run.ctx.delivered
            && next.ctx.dropped == run.ctx.dropped + 1,
{
    let ctx = choose|ctx: CtxState<P, L>|
        #![trigger RunState::absorbed(run.sim.advanced(), ctx)]
        handles(run.entered()->0, run.sim.queue.pending[0].event, ctx) && RunState::absorbed(
            run.sim.advanced(),
            ctx,
        ) == Some(next);
    assert(handles(run.entered()->0, run.sim.queue.pending[0].event, ctx));
}

/// The trace of a run tells of every delivery and of every drop that the figures
/// count, and of nothing else.
pub proof fn traces_tell_everything<P, L: LatencyModel>(
    handles: spec_fn(CtxState<P, L>, NetEvent<P>, CtxState<P, L>) -> bool,
    states: Seq<RunState<P, L>>,
)
    requires
        handler_keeps_counts(handles),
        is_net_run(handles, states),
    ensures
        states[0].ctx.delivered + deliveries_told(run_trace(states))
            == states.last().ctx.delivered,
        states[0].ctx.delivered + states[0].ctx.dropped + run_trace(states).len()
            == states.last().ctx.delivered + states.last().ctx.dropped,
    decreases states.len(),
{
    if states.len() > 1 {
        let shorter = states.drop_last();
        assert(is_net_run(handles, shorter)) by {
            assert forall|i: int| 0 <= i < shorter.len() - 1 implies (
            #[trigger] shorter[i]).leads_to(handles, shorter[i + 1]) by {
                assert(states[i].leads_to(handles, states[i + 1]));
            }
        }
        traces_tell_everything(handles, shorter);
        assert(run_trace(shorter) =~= run_trace(states).drop_last());
        let k = states.len() - 2;
        assert(states[k].leads_to(handles, states[k + 1]));
        lemma_step_counts(handles, states[k], states[k + 1]);
    }
}

/// The times of a trace never go back, if nothing is overdue at the start of the
/// run.
pub proof fn trace_times_never_go_back<P, L: LatencyModel>(
    handles: spec_fn(CtxState<P, L>, NetEvent<P>, CtxState<P, L>) -> bool,
    states: Seq<RunState<P, L>>,
    i: int,
    j: int,
)
    requires
        is_net_run(handles, states),
        states[0].sim.timely(),
        0 <= i <= j < run_trace(states).len(),
    ensures
        run_trace(states)[i].time_ns <= run_trace(states)[j].time_ns,
{
    if i < j {
        network_clock_is_monotone(handles, states, i + 1, j);
        assert(states[i].leads_to(handles, states[i + 1]));
        assert(states[j].leads_to(handles, states[j + 1]));
        lemma_leads_to_clock(handles, states[i], states[i + 1]);
        assert(states[j].sim.now.0 <= states[j].sim.queue.pending[0].time.0);
    }
}

/// Handling an event leaves the clock at the event's time.
proof fn lemma_leads_to_clock<P, L: LatencyModel>(
    handles: spec_fn(CtxState<P, L>, NetEvent<P>, CtxState<P, L>) -> bool,
    run: RunState<P, L>,
    next: RunState<P, L>,
)
    requires
        run.leads_to(handles, next),
    ensures
        next.sim.now == run.sim.queue.pending[0].time,
{
    let ctx = choose|ctx: CtxState<P, L>|
        #![trigger RunState::absorbed(run.sim.advanced(), ctx)]
        handles(run.entered()->0, run.sim.queue.pending[0].event, ctx) && RunState::absorbed(
            run.sim.advanced(),
            ctx,
        ) == Some(next);
    let sim = run.sim.advanced();
    let sweeps = ctx.needs_failure_sweep && ctx.fabric.config.drop_in_flight_on_failure;
    let net = NetState {
        sim: if sweeps {
            SimState { queue: swept_queue(ctx.fabric, sim.now, sim.queue), ..sim }
        } else {
            sim
        },
        fabric: ctx.fabric,
    };
    lemma_sending_all_accounts(net, ctx.pending_sends);
}

} // verus!
