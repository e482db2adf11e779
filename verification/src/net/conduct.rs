//! How a network is set up, how it changes, and how its events are handled.

use vstd::prelude::*;
use vstd::std_specs::convert::FromSpec;

use crate::net::conservation::message_of;
use crate::net::delivery::{dropped_for, parted};
use crate::net::fabric::FabricState;
use crate::net::graph::{route_of, total, Graph, Link};
use crate::net::latency::LatencyModel;
use crate::net::message::{DropReason, NetEvent, NetworkStats};
use crate::net::network::{sweepable, swept, NetState, Network};
use crate::net::node::{MessageId, NodeId};
use crate::net::run::{
    is_net_run, sending_all, CtxState, RunContext, RunState, SendRequest,
};
use crate::net::traced::{recorded, run_trace, told, NetTraceEvent};
use crate::queue::{schedule_adds_one_event, QueueState, Scheduled};
use crate::rng::chacha8_key;
use crate::sim::SimState;
use crate::time::Time;

verus! {

/// A new network has sent nothing, loses nothing, parts nobody, limits nothing, and draws from
/// the start of the stream of its seed.
pub proof fn new_networks_are_untouched<L>(graph: Graph, model: L, seed: u64)
    ensures
        ({
            let f = FabricState::initial(graph, model, seed);
            &&& f.graph == graph
            &&& f.model == model
            &&& f.rng.key == chacha8_key(seed)
            &&& f.rng.word_pos == 0
            &&& f.next_message_id == 0
            &&& f.config.packet_loss is Never
            &&& !f.config.drop_in_flight_on_failure
            &&& forall|a: NodeId, b: NodeId| !#[trigger] f.partitions.contains((a, b))
            &&& forall|a: NodeId, b: NodeId| !#[trigger] f.bandwidths.contains_key((a, b))
            &&& forall|a: NodeId, b: NodeId| !#[trigger] f.link_busy.contains_key((a, b))
        }),
{
}

/// Setting a bandwidth limit sets it for one direction and no other; zero lifts it. A pair that
/// already had a limit stays busy as long as it was, and a pair that had none is free.
pub proof fn limits_are_set_for_one_direction<L>(
    f: FabricState<L>,
    src: NodeId,
    dst: NodeId,
    bps: u64,
    a: NodeId,
    b: NodeId,
)
    ensures
        ({
            let g = f.with_bandwidth(src, dst, bps);
            &&& bps > 0 ==> g.bandwidths.contains_key((src, dst)) && g.bandwidths[(src, dst)].bps
                == bps && g.bandwidth(src, dst) == Some(bps)
            &&& bps == 0 ==> !g.bandwidths.contains_key((src, dst)) && g.bandwidth(src, dst)
                is None
            &&& bps > 0 ==> g.bandwidths[(src, dst)].link_free_at.0 == (
            if f.bandwidths.contains_key((src, dst)) {
                f.bandwidths[(src, dst)].link_free_at.0
            } else {
                0
            })
            &&& !(a == src && b == dst) ==> {
                &&& g.bandwidths.contains_key((a, b)) == f.bandwidths.contains_key((a, b))
                &&& g.bandwidths[(a, b)] == f.bandwidths[(a, b)]
                &&& g.bandwidth(a, b) == f.bandwidth(a, b)
            }
            &&& (FabricState { bandwidths: f.bandwidths, ..g }) == f
        }),
{
}

/// Parting two nodes parts them in both directions and nobody else, and rejoining them undoes
/// that. Nothing else changes.
pub proof fn parting_concerns_two_nodes<L: LatencyModel>(
    f: FabricState<L>,
    a: NodeId,
    b: NodeId,
    c: NodeId,
    d: NodeId,
)
    ensures
        f.partitioned(c, d) == parted(f.partitions, c, d),
        parted(f.partitions, c, d) == parted(f.partitions, d, c),
        parted(f.with_partition(a, b).partitions, a, b),
        parted(f.with_partition(a, b).partitions, b, a),
        !parted(f.without_partition(a, b).partitions, a, b),
        !parted(f.without_partition(a, b).partitions, b, a),
        !(c == a && d == b) && !(c == b && d == a) ==> {
            &&& parted(f.with_partition(a, b).partitions, c, d) == parted(f.partitions, c, d)
            &&& parted(f.without_partition(a, b).partitions, c, d) == parted(f.partitions, c, d)
        },
        (FabricState { partitions: f.partitions, ..f.with_partition(a, b) }) == f,
        (FabricState { partitions: f.partitions, ..f.without_partition(a, b) }) == f,
{
}

/// A failed edge or node is failed and no other is, and restoring it restores it and no other.
/// The links stay.
pub proof fn failures_concern_what_failed(g: Graph, a: NodeId, b: NodeId, c: NodeId, d: NodeId)
    ensures
        g.with_failed_link(a, b).failed_links.contains((a, b)),
        !g.with_healed_link(a, b).failed_links.contains((a, b)),
        !(c == a && d == b) ==> {
            &&& g.with_failed_link(a, b).failed_links.contains((c, d))
                == g.failed_links.contains((c, d))
            &&& g.with_healed_link(a, b).failed_links.contains((c, d))
                == g.failed_links.contains((c, d))
        },
        g.with_failed_node(a).failed_nodes.contains(a),
        !g.with_healed_node(a).failed_nodes.contains(a),
        c != a ==> {
            &&& g.with_failed_node(a).failed_nodes.contains(c) == g.failed_nodes.contains(c)
            &&& g.with_healed_node(a).failed_nodes.contains(c) == g.failed_nodes.contains(c)
        },
        (Graph { failed_links: g.failed_links, ..g.with_failed_link(a, b) }) == g,
        (Graph { failed_links: g.failed_links, ..g.with_healed_link(a, b) }) == g,
        (Graph { failed_nodes: g.failed_nodes, ..g.with_failed_node(a) }) == g,
        (Graph { failed_nodes: g.failed_nodes, ..g.with_healed_node(a) }) == g,
{
}

/// A link can be used exactly if neither its edge nor its far end has failed.
pub proof fn links_work_unless_they_failed(g: Graph, from: NodeId, link: Link)
    ensures
        g.live(from, link) <==> !g.failed_links.contains((from, link.target))
            && !g.failed_nodes.contains(link.target),
{
}

/// The latency of a path is the sum of those of its links: of its parts, and of a single link
/// that of the link.
pub proof fn latencies_add_up(some: Seq<Link>, more: Seq<Link>, link: Link)
    ensures
        total(some + more) == total(some) + total(more),
        total(seq![link]) == link.latency.0,
        total(Seq::<Link>::empty()) == 0,
    decreases more.len(),
{
    reveal_with_fuel(total, 2);
    assert(seq![link].drop_last() =~= Seq::<Link>::empty());
    if more.len() == 0 {
        assert(some + more =~= some);
    } else {
        assert((some + more).drop_last() =~= some + more.drop_last());
        latencies_add_up(some, more.drop_last(), link);
    }
}

/// A node reaches itself at once, over no link, unless it has failed; and a failed node neither
/// reaches another nor is reached.
pub proof fn nodes_reach_themselves(g: Graph, node: NodeId, other: NodeId)
    ensures
        match route_of(g, node, node) {
            Some(r) => !g.failed_nodes.contains(node) && r.next_hop == node && r.total_latency.0
                == 0 && r.hop_count == 0,
            None => g.failed_nodes.contains(node),
        },
        g.failed_nodes.contains(node) ==> route_of(g, node, other) is None && route_of(
            g,
            other,
            node,
        ) is None,
{
}

/// Sending a message puts what becomes of it into the queue, at its time, under the next
/// number of the queue, next to all that waits there. The clock and the count of events stay.
pub proof fn sent_messages_wait_for_their_time<P, L: LatencyModel>(
    net: NetState<P, L>,
    time: Time,
    src: NodeId,
    dst: NodeId,
    payload: P,
    size_bytes: u64,
)
    ensures
        match net.sending(time, src, dst, payload, size_bytes) {
            Some(after) => {
                let d = net.fabric.dispatch(time, src, dst, payload, size_bytes)->0;
                &&& net.fabric.dispatch(time, src, dst, payload, size_bytes) is Some
                &&& after.fabric == d.state
                &&& after.sim.now == net.sim.now
                &&& after.sim.events_processed == net.sim.events_processed
                &&& after.sim.queue.next_sequence == net.sim.queue.next_sequence + 1
                &&& after.sim.queue.pending.to_multiset() == net.sim.queue.pending.to_multiset()
                    .insert(
                    Scheduled {
                        time: d.time,
                        sequence: net.sim.queue.next_sequence,
                        event: d.event,
                    },
                )
            },
            None => net.fabric.dispatch(time, src, dst, payload, size_bytes) is None
                || net.sim.queue.next_sequence == u64::MAX,
        },
{
    if let Some(d) = net.fabric.dispatch(time, src, dst, payload, size_bytes) {
        schedule_adds_one_event(net.sim.queue, d.time, d.event);
    }
}

/// A plain send returns the number of the message, which is the next one, and nothing only if
/// there is no route and the message is neither parted from its destination nor lost.
pub proof fn receipts_tell_the_number<P, L: LatencyModel>(
    net: NetState<P, L>,
    src: NodeId,
    dst: NodeId,
    payload: P,
)
    requires
        net.sending(net.sim.now, src, dst, payload, 0) is Some,
    ensures
        net.next_id().0 == net.fabric.next_message_id,
        ({
            let d = net.fabric.dispatch(net.sim.now, src, dst, payload, 0)->0;
            match net.receipt(src, dst, payload) {
                Some(id) => id == message_of(d.event).id && !dropped_for(
                    d.event,
                    DropReason::NoRoute,
                ),
                None => dropped_for(d.event, DropReason::NoRoute),
            }
        }),
{
}

/// A failure sweep drops a delivery that is parted from its destination or has no route, for
/// that reason and at once, and keeps every other event as it is, with its time.
pub proof fn sweeps_drop_what_is_stranded<P, L: LatencyModel>(
    f: FabricState<L>,
    now: Time,
    s: Scheduled<NetEvent<P>>,
)
    ensures
        swept(f, now, s) is None ==> {
            let message = message_of(s.event);
            &&& s.event is Deliver
            &&& !parted(f.partitions, message.src, message.dst)
            &&& message.src != message.dst
            &&& !f.graph.failed_nodes.contains(message.src)
            &&& !f.graph.failed_nodes.contains(message.dst)
            &&& message.src.0 >= f.graph.links.len() || message.dst.0 >= f.graph.links.len()
        },
        swept(f, now, s) matches Some((time, event)) ==> {
            let message = message_of(s.event);
            let apart = parted(f.partitions, message.src, message.dst);
            let routed = route_of(f.graph, message.src, message.dst) is Some;
            &&& message_of(event) == message
            &&& s.event is Drop || (!apart && routed) ==> time == s.time && event == s.event
            &&& s.event is Deliver && apart ==> time == now && dropped_for(
                event,
                DropReason::Partitioned,
            )
            &&& s.event is Deliver && !apart && !routed ==> time == now && dropped_for(
                event,
                DropReason::NoRoute,
            )
        },
{
}

/// A failure sweeps the queue only if the network is configured for it, and takes on the changed
/// state either way.
pub proof fn failures_sweep_if_configured<P, L: LatencyModel>(
    net: NetState<P, L>,
    fabric: FabricState<L>,
)
    ensures
        net.failing(fabric).fabric == fabric,
        net.failing(fabric).sim.now == net.sim.now,
        net.failing(fabric).sim.events_processed == net.sim.events_processed,
        !fabric.config.drop_in_flight_on_failure ==> net.failing(fabric).sim == net.sim
            && net.can_fail(fabric),
        fabric.config.drop_in_flight_on_failure && net.can_fail(fabric) ==> forall|i: int|
            0 <= i < net.sim.queue.pending.len() ==> (swept(
                fabric,
                net.sim.now,
                #[trigger] net.sim.queue.pending[i],
            ) is Some && exists|s: Scheduled<NetEvent<P>>| #[trigger]
                net.failing(fabric).sim.queue.pending.contains(s) && swept(
                    fabric,
                    net.sim.now,
                    net.sim.queue.pending[i],
                ) == Some((s.time, s.event))),
{
    if fabric.config.drop_in_flight_on_failure && net.can_fail(fabric) {
        let queue = net.sim.queue;
        let items = queue.pending.map_values(
            |s: Scheduled<NetEvent<P>>| swept(fabric, net.sim.now, s)->0,
        );
        crate::order::events_are_numbered_in_turn(queue.cleared(), items);
        assert forall|i: int| 0 <= i < queue.pending.len() implies (swept(
            fabric,
            net.sim.now,
            #[trigger] queue.pending[i],
        ) is Some && exists|s: Scheduled<NetEvent<P>>| #[trigger]
            net.failing(fabric).sim.queue.pending.contains(s) && swept(
                fabric,
                net.sim.now,
                queue.pending[i],
            ) == Some((s.time, s.event))) by {
            assert(swept(fabric, Time(0), queue.pending[i]) is Some);
            let s = Scheduled {
                time: items[i].0,
                sequence: (queue.cleared().next_sequence + i) as u64,
                event: items[i].1,
            };
            assert(net.failing(fabric).sim.queue.pending.contains(s));
        }
    }
}

/// What a handler is given: the clock at the time of the event, and the count of deliveries or
/// of drops, whichever the event is, one higher. Everything else is as the last event left it.
pub proof fn handlers_see_the_event_counted<P, L: LatencyModel>(run: RunState<P, L>)
    requires
        run.sim.queue.pending.len() > 0,
    ensures
        match run.entered() {
            Some(c) => {
                let event = run.sim.queue.pending[0].event;
                &&& c.now == run.sim.queue.pending[0].time
                &&& c.fabric == run.ctx.fabric
                &&& c.pending_sends == run.ctx.pending_sends
                &&& c.needs_failure_sweep == run.ctx.needs_failure_sweep
                &&& event is Deliver ==> c.delivered == run.ctx.delivered + 1 && c.dropped
                    == run.ctx.dropped
                &&& event is Drop ==> c.delivered == run.ctx.delivered && c.dropped
                    == run.ctx.dropped + 1
            },
            None => run.sim.events_processed == u64::MAX || run.ctx.delivered == u64::MAX
                || run.ctx.dropped == u64::MAX,
        },
{
}

/// A run starts with nothing delivered, dropped or to be sent, and its figures are those of the
/// point at which it ends.
pub proof fn runs_start_from_nothing<P, L: LatencyModel>(net: NetState<P, L>, run: RunState<P, L>)
    ensures
        ({
            let start = RunState::initial(net);
            &&& start.sim == net.sim
            &&& start.ctx.fabric == net.fabric
            &&& start.ctx.delivered == 0
            &&& start.ctx.dropped == 0
            &&& start.ctx.pending_sends.len() == 0
            &&& !start.ctx.needs_failure_sweep
        }),
        run.stats().events_processed == run.sim.events_processed,
        run.stats().final_time == run.sim.now,
        run.stats().messages_sent == run.ctx.fabric.next_message_id,
        run.stats().messages_delivered == run.ctx.delivered,
        run.stats().messages_dropped == run.ctx.dropped,
{
}

/// Whether `nets` follows the messages that a handler wants sent, from one to the next: each is
/// sent at the time of the event, in the order in which they were asked for.
pub open spec fn sends_in_turn<P, L: LatencyModel>(
    requests: Seq<SendRequest<P>>,
    nets: Seq<NetState<P, L>>,
) -> bool {
    &&& nets.len() == requests.len() + 1
    &&& forall|k: int|
        0 <= k < requests.len() ==> {
            let (src, dst, payload, size_bytes) = #[trigger] requests[k];
            nets[k].sending(nets[k].sim.now, src, dst, payload, size_bytes) == Some(nets[k + 1])
        }
}

proof fn lemma_sends_in_turn<P, L: LatencyModel>(
    net: NetState<P, L>,
    requests: Seq<SendRequest<P>>,
) -> (nets: Seq<NetState<P, L>>)
    requires
        sending_all(net, requests) is Some,
    ensures
        sends_in_turn(requests, nets),
        nets[0] == net,
        nets.last() == sending_all(net, requests)->0,
    decreases requests.len(),
{
    if requests.len() == 0 {
        seq![net]
    } else {
        let fewer = requests.drop_last();
        let before = lemma_sends_in_turn(net, fewer);
        let nets = before.push(sending_all(net, requests)->0);
        assert(nets[0] == before[0]);
        assert forall|k: int| 0 <= k < requests.len() implies {
            let (src, dst, payload, size_bytes) = #[trigger] requests[k];
            nets[k].sending(nets[k].sim.now, src, dst, payload, size_bytes) == Some(nets[k + 1])
        } by {
            assert(nets[k] == before[k]);
            if k < fewer.len() {
                assert(fewer[k] == requests[k]);
                assert(nets[k + 1] == before[k + 1]);
            }
        }
        nets
    }
}

/// What happens after a handler: if something failed and the network is configured for it, the
/// queue is swept first; then the messages that the handler wants sent are sent, in turn and at
/// the time of the event. Nothing is left to be sent or swept, and the counts stay.
pub proof fn wishes_of_handlers_are_carried_out<P, L: LatencyModel>(
    sim: SimState<NetEvent<P>>,
    ctx: CtxState<P, L>,
) -> (nets: Seq<NetState<P, L>>)
    requires
        RunState::absorbed(sim, ctx) is Some,
    ensures
        ({
            let after = RunState::absorbed(sim, ctx)->0;
            let sweeps = ctx.needs_failure_sweep && ctx.fabric.config.drop_in_flight_on_failure;
            let swept_net = (NetState { sim, fabric: ctx.fabric }).failing(ctx.fabric);
            &&& sends_in_turn(ctx.pending_sends, nets)
            &&& sweeps ==> nets[0] == swept_net
            &&& !sweeps ==> nets[0] == (NetState { sim, fabric: ctx.fabric })
            &&& nets.last().sim == after.sim
            &&& nets.last().fabric == after.ctx.fabric
            &&& after.ctx.pending_sends.len() == 0
            &&& !after.ctx.needs_failure_sweep
            &&& after.ctx.delivered == ctx.delivered
            &&& after.ctx.dropped == ctx.dropped
            &&& after.ctx.now == ctx.now
        }),
{
    let sweeps = ctx.needs_failure_sweep && ctx.fabric.config.drop_in_flight_on_failure;
    let base = NetState { sim, fabric: ctx.fabric };
    let net = if sweeps {
        base.failing(ctx.fabric)
    } else {
        base
    };
    lemma_sends_in_turn(net, ctx.pending_sends)
}

/// A trace tells of each event what it was, which message it was about and between which nodes,
/// and for a drop the reason.
pub proof fn traces_tell_what_happened<P>(event: NetEvent<P>)
    ensures
        ({
            let m = message_of(event);
            match told(event) {
                NetTraceEvent::Delivered { message_id, src, dst } => event is Deliver
                    && message_id == m.id.0 && src == m.src.0 && dst == m.dst.0,
                NetTraceEvent::Dropped { message_id, src, dst, reason } => {
                    &&& message_id == m.id.0
                    &&& src == m.src.0
                    &&& dst == m.dst.0
                    &&& reason is NoRoute <==> dropped_for(event, DropReason::NoRoute)
                    &&& reason is PacketLoss <==> dropped_for(event, DropReason::PacketLoss)
                    &&& reason is Partitioned <==> dropped_for(event, DropReason::Partitioned)
                    &&& reason is BufferOverflow <==> dropped_for(event, DropReason::BufferOverflow)
                    &&& event is Drop
                },
            }
        }),
{
}

/// The trace of a run has one entry for each event that was handled, numbered in turn, at the
/// time at which the event was due.
pub proof fn traces_follow_the_run<P, L>(states: Seq<RunState<P, L>>, i: int)
    requires
        0 <= i < states.len() - 1,
        states.len() <= u64::MAX,
    ensures
        run_trace(states).len() == states.len() - 1,
        run_trace(states)[i].sequence == i,
        run_trace(states)[i].time_ns == states[i].sim.queue.pending[0].time.0,
        run_trace(states)[i].event == told(states[i].sim.queue.pending[0].event),
{
}

/// The trace of a run has the seed and the events of the run, and ends when the run does.
pub proof fn traces_end_with_the_run<P, L: LatencyModel>(seed: u64, states: Seq<RunState<P, L>>)
    requires
        states.len() > 0,
    ensures
        recorded(seed, states).seed == seed,
        recorded(seed, states).events == run_trace(states),
        recorded(seed, states).final_time_ns == states.last().sim.now.0,
{
}

/// From each point of a run the event that is due first is taken off the queue, counted, and given
/// to the handler at its time; what the handler leaves is carried out. `ctx` is what it leaves.
pub proof fn events_are_handled_one_by_one<P, L: LatencyModel>(
    handles: spec_fn(CtxState<P, L>, NetEvent<P>, CtxState<P, L>) -> bool,
    states: Seq<RunState<P, L>>,
    i: int,
) -> (ctx: CtxState<P, L>)
    requires
        is_net_run(handles, states),
        0 <= i < states.len() - 1,
    ensures
        ({
            let run = states[i];
            let taken = SimState {
                now: run.sim.queue.pending[0].time,
                events_processed: (run.sim.events_processed + 1) as u64,
                queue: QueueState {
                    pending: run.sim.queue.pending.drop_first(),
                    next_sequence: run.sim.queue.next_sequence,
                },
            };
            &&& run.sim.queue.pending.len() > 0
            &&& run.sim.events_processed < u64::MAX
            &&& run.entered() is Some
            &&& handles(run.entered()->0, run.sim.queue.pending[0].event, ctx)
            &&& RunState::absorbed(taken, ctx) == Some(states[i + 1])
        }),
{
    let run = states[i];
    assert(run.leads_to(handles, states[i + 1]));
    choose|ctx: CtxState<P, L>|
        #![trigger RunState::absorbed(run.sim.advanced(), ctx)]
        handles(run.entered()->0, run.sim.queue.pending[0].event, ctx) && RunState::absorbed(
            run.sim.advanced(),
            ctx,
        ) == Some(states[i + 1])
}

proof fn lemma_first_refused<P, L: LatencyModel>(
    net: NetState<P, L>,
    requests: Seq<SendRequest<P>>,
) -> (sent: Seq<NetState<P, L>>)
    requires
        sending_all(net, requests) is None,
    ensures
        0 < sent.len() <= requests.len(),
        sends_in_turn(requests.take(sent.len() - 1), sent),
        sent[0] == net,
        ({
            let (src, dst, payload, size_bytes) = requests[sent.len() - 1];
            sent.last().sending(sent.last().sim.now, src, dst, payload, size_bytes) is None
        }),
    decreases requests.len(),
{
    let fewer = requests.drop_last();
    if sending_all(net, fewer) is None {
        let sent = lemma_first_refused(net, fewer);
        assert(fewer.take(sent.len() - 1) =~= requests.take(sent.len() - 1));
        assert(fewer[sent.len() - 1] == requests[sent.len() - 1]);
        sent
    } else {
        let sent = lemma_sends_in_turn(net, fewer);
        assert(requests.take(sent.len() - 1) =~= fewer);
        sent
    }
}

/// What a handler wants fails to be carried out only if the queue cannot be swept, which needs a
/// number for each event and ends that the topology knows, or if one of the messages cannot be
/// sent after those before it were. `sent` follows the messages until then.
pub proof fn wishes_of_handlers_fail_for_a_reason<P, L: LatencyModel>(
    sim: SimState<NetEvent<P>>,
    ctx: CtxState<P, L>,
) -> (sent: Seq<NetState<P, L>>)
    requires
        RunState::absorbed(sim, ctx) is None,
    ensures
        ({
            let sweeps = ctx.needs_failure_sweep && ctx.fabric.config.drop_in_flight_on_failure;
            let base = NetState { sim, fabric: ctx.fabric };
            let crowded = sim.queue.next_sequence + sim.queue.pending.len() > u64::MAX;
            let unknown = exists|i: int|
                0 <= i < sim.queue.pending.len() && swept(
                    ctx.fabric,
                    Time(0),
                    #[trigger] sim.queue.pending[i],
                ) is None;
            ||| sweeps && (crowded || unknown)
            ||| {
                &&& 0 < sent.len() <= ctx.pending_sends.len()
                &&& sends_in_turn(ctx.pending_sends.take(sent.len() - 1), sent)
                &&& sweeps ==> sent[0] == base.failing(ctx.fabric)
                &&& !sweeps ==> sent[0] == base
                &&& ({
                    let (src, dst, payload, size_bytes) = ctx.pending_sends[sent.len() - 1];
                    sent.last().sending(sent.last().sim.now, src, dst, payload, size_bytes) is None
                })
            }
        }),
{
    let sweeps = ctx.needs_failure_sweep && ctx.fabric.config.drop_in_flight_on_failure;
    let base = NetState { sim, fabric: ctx.fabric };
    if sweeps && !sweepable(ctx.fabric, sim.queue) {
        Seq::empty()
    } else {
        let net = if sweeps {
            base.failing(ctx.fabric)
        } else {
            base
        };
        lemma_first_refused(net, ctx.pending_sends)
    }
}

/// An identifier that is made from a number keeps it; of a number that is too large for a node the
/// lower half stays.
pub proof fn identifiers_keep_their_numbers(node: u32, place: usize, message: u64)
    ensures
        <NodeId as FromSpec<u32>>::from_spec(node).0 == node,
        place <= u32::MAX ==> <NodeId as FromSpec<usize>>::from_spec(place).0 == place,
        <MessageId as FromSpec<u64>>::from_spec(message).0 == message,
{
}

/// A run of a network ends when no event is left, and its figures are those of that point; it
/// fails only at a point from which something cannot be represented.
pub proof fn network_runs_end_when_nothing_is_left<
    P,
    L: LatencyModel,
    F: FnMut(&mut RunContext<P, L>, NetEvent<P>),
>(net: Network<P, L>, handler: F, r: Option<NetworkStats>)
    requires
        call_ensures(Network::<P, L>::try_run::<F>, (net, handler), r),
    ensures
        exists|states: Seq<RunState<P, L>>|
            #![trigger states.last()]
            {
                let end = states.last();
                &&& states.len() > 0
                &&& states[0] == RunState::initial(net@)
                &&& is_net_run(
                    |c0: CtxState<P, L>, e: NetEvent<P>, c1: CtxState<P, L>|
                        exists|c: &mut RunContext<P, L>|
                            c@ == c0 && final(c)@ == c1 && #[trigger] call_ensures(
                                handler,
                                (c, e),
                                (),
                            ),
                    states,
                )
                &&& r is Some <==> end.sim.queue.pending.len() == 0
                &&& r matches Some(stats) ==> {
                    &&& stats.final_time == end.sim.now
                    &&& stats.events_processed == end.sim.events_processed
                    &&& stats.messages_sent == end.ctx.fabric.next_message_id
                    &&& stats.messages_delivered == end.ctx.delivered
                    &&& stats.messages_dropped == end.ctx.dropped
                }
            },
{
}

} // verus!
