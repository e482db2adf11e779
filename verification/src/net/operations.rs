//! How the operations on topologies and networks relate to each other.

use vstd::prelude::*;
use vstd::std_specs::convert::IntoSpec;

use crate::net::delivery::parted;
use crate::net::fabric::FabricState;
use crate::net::graph::{route_of, Graph, Link, Route};
use crate::net::latency::LatencyModel;
use crate::net::message::{NetConfig, NetEvent};
use crate::net::network::{NetState, Network};
use crate::net::node::{MessageId, NodeId};
use crate::net::policy::DropPolicy;
use crate::net::run::{CtxState, RunContext};
use crate::net::ramp::Fraction;
use crate::net::shapes::{is_line, is_mesh, is_ring, is_star, same_nodes};
use crate::net::topology::{Topology, TopologyBuilder};
use crate::net::traced::{TracedNetwork, TracedState};
use crate::sim::SimState;
use crate::time::{Duration, Time};

verus! {

/// What a link costs and holds.
pub struct Terms {
    /// How long a message takes over the link.
    pub latency: Duration,
    /// How many bytes go over it in a second, if that is limited.
    pub bandwidth: Option<u64>,
    /// How many bytes wait for it, if that is limited.
    pub buffer_bytes: Option<u64>,
    /// What it drops early.
    pub drop_policy: DropPolicy,
}

/// A link without limits.
pub open spec fn plain(latency: Duration) -> Terms {
    Terms { latency, bandwidth: None, buffer_bytes: None, drop_policy: DropPolicy::TailDrop }
}

/// Whether the last link of `src` leads to `dst` on the given terms, behind the links that it has
/// in `g`.
pub open spec fn has_new_link(g: Graph, h: Graph, src: NodeId, dst: NodeId, terms: Terms) -> bool {
    let before = g.links[src.0 as int];
    let after = h.links[src.0 as int];
    &&& after.len() == before.len() + 1
    &&& after.drop_last() == before
    &&& after.last().target == dst
    &&& after.last().latency == terms.latency
    &&& after.last().bandwidth == terms.bandwidth
    &&& after.last().buffer_bytes == terms.buffer_bytes
    &&& after.last().drop_policy == terms.drop_policy
}

/// Whether `h` is `g` with one more link, from `src` to `dst`.
pub open spec fn gains_link(g: Graph, h: Graph, src: NodeId, dst: NodeId, terms: Terms) -> bool {
    &&& same_nodes(g, h)
    &&& g.has(src) && g.has(dst) ==> has_new_link(g, h, src, dst, terms)
    &&& !(g.has(src) && g.has(dst)) ==> h == g
    &&& forall|u: int|
        0 <= u < g.links.len() && u != src.0 ==> #[trigger] h.links[u] == g.links[u]
}

/// Whether `h` is `g` with two more links between different nodes, one each way.
pub open spec fn gains_links(
    g: Graph,
    h: Graph,
    a: NodeId,
    b: NodeId,
    there: Terms,
    back: Terms,
) -> bool {
    &&& same_nodes(g, h)
    &&& a != b && g.has(a) && g.has(b) ==> has_new_link(g, h, a, b, there) && has_new_link(
        g,
        h,
        b,
        a,
        back,
    )
    &&& !(g.has(a) && g.has(b)) ==> h == g
    &&& forall|u: int|
        0 <= u < g.links.len() && u != a.0 && u != b.0 ==> #[trigger] h.links[u] == g.links[u]
}

proof fn lemma_gains_link(g: Graph, src: NodeId, link: Link)
    ensures
        gains_link(
            g,
            g.with_link(src, link),
            src,
            link.target,
            Terms {
                latency: link.latency,
                bandwidth: link.bandwidth,
                buffer_bytes: link.buffer_bytes,
                drop_policy: link.drop_policy,
            },
        ),
{
    let h = g.with_link(src, link);
    if g.has(src) && g.has(link.target) {
        assert(h.links[src.0 as int].drop_last() =~= g.links[src.0 as int]);
    }
}

/// Each way to add a link to a topology adds one link on the terms that are given, and no others;
/// a link both ways is one each way.
pub proof fn topologies_gain_links(
    t: &mut Topology,
    src: NodeId,
    dst: NodeId,
    latency: Duration,
    bandwidth: Option<u64>,
    buffer_bytes: Option<u64>,
    drop_policy: DropPolicy,
)
    ensures
        call_ensures(Topology::add_link, (t, src, dst, latency), ()) ==> gains_link(
            old(t)@,
            final(t)@,
            src,
            dst,
            plain(latency),
        ),
        call_ensures(Topology::add_link_with_bandwidth, (t, src, dst, latency, bandwidth), ())
            ==> gains_link(
            old(t)@,
            final(t)@,
            src,
            dst,
            (Terms { bandwidth, ..plain(latency) }),
        ),
        call_ensures(
            Topology::add_link_full,
            (t, src, dst, latency, bandwidth, buffer_bytes),
            (),
        ) ==> gains_link(
            old(t)@,
            final(t)@,
            src,
            dst,
            (Terms { bandwidth, buffer_bytes, ..plain(latency) }),
        ),
        call_ensures(
            Topology::add_link_full_with_policy,
            (t, src, dst, latency, bandwidth, buffer_bytes, drop_policy),
            (),
        ) ==> gains_link(
            old(t)@,
            final(t)@,
            src,
            dst,
            (Terms { latency, bandwidth, buffer_bytes, drop_policy }),
        ),
        call_ensures(Topology::add_bidi_link, (t, src, dst, latency), ()) ==> gains_links(
            old(t)@,
            final(t)@,
            src,
            dst,
            plain(latency),
            plain(latency),
        ),
{
    let g = old(t)@;
    let to_dst = Link {
        target: dst,
        latency,
        bandwidth: None,
        buffer_bytes: None,
        drop_policy: DropPolicy::TailDrop,
    };
    let to_src = Link { target: src, ..to_dst };
    lemma_gains_link(g, src, to_dst);
    lemma_gains_link(g, src, Link { bandwidth, ..to_dst });
    lemma_gains_link(g, src, Link { bandwidth, buffer_bytes, ..to_dst });
    lemma_gains_link(g, src, Link { bandwidth, buffer_bytes, drop_policy, ..to_dst });
    lemma_gains_link(g.with_link(src, to_dst), dst, to_src);
}

/// Each way to add links while a topology is built adds one link, or one each way, on the terms
/// that are given; of two latencies the first is that of the link there.
pub proof fn builders_gain_links<A: Into<NodeId>, B: Into<NodeId>>(
    t: TopologyBuilder,
    a: A,
    b: B,
    latency: Duration,
    other: Duration,
    bps: u64,
    bytes: u64,
    policy: DropPolicy,
    r: TopologyBuilder,
)
    requires
        <A as IntoSpec<NodeId>>::obeys_into_spec(),
        <B as IntoSpec<NodeId>>::obeys_into_spec(),
    ensures
        ({
            let x: NodeId = a.into_spec();
            let y: NodeId = b.into_spec();
            let fast = Terms { bandwidth: Some(bps), ..plain(latency) };
            let full = Terms { buffer_bytes: Some(bytes), ..fast };
            let early = Terms { drop_policy: policy, ..full };
            let g = t@;
            let h = r@;
            &&& call_ensures(TopologyBuilder::link::<A, B>, (t, a, b, latency), r) ==> gains_links(
                g,
                h,
                x,
                y,
                plain(latency),
                plain(latency),
            )
            &&& call_ensures(TopologyBuilder::directed_link::<A, B>, (t, a, b, latency), r)
                ==> gains_link(g, h, x, y, plain(latency))
            &&& call_ensures(
                TopologyBuilder::link_asymmetric::<A, B>,
                (t, a, b, latency, other),
                r,
            ) ==> gains_links(g, h, x, y, plain(latency), plain(other))
            &&& call_ensures(
                TopologyBuilder::link_with_capacity::<A, B>,
                (t, a, b, latency, bps),
                r,
            ) ==> gains_links(g, h, x, y, fast, fast)
            &&& call_ensures(
                TopologyBuilder::directed_link_with_capacity::<A, B>,
                (t, a, b, latency, bps),
                r,
            ) ==> gains_link(g, h, x, y, fast)
            &&& call_ensures(
                TopologyBuilder::link_with_capacity_and_buffer::<A, B>,
                (t, a, b, latency, bps, bytes),
                r,
            ) ==> gains_links(g, h, x, y, full, full)
            &&& call_ensures(
                TopologyBuilder::directed_link_with_capacity_and_buffer::<A, B>,
                (t, a, b, latency, bps, bytes),
                r,
            ) ==> gains_link(g, h, x, y, full)
            &&& call_ensures(
                TopologyBuilder::link_with_policy::<A, B>,
                (t, a, b, latency, bps, bytes, policy),
                r,
            ) ==> gains_links(g, h, x, y, early, early)
            &&& call_ensures(
                TopologyBuilder::directed_link_with_policy::<A, B>,
                (t, a, b, latency, bps, bytes, policy),
                r,
            ) ==> gains_link(g, h, x, y, early)
        }),
{
    let x: NodeId = a.into_spec();
    let y: NodeId = b.into_spec();
    let g = t@;
    let to_y = Link {
        target: y,
        latency,
        bandwidth: None,
        buffer_bytes: None,
        drop_policy: DropPolicy::TailDrop,
    };
    let to_x = Link { target: x, ..to_y };
    let fast_y = Link { bandwidth: Some(bps), ..to_y };
    let fast_x = Link { bandwidth: Some(bps), ..to_x };
    let full_y = Link { buffer_bytes: Some(bytes), ..fast_y };
    let full_x = Link { buffer_bytes: Some(bytes), ..fast_x };
    let early_y = Link { drop_policy: policy, ..full_y };
    let early_x = Link { drop_policy: policy, ..full_x };
    lemma_gains_both(g, x, y, to_x, to_y);
    lemma_gains_both(g, x, y, Link { latency: other, ..to_x }, to_y);
    lemma_gains_both(g, x, y, fast_x, fast_y);
    lemma_gains_both(g, x, y, full_x, full_y);
    lemma_gains_both(g, x, y, early_x, early_y);
}

proof fn lemma_gains_both(g: Graph, a: NodeId, b: NodeId, to_a: Link, to_b: Link)
    requires
        to_a.target == a,
        to_b.target == b,
    ensures
        gains_link(
            g,
            g.with_link(a, to_b),
            a,
            b,
            (Terms {
                latency: to_b.latency,
                bandwidth: to_b.bandwidth,
                buffer_bytes: to_b.buffer_bytes,
                drop_policy: to_b.drop_policy,
            }),
        ),
        gains_links(
            g,
            g.with_bidi(a, b, to_a, to_b),
            a,
            b,
            (Terms {
                latency: to_b.latency,
                bandwidth: to_b.bandwidth,
                buffer_bytes: to_b.buffer_bytes,
                drop_policy: to_b.drop_policy,
            }),
            (Terms {
                latency: to_a.latency,
                bandwidth: to_a.bandwidth,
                buffer_bytes: to_a.buffer_bytes,
                drop_policy: to_a.drop_policy,
            }),
        ),
{
    lemma_gains_link(g, a, to_b);
    lemma_gains_link(g.with_link(a, to_b), b, to_a);
}

/// A new topology has its nodes, numbered from zero, and no link and no failure; building one
/// keeps what was added.
pub proof fn new_topologies_have_no_links(
    n: usize,
    t: Topology,
    b: TopologyBuilder,
    built: Topology,
    count: usize,
    nodes: Vec<NodeId>,
    i: int,
)
    requires
        call_ensures(Topology::new, (n,), t),
        call_ensures(TopologyBuilder::new, (n,), b),
        call_ensures(TopologyBuilder::build, (b,), built),
        call_ensures(Topology::node_count, (&built,), count),
        call_ensures(Topology::nodes, (&built,), nodes),
        0 <= i < n,
    ensures
        t@ == b@,
        built@ == b@,
        count == n,
        nodes.len() == n,
        nodes[i].0 == i,
        t@.links[i].len() == 0,
        forall|a: NodeId, b: NodeId| !#[trigger] t@.failed_links.contains((a, b)),
        forall|a: NodeId| !#[trigger] t@.failed_nodes.contains(a),
{
}

/// What a topology tells of a node are its links, in the order in which they were added; of two
/// nodes, the first link from one to the other; and a route is the same however often it is
/// asked for.
pub proof fn topologies_tell_their_links(
    t: Topology,
    src: NodeId,
    dst: NodeId,
    row: &[Link],
    link: Option<&Link>,
    asked: &mut Topology,
    route: Option<Route>,
)
    requires
        call_ensures(Topology::links_from, (&t, src), row),
        call_ensures(Topology::link_between, (&t, src, dst), link),
        call_ensures(Topology::route, (asked, src, dst), route),
    ensures
        t@.has(src) ==> row@ == t@.links[src.0 as int],
        !t@.has(src) ==> row@.len() == 0 && link is None,
        link matches Some(l) ==> l.target == dst && row@.contains(*l),
        link is None ==> forall|k: int|
            0 <= k < row@.len() ==> (#[trigger] row@[k]).target != dst,
        route == route_of(old(asked)@, src, dst),
        final(asked)@ == old(asked)@,
{
    if t@.has(src) {
        let place = crate::net::ways::the_first_of_several_links_counts(t@, src, dst);
        if link is Some {
            assert(row@[place] == *link->0);
        }
    }
}

/// An edge has failed in a direction exactly after it was failed in that direction, or in both,
/// and until it is restored; it has failed altogether exactly if it has failed in both.
pub proof fn topologies_fail_as_told(
    t: &mut Topology,
    a: NodeId,
    b: NodeId,
    c: NodeId,
    d: NodeId,
)
    ensures
        ({
            let was = old(t)@.failed_links.contains((c, d));
            let is = final(t)@.failed_links.contains((c, d));
            let forth = c == a && d == b;
            let same = forth || (c == b && d == a);
            &&& call_ensures(Topology::fail_link_directed, (t, a, b), ()) ==> is == (was || forth)
            &&& call_ensures(Topology::heal_link_directed, (t, a, b), ()) ==> is == (was && !forth)
            &&& call_ensures(Topology::fail_link, (t, a, b), ()) ==> is == (was || same)
            &&& call_ensures(Topology::heal_link, (t, a, b), ()) ==> is == (was && !same)
            &&& call_ensures(Topology::fail_node, (t, a), ()) ==> is == was
                && final(t)@.failed_nodes.contains(c) == (c == a || old(
                t,
            )@.failed_nodes.contains(c))
            &&& call_ensures(Topology::heal_node, (t, a), ()) ==> is == was
                && final(t)@.failed_nodes.contains(c) == (c != a && old(
                t,
            )@.failed_nodes.contains(c))
        }),
{
}

/// What a topology is asked about failures it answers by what has failed.
pub proof fn topologies_know_what_failed(
    t: Topology,
    a: NodeId,
    b: NodeId,
    forth: bool,
    back: bool,
    both: bool,
    node: bool,
)
    requires
        call_ensures(Topology::is_link_failed_directed, (&t, a, b), forth),
        call_ensures(Topology::is_link_failed_directed, (&t, b, a), back),
        call_ensures(Topology::is_link_failed, (&t, a, b), both),
        call_ensures(Topology::is_node_failed, (&t, a), node),
    ensures
        both == (forth && back),
        forth == t@.failed_links.contains((a, b)),
        node == t@.failed_nodes.contains(a),
{
}

/// A new network has its topology, its model and its seed; its clock stands at zero, nothing
/// waits, and nothing was sent. A configuration changes nothing else.
pub proof fn new_networks_have_sent_nothing<P, L: LatencyModel>(
    topology: Topology,
    model: L,
    seed: u64,
    n: Network<P, L>,
    config: NetConfig,
    configured: Network<P, L>,
    now: Time,
    sent: u64,
)
    requires
        call_ensures(Network::<P, L>::with_latency_model, (topology, model, seed), n),
        call_ensures(Network::<P, L>::with_config, (n, config), configured),
        call_ensures(Network::<P, L>::now, (&configured,), now),
        call_ensures(Network::<P, L>::messages_sent, (&configured,), sent),
    ensures
        n@.fabric.graph == topology@,
        n@.fabric.model == model,
        n@.fabric.rng.key == crate::rng::chacha8_key(seed),
        n@.fabric.rng.word_pos == 0,
        n@.sim.queue.pending.len() == 0,
        n@.sim.queue.next_sequence == 0,
        now.0 == 0,
        sent == 0,
        configured@.fabric.config == config,
        configured@.sim == n@.sim,
        (FabricState { config: n@.fabric.config, ..configured@.fabric }) == n@.fabric,
{
}

/// Whether a network changed in nothing but its fabric.
pub open spec fn same_sim<P, L>(a: NetState<P, L>, b: NetState<P, L>) -> bool {
    a.sim == b.sim
}

/// The operations on a network that change what becomes of messages change just that: failures
/// are followed by a sweep, if so configured, and repairs are not.
pub proof fn networks_change_as_told<P, L: LatencyModel>(
    n: &mut Network<P, L>,
    a: NodeId,
    b: NodeId,
    bps: u64,
)
    ensures
        ({
            let before = old(n)@;
            let after = final(n)@;
            let f = before.fabric;
            let g = f.graph;
            let cut = g.failed_links.insert((a, b));
            let mended = g.failed_links.remove((a, b));
            &&& call_ensures(Network::<P, L>::set_bandwidth, (n, a, b, bps), ()) ==> same_sim(
                before,
                after,
            ) && after.fabric == f.with_bandwidth(a, b, bps)
            &&& call_ensures(Network::<P, L>::partition, (n, a, b), ()) ==> after
                == before.failing(f.with_partition(a, b))
            &&& call_ensures(Network::<P, L>::heal, (n, a, b), ()) ==> same_sim(before, after)
                && after.fabric == f.without_partition(a, b)
            &&& call_ensures(Network::<P, L>::fail_link, (n, a, b), ()) ==> after
                == before.failing(with_edges(f, cut.insert((b, a))))
            &&& call_ensures(Network::<P, L>::heal_link, (n, a, b), ()) ==> same_sim(before, after)
                && after.fabric == with_edges(f, mended.remove((b, a)))
            &&& call_ensures(Network::<P, L>::fail_link_directed, (n, a, b), ()) ==> after
                == before.failing(with_edges(f, cut))
            &&& call_ensures(Network::<P, L>::heal_link_directed, (n, a, b), ()) ==> same_sim(
                before,
                after,
            ) && after.fabric == with_edges(f, mended)
            &&& call_ensures(Network::<P, L>::fail_node, (n, a), ()) ==> after == before.failing(
                with_nodes(f, g.failed_nodes.insert(a)),
            )
            &&& call_ensures(Network::<P, L>::heal_node, (n, a), ()) ==> same_sim(before, after)
                && after.fabric == with_nodes(f, g.failed_nodes.remove(a))
        }),
{
}

/// A fabric in which other edges have failed.
pub open spec fn with_edges<L>(f: FabricState<L>, failed: Set<(NodeId, NodeId)>) -> FabricState<L> {
    FabricState { graph: Graph { failed_links: failed, ..f.graph }, ..f }
}

/// A fabric in which other nodes have failed.
pub open spec fn with_nodes<L>(f: FabricState<L>, failed: Set<NodeId>) -> FabricState<L> {
    FabricState { graph: Graph { failed_nodes: failed, ..f.graph }, ..f }
}

/// What a network is asked it answers by its state.
pub proof fn networks_know_their_state<P, L: LatencyModel>(
    n: Network<P, L>,
    a: NodeId,
    b: NodeId,
    limit: Option<u64>,
    apart: bool,
    both: bool,
    forth: bool,
    node: bool,
    topology: &Topology,
)
    requires
        call_ensures(Network::<P, L>::bandwidth, (&n, a, b), limit),
        call_ensures(Network::<P, L>::is_partitioned, (&n, a, b), apart),
        call_ensures(Network::<P, L>::is_link_failed, (&n, a, b), both),
        call_ensures(Network::<P, L>::is_link_failed_directed, (&n, a, b), forth),
        call_ensures(Network::<P, L>::is_node_failed, (&n, a), node),
        call_ensures(Network::<P, L>::topology, (&n,), topology),
    ensures
        limit is Some <==> n@.fabric.bandwidths.contains_key((a, b)),
        limit matches Some(bps) ==> bps == n@.fabric.bandwidths[(a, b)].bps,
        apart == parted(n@.fabric.partitions, a, b),
        forth == n@.fabric.graph.failed_links.contains((a, b)),
        both == (forth && n@.fabric.graph.failed_links.contains((b, a))),
        node == n@.fabric.graph.failed_nodes.contains(a),
        topology@ == n@.fabric.graph,
{
}

/// A message is sent at the time that is given, or now, with the size that is given, or none; the
/// number of the message is returned.
pub proof fn messages_are_sent_as_told<P, L: LatencyModel>(
    n: &mut Network<P, L>,
    time: Time,
    src: NodeId,
    dst: NodeId,
    payload: P,
    size: u64,
    r: Option<MessageId>,
)
    ensures
        ({
            let before = old(n)@;
            let after = final(n)@;
            let now = before.sim.now;
            let next = Some(MessageId(before.fabric.next_message_id));
            &&& call_ensures(
                Network::<P, L>::try_send_at_sized,
                (n, time, src, dst, payload, size),
                r,
            ) ==> match before.sending(time, src, dst, payload, size) {
                Some(there) => after == there && r == next,
                None => r is None && after.sim == before.sim,
            }
            &&& call_ensures(
                Network::<P, L>::send_at_sized,
                (n, time, src, dst, payload, size),
                r,
            ) ==> before.sending(time, src, dst, payload, size) == Some(after) && r == next
            &&& call_ensures(Network::<P, L>::send_at, (n, time, src, dst, payload), r)
                ==> before.sending(time, src, dst, payload, 0) == Some(after) && r == next
            &&& call_ensures(Network::<P, L>::send_sized, (n, src, dst, payload, size), r)
                ==> before.sending(now, src, dst, payload, size) == Some(after) && r == next
            &&& call_ensures(Network::<P, L>::send, (n, src, dst, payload), r) ==> before.sending(
                now,
                src,
                dst,
                payload,
                0,
            ) == Some(after) && (r is None || r == next)
        }),
{
}

/// An event is scheduled at the time that is given, or that much later than now, and its number
/// is returned.
pub proof fn events_are_scheduled_as_told<P, L: LatencyModel>(
    n: &mut Network<P, L>,
    time: Time,
    delay: Duration,
    event: NetEvent<P>,
    r: u64,
)
    ensures
        ({
            let before = old(n)@;
            let after = final(n)@;
            let at = |t: Time|
                (NetState {
                    sim: SimState { queue: before.sim.queue.schedule(t, event), ..before.sim },
                    fabric: before.fabric,
                });
            &&& call_ensures(Network::<P, L>::schedule, (n, time, event), r) ==> after == at(time)
                && r == before.sim.queue.next_sequence
            &&& call_ensures(Network::<P, L>::schedule_in, (n, delay, event), r)
                && before.sim.now.0 + delay.0 <= u64::MAX ==> after == at(
                Time((before.sim.now.0 + delay.0) as u64),
            ) && r == before.sim.queue.next_sequence
        }),
{
}

/// Whether a context changed in nothing but its fabric, and asks for a sweep if something failed.
pub open spec fn same_context<P, L>(a: CtxState<P, L>, b: CtxState<P, L>, failed: bool) -> bool {
    &&& b.now == a.now
    &&& b.delivered == a.delivered
    &&& b.dropped == a.dropped
    &&& b.pending_sends == a.pending_sends
    &&& b.needs_failure_sweep == (failed || a.needs_failure_sweep)
}

/// What a handler does to the network takes effect at once, and a failure is swept for when the
/// handler is done; what it sends waits until then, behind what it already sent.
pub proof fn handlers_change_as_told<P, L: LatencyModel>(
    c: &mut RunContext<P, L>,
    a: NodeId,
    b: NodeId,
    bps: u64,
    payload: P,
    size: u64,
)
    ensures
        ({
            let before = old(c)@;
            let after = final(c)@;
            let f = before.fabric;
            let g = f.graph;
            let cut = g.failed_links.insert((a, b));
            let mended = g.failed_links.remove((a, b));
            &&& call_ensures(RunContext::<P, L>::send, (c, a, b, payload), ()) ==> after == (
            CtxState { pending_sends: before.pending_sends.push((a, b, payload, 0)), ..before })
            &&& call_ensures(RunContext::<P, L>::send_sized, (c, a, b, payload, size), ())
                ==> after == (CtxState {
                pending_sends: before.pending_sends.push((a, b, payload, size)),
                ..before
            })
            &&& call_ensures(RunContext::<P, L>::set_bandwidth, (c, a, b, bps), ())
                ==> same_context(before, after, false) && after.fabric == f.with_bandwidth(
                a,
                b,
                bps,
            )
            &&& call_ensures(RunContext::<P, L>::partition, (c, a, b), ()) ==> same_context(
                before,
                after,
                true,
            ) && after.fabric == f.with_partition(a, b)
            &&& call_ensures(RunContext::<P, L>::heal, (c, a, b), ()) ==> same_context(
                before,
                after,
                false,
            ) && after.fabric == f.without_partition(a, b)
            &&& call_ensures(RunContext::<P, L>::fail_link, (c, a, b), ()) ==> same_context(
                before,
                after,
                true,
            ) && after.fabric == with_edges(f, cut.insert((b, a)))
            &&& call_ensures(RunContext::<P, L>::heal_link, (c, a, b), ()) ==> same_context(
                before,
                after,
                false,
            ) && after.fabric == with_edges(f, mended.remove((b, a)))
            &&& call_ensures(RunContext::<P, L>::fail_link_directed, (c, a, b), ())
                ==> same_context(before, after, true) && after.fabric == with_edges(f, cut)
            &&& call_ensures(RunContext::<P, L>::heal_link_directed, (c, a, b), ())
                ==> same_context(before, after, false) && after.fabric == with_edges(f, mended)
            &&& call_ensures(RunContext::<P, L>::fail_node, (c, a), ()) ==> same_context(
                before,
                after,
                true,
            ) && after.fabric == with_nodes(f, g.failed_nodes.insert(a))
            &&& call_ensures(RunContext::<P, L>::heal_node, (c, a), ()) ==> same_context(
                before,
                after,
                false,
            ) && after.fabric == with_nodes(f, g.failed_nodes.remove(a))
        }),
{
}

/// What a handler is told of the network is how the network is.
pub proof fn handlers_know_the_network<P, L: LatencyModel>(
    c: RunContext<P, L>,
    a: NodeId,
    b: NodeId,
    now: Time,
    limit: Option<u64>,
    apart: bool,
    both: bool,
    forth: bool,
    node: bool,
    topology: &Topology,
)
    requires
        call_ensures(RunContext::<P, L>::now, (&c,), now),
        call_ensures(RunContext::<P, L>::bandwidth, (&c, a, b), limit),
        call_ensures(RunContext::<P, L>::is_partitioned, (&c, a, b), apart),
        call_ensures(RunContext::<P, L>::is_link_failed, (&c, a, b), both),
        call_ensures(RunContext::<P, L>::is_link_failed_directed, (&c, a, b), forth),
        call_ensures(RunContext::<P, L>::is_node_failed, (&c, a), node),
        call_ensures(RunContext::<P, L>::topology, (&c,), topology),
    ensures
        now == c@.now,
        limit is Some <==> c@.fabric.bandwidths.contains_key((a, b)),
        limit matches Some(bps) ==> bps == c@.fabric.bandwidths[(a, b)].bps,
        apart == parted(c@.fabric.partitions, a, b),
        forth == c@.fabric.graph.failed_links.contains((a, b)),
        both == (forth && c@.fabric.graph.failed_links.contains((b, a))),
        node == c@.fabric.graph.failed_nodes.contains(a),
        topology@ == c@.fabric.graph,
{
}

/// A traced network does what the network does that it traces, and keeps the seed for its trace.
pub proof fn tracing_changes_no_network<P, L: LatencyModel>(
    t: &mut TracedNetwork<P, L>,
    n: &mut Network<P, L>,
    time: Time,
    a: NodeId,
    b: NodeId,
    bps: u64,
    payload: P,
    size: u64,
    r: Option<MessageId>,
    q: Option<MessageId>,
)
    requires
        old(t)@.net == old(n)@,
    ensures
        ({
            let same = final(t)@.net == final(n)@ && final(t)@.seed == old(t)@.seed;
            &&& call_ensures(TracedNetwork::<P, L>::partition, (t, a, b), ()) && call_ensures(
                Network::<P, L>::partition,
                (n, a, b),
                (),
            ) ==> same
            &&& call_ensures(TracedNetwork::<P, L>::heal, (t, a, b), ()) && call_ensures(
                Network::<P, L>::heal,
                (n, a, b),
                (),
            ) ==> same
            &&& call_ensures(TracedNetwork::<P, L>::set_bandwidth, (t, a, b, bps), ())
                && call_ensures(Network::<P, L>::set_bandwidth, (n, a, b, bps), ()) ==> same
            &&& call_ensures(TracedNetwork::<P, L>::fail_link, (t, a, b), ()) && call_ensures(
                Network::<P, L>::fail_link,
                (n, a, b),
                (),
            ) ==> same
            &&& call_ensures(TracedNetwork::<P, L>::heal_link, (t, a, b), ()) && call_ensures(
                Network::<P, L>::heal_link,
                (n, a, b),
                (),
            ) ==> same
            &&& call_ensures(TracedNetwork::<P, L>::fail_link_directed, (t, a, b), ())
                && call_ensures(Network::<P, L>::fail_link_directed, (n, a, b), ()) ==> same
            &&& call_ensures(TracedNetwork::<P, L>::heal_link_directed, (t, a, b), ())
                && call_ensures(Network::<P, L>::heal_link_directed, (n, a, b), ()) ==> same
            &&& call_ensures(TracedNetwork::<P, L>::fail_node, (t, a), ()) && call_ensures(
                Network::<P, L>::fail_node,
                (n, a),
                (),
            ) ==> same
            &&& call_ensures(TracedNetwork::<P, L>::heal_node, (t, a), ()) && call_ensures(
                Network::<P, L>::heal_node,
                (n, a),
                (),
            ) ==> same
            &&& call_ensures(TracedNetwork::<P, L>::send, (t, a, b, payload), r) && call_ensures(
                Network::<P, L>::send,
                (n, a, b, payload),
                q,
            ) ==> same && r == q
            &&& call_ensures(TracedNetwork::<P, L>::send_sized, (t, a, b, payload, size), r)
                && call_ensures(Network::<P, L>::send_sized, (n, a, b, payload, size), q) ==> same
                && r == q
            &&& call_ensures(TracedNetwork::<P, L>::send_at, (t, time, a, b, payload), r)
                && call_ensures(Network::<P, L>::send_at, (n, time, a, b, payload), q) ==> same
                && r == q
            &&& call_ensures(
                TracedNetwork::<P, L>::send_at_sized,
                (t, time, a, b, payload, size),
                r,
            ) && call_ensures(
                Network::<P, L>::send_at_sized,
                (n, time, a, b, payload, size),
                q,
            ) ==> same && r == q
        }),
{
}

/// A traced network is made as the network is that it traces, and keeps the seed for its trace.
pub proof fn traced_networks_are_made_alike<P, L: LatencyModel>(
    topology: Topology,
    model: L,
    seed: u64,
    config: NetConfig,
    t: TracedNetwork<P, L>,
    n: Network<P, L>,
    tc: TracedNetwork<P, L>,
    nc: Network<P, L>,
    now: Time,
    known: &Topology,
)
    requires
        call_ensures(TracedNetwork::<P, L>::with_latency_model, (topology, model, seed), t),
        call_ensures(Network::<P, L>::with_latency_model, (topology, model, seed), n),
        call_ensures(TracedNetwork::<P, L>::with_config, (t, config), tc),
        call_ensures(Network::<P, L>::with_config, (n, config), nc),
        call_ensures(TracedNetwork::<P, L>::now, (&tc,), now),
        call_ensures(TracedNetwork::<P, L>::topology, (&tc,), known),
    ensures
        t@ == (TracedState { net: n@, seed }),
        tc@ == (TracedState { net: nc@, seed }),
        now == nc@.sim.now,
        known@ == nc@.fabric.graph,
{
}

/// The shapes that a builder offers are those that they are called: each joins the nodes as its
/// name says, behind the links that there are.
pub proof fn shapes_are_what_they_are_called(
    b: TopologyBuilder,
    latency: Duration,
    r: TopologyBuilder,
)
    ensures
        call_ensures(TopologyBuilder::ring, (b, latency), r) ==> is_ring(b@, r@, latency),
        call_ensures(TopologyBuilder::full_mesh, (b, latency), r) ==> is_mesh(b@, r@, latency),
        call_ensures(TopologyBuilder::star, (b, latency), r) ==> is_star(b@, r@, latency),
        call_ensures(TopologyBuilder::line, (b, latency), r) ==> is_line(b@, r@, latency),
{
}

/// A policy of random early detection has the thresholds and the probability that it was made
/// with, and the policy that is there without one drops nothing early.
pub proof fn policies_are_made_as_told(
    min_bytes: u64,
    max_bytes: u64,
    buffer_bytes: u64,
    max_prob: Fraction,
    red: DropPolicy,
)
    requires
        call_ensures(DropPolicy::red, (min_bytes, max_bytes, buffer_bytes, max_prob), red),
    ensures
        red matches DropPolicy::RandomEarlyDetection { min_bytes: a, max_bytes: b, max_prob: p }
            && a == min_bytes && b == max_bytes && p == max_prob,
{
}

} // verus!
