//! Laws of routing.

use vstd::prelude::*;

use crate::net::consistency::{
    next_hop_has_the_rest_of_the_route, routes_are_shorter_than_the_graph,
};
use crate::net::fabric::{Admission, FabricState, Passage};
use crate::net::graph::{
    first_link, is_best, is_hop, joins, lemma_nearest, link_of, nearest, route_is_shortest_path, route_of,
    stop, total, unset, Graph, Link, Search,
};
use crate::net::latency::LatencyModel;
use crate::net::node::NodeId;
use crate::time::{saturated, Time};

verus! {

/// Whether `g` has the nodes and links of `h` and at least its failures.
pub open spec fn no_better_than(g: Graph, h: Graph) -> bool {
    &&& g.links == h.links
    &&& h.failed_links.subset_of(g.failed_links)
    &&& h.failed_nodes.subset_of(g.failed_nodes)
}

/// Failures never open a route and never shorten one.
pub proof fn failures_never_help(g: Graph, h: Graph, src: NodeId, dst: NodeId)
    requires
        h.wf(),
        h.has(src),
        h.has(dst),
        no_better_than(g, h),
        route_of(g, src, dst) is Some,
    ensures
        route_of(h, src, dst) is Some,
        route_of(h, src, dst)->0.total_latency.0 <= route_of(g, src, dst)->0.total_latency.0,
{
    if src != dst {
        route_is_shortest_path(g, src, dst);
        route_is_shortest_path(h, src, dst);
        let r = route_of(g, src, dst)->0;
        let hops = choose|hops: Seq<Link>| #[trigger]
            is_best(g, src, hops, dst) && saturated(total(hops) as int) == r.total_latency.0
                && hops.len() == r.hop_count && hops[0].target == r.next_hop;
        let shorter = choose|shorter: Seq<Link>| #[trigger]
            is_best(h, src, shorter, dst) && saturated(total(shorter) as int)
                == route_of(h, src, dst)->0.total_latency.0;
        assert(joins(h, src, hops, dst)) by {
            assert forall|i: int| 0 <= i < hops.len() implies #[trigger] is_hop(h, src, hops, i) by {
                assert(is_hop(g, src, hops, i));
            }
        }
    }
}

/// A route leads over no failed edge and to no failed node.
pub proof fn routes_avoid_failures(g: Graph, src: NodeId, dst: NodeId)
    requires
        g.wf(),
        g.has(src),
        g.has(dst),
        src != dst,
        route_of(g, src, dst) is Some,
    ensures
        !g.failed_nodes.contains(src),
        exists|hops: Seq<Link>|
            {
                &&& #[trigger] joins(g, src, hops, dst)
                &&& saturated(total(hops) as int) == route_of(g, src, dst)->0.total_latency.0
                &&& forall|i: int|
                    0 <= i < hops.len() ==> {
                        &&& !g.failed_links.contains((stop(src, hops, i), (#[trigger] hops[i]).target))
                        &&& !g.failed_nodes.contains(hops[i].target)
                    }
            },
{
    route_is_shortest_path(g, src, dst);
    let r = route_of(g, src, dst)->0;
    let hops = choose|hops: Seq<Link>| #[trigger]
        is_best(g, src, hops, dst) && saturated(total(hops) as int) == r.total_latency.0
            && hops.len() == r.hop_count && hops[0].target == r.next_hop;
    assert forall|i: int| 0 <= i < hops.len() implies {
        &&& !g.failed_links.contains((stop(src, hops, i), (#[trigger] hops[i]).target))
        &&& !g.failed_nodes.contains(hops[i].target)
    } by {
        assert(is_hop(g, src, hops, i));
    }
}

/// A node that has failed has no route, not even to itself.
pub proof fn failed_nodes_have_no_route(g: Graph, node: NodeId, other: NodeId)
    ensures
        route_of(g.with_failed_node(node), node, other) is None,
        route_of(g.with_failed_node(node), other, node) is None,
{
}

/// What fails and is restored is as it was before.
pub proof fn healing_undoes_failing(g: Graph, a: NodeId, b: NodeId)
    ensures
        !g.failed_links.contains((a, b)) ==> g.with_failed_link(a, b).with_healed_link(a, b) == g,
        !g.failed_nodes.contains(a) ==> g.with_failed_node(a).with_healed_node(a) == g,
        !g.failed_links.contains((a, b)) && !g.failed_links.contains((b, a)) ==> g.with_failed_link(
            a,
            b,
        ).with_failed_link(b, a).with_healed_link(a, b).with_healed_link(b, a) == g,
{
    if !g.failed_links.contains((a, b)) {
        assert(g.with_failed_link(a, b).with_healed_link(a, b) =~= g);
    }
    if !g.failed_nodes.contains(a) {
        assert(g.with_failed_node(a).with_healed_node(a) =~= g);
    }
    if !g.failed_links.contains((a, b)) && !g.failed_links.contains((b, a)) {
        assert(g.with_failed_link(a, b).with_failed_link(b, a).with_healed_link(
            a,
            b,
        ).with_healed_link(b, a) =~= g);
    }
}

/// Failures of nodes and of links do not affect each other: in whatever order
/// they come, the result is the same, and restoring a node restores no link.
pub proof fn node_and_link_failures_are_independent(g: Graph, a: NodeId, b: NodeId, node: NodeId)
    ensures
        g.with_failed_link(a, b).with_failed_node(node) == g.with_failed_node(
            node,
        ).with_failed_link(a, b),
        g.with_failed_link(a, b).with_healed_node(node) == g.with_healed_node(
            node,
        ).with_failed_link(a, b),
        g.with_healed_link(a, b).with_failed_node(node) == g.with_failed_node(
            node,
        ).with_healed_link(a, b),
        g.with_healed_node(node).failed_links == g.failed_links,
        g.with_healed_link(a, b).failed_nodes == g.failed_nodes,
{
}

/// Whether the same links can be used in both graphs.
spec fn alike(g: Graph, h: Graph) -> bool {
    &&& g.links == h.links
    &&& forall|u: int, k: int|
        0 <= u < g.links.len() && 0 <= k < g.links[u].len() ==> g.live(
            NodeId(u as u32),
            #[trigger] g.links[u][k],
        ) == h.live(NodeId(u as u32), g.links[u][k])
}

proof fn lemma_follow_alike(g: Graph, h: Graph, s: Search, src: NodeId, u: nat, k: nat)
    requires
        alike(g, h),
        u < g.links.len(),
        k <= g.links[u as int].len(),
    ensures
        s.follow(g, src, u, k) == s.follow(h, src, u, k),
    decreases k,
{
    if k > 0 {
        lemma_follow_alike(g, h, s, src, u, (k - 1) as nat);
        let link = g.links[u as int][k - 1];
        assert(g.live(NodeId(u as u32), link) == h.live(NodeId(u as u32), link));
    }
}

proof fn lemma_finish_alike(g: Graph, h: Graph, s: Search, src: NodeId, dst: NodeId)
    requires
        alike(g, h),
        s.settled.len() == g.links.len(),
    ensures
        s.finish(g, src, dst) == s.finish(h, src, dst),
    decreases unset(s.settled),
{
    s.lemma_settle_progress(g, src);
    lemma_nearest(s.labels, s.settled, s.settled.len());
    match nearest(s.labels, s.settled, s.settled.len()) {
        Some(v) => {
            if v != dst.0 {
                let marked = Search { labels: s.labels, settled: s.settled.update(v as int, true) };
                lemma_follow_alike(g, h, marked, src, v, g.links[v as int].len());
                marked.lemma_follow_settled(g, src, v, g.links[v as int].len());
                lemma_finish_alike(g, h, s.settle(g, src, v), src, dst);
            }
        },
        None => {},
    }
}

/// A link that is added to an edge that has failed cannot be used until the edge is
/// restored: adding links repairs nothing.
pub proof fn links_on_failed_edges_stay_failed(g: Graph, a: NodeId, link: Link)
    ensures
        !g.with_failed_link(a, link.target).with_link(a, link).live(a, link),
        g.with_link(a, link).failed_links == g.failed_links,
        g.with_link(a, link).failed_nodes == g.failed_nodes,
{
}

/// Failing an edge that has no link changes no route.
pub proof fn failing_a_missing_link_changes_no_route(
    g: Graph,
    a: NodeId,
    b: NodeId,
    src: NodeId,
    dst: NodeId,
)
    requires
        g.wf(),
        link_of(g, a, b) is None,
    ensures
        route_of(g.with_failed_link(a, b), src, dst) == route_of(g, src, dst),
{
    let h = g.with_failed_link(a, b);
    assert forall|u: int, k: int|
        0 <= u < g.links.len() && 0 <= k < g.links[u].len() implies g.live(
        NodeId(u as u32),
        #[trigger] g.links[u][k],
    ) == h.live(NodeId(u as u32), g.links[u][k]) by {
        if u == a.0 {
            lemma_no_first_link(g.links[u], b, 0);
        }
    }
    if src != dst {
        lemma_finish_alike(g, h, Search::start(g, src), src, dst);
    }
}

proof fn lemma_no_first_link(row: Seq<Link>, dst: NodeId, k: int)
    requires
        0 <= k <= row.len(),
        first_link(row, dst, k) is None,
    ensures
        forall|i: int| k <= i < row.len() ==> (#[trigger] row[i]).target != dst,
    decreases row.len() - k,
{
    if k < row.len() {
        lemma_no_first_link(row, dst, k + 1);
    }
}

proof fn lemma_onward_arrives(
    p: Passage,
    g: Graph,
    dst: NodeId,
    size_bytes: u64,
    busy: Map<(NodeId, NodeId), Time>,
    hops: nat,
)
    requires
        g.wf(),
        g.has(p.node),
        g.has(dst),
        route_of(g, p.node, dst) matches Some(r) && r.hop_count <= hops,
    ensures
        ({
            let end = p.onward(g, dst, size_bytes, busy, hops);
            end is Through || end is Refused
        }),
    decreases hops,
{
    if p.node != dst {
        next_hop_has_the_rest_of_the_route(g, p.node, dst);
        let next = route_of(g, p.node, dst)->0.next_hop;
        if let Admission::Through(q) = p.over(link_of(g, p.node, next), next, size_bytes, busy) {
            lemma_onward_arrives(q, g, dst, size_bytes, busy, (hops - 1) as nat);
        }
    }
}

/// A message that has a route is taken hop by hop to its destination unless a link
/// refuses it: the routes never lead in a circle and never break off.
pub proof fn routes_reach_their_destination<L: LatencyModel>(
    fabric: FabricState<L>,
    src: NodeId,
    dst: NodeId,
    size_bytes: u64,
    time: nat,
)
    requires
        fabric.graph.wf(),
        fabric.graph.has(src),
        fabric.graph.has(dst),
        route_of(fabric.graph, src, dst) is Some,
    ensures
        ({
            let end = fabric.admission(src, dst, size_bytes, time);
            end is Through || end is Refused
        }),
{
    let g = fabric.graph;
    routes_are_shorter_than_the_graph(g, src, dst);
    lemma_onward_arrives(
        fabric.departing(src, time),
        g,
        dst,
        size_bytes,
        fabric.link_busy,
        g.links.len(),
    );
}

} // verus!
