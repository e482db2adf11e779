//! How the search for a route goes, and which of several equally short routes it takes.

use vstd::prelude::*;

use crate::net::graph::{
    first_link, link_of, nearest, route_of, Graph, Label, Link, Search,
};
use crate::net::node::NodeId;

verus! {

/// Whether a node can be settled next: a path to it is known, and its links were not followed
/// yet.
pub open spec fn open_at(s: Search, v: int) -> bool {
    &&& 0 <= v < s.settled.len()
    &&& !s.settled[v]
    &&& s.labels[v] is Some
}

/// The node that is settled next is one to which the known path is shortest, and of several such
/// the one with the highest number; there is none only if no path leads on.
pub proof fn the_nearest_node_is_settled_next(s: Search, k: nat)
    requires
        k <= s.settled.len(),
    ensures
        match nearest(s.labels, s.settled, k) {
            Some(v) => {
                &&& v < k
                &&& open_at(s, v as int)
                &&& forall|w: int|
                    w < k && #[trigger] open_at(s, w) ==> {
                        ||| s.labels[v as int]->0.cost < s.labels[w]->0.cost
                        ||| s.labels[v as int]->0.cost == s.labels[w]->0.cost && w <= v
                    }
            },
            None => forall|w: int| w < k ==> !#[trigger] open_at(s, w),
        },
    decreases k,
{
    if k > 0 {
        the_nearest_node_is_settled_next(s, (k - 1) as nat);
        assert forall|w: int| w < k && w >= k - 1 && #[trigger] open_at(s, w) implies w == k
            - 1 by {}
    }
}

/// A search starts with the empty path to its source and nothing else.
pub proof fn searches_start_at_the_source(g: Graph, src: NodeId, v: int)
    requires
        g.has(src),
        0 <= v < g.links.len(),
    ensures
        ({
            let s = Search::start(g, src);
            &&& s.labels.len() == g.links.len()
            &&& s.settled.len() == g.links.len()
            &&& !s.settled[v]
            &&& v != src.0 ==> s.labels[v] is None
            &&& v == src.0 ==> s.labels[v] is Some && s.labels[v]->0.cost == 0
                && s.labels[v]->0.hops == 0 && s.labels[v]->0.first == src
        }),
{
}

/// Whether a link can be used, and is on a shorter path to its far end than the one known.
pub open spec fn improves(g: Graph, s: Search, u: nat, here: Label, link: Link) -> bool {
    &&& !g.failed_links.contains((NodeId(u as u32), link.target))
    &&& !g.failed_nodes.contains(link.target)
    &&& match s.labels[link.target.0 as int] {
        Some(known) => here.cost + link.latency.0 < known.cost,
        None => true,
    }
}

/// Links are followed one after the other, the first before the second. One that can be used and
/// leads to its far end on a shorter path than any before becomes part of the path there: the
/// path to its near end and the link. One that leads there on a path just as short changes
/// nothing.
pub proof fn only_shorter_paths_replace_known_ones(
    s: Search,
    g: Graph,
    src: NodeId,
    u: nat,
    k: nat,
    v: int,
)
    requires
        u < s.labels.len(),
        s.labels[u as int] is Some,
        u < g.links.len() <= u32::MAX,
        k < g.links[u as int].len(),
        g.links[u as int][k as int].target.0 < s.labels.len(),
        s.labels[u as int]->0.cost + g.links[u as int][k as int].latency.0 < u128::MAX,
        s.labels[u as int]->0.hops < u32::MAX,
        s.follow(g, src, u, k).labels.len() == s.labels.len(),
        0 <= v < s.labels.len(),
    ensures
        s.follow(g, src, u, 0) == s,
        ({
            let before = s.follow(g, src, u, k);
            let after = s.follow(g, src, u, k + 1);
            let here = s.labels[u as int]->0;
            let link = g.links[u as int][k as int];
            &&& after.settled == before.settled
            &&& after.labels.len() == before.labels.len()
            &&& v != link.target.0 || !improves(g, before, u, here, link) ==> after.labels[v]
                == before.labels[v]
            &&& v == link.target.0 && improves(g, before, u, here, link) ==> {
                &&& after.labels[v] is Some
                &&& after.labels[v]->0.cost == here.cost + link.latency.0
                &&& after.labels[v]->0.hops == here.hops + 1
                &&& after.labels[v]->0.first == (if u == src.0 {
                    link.target
                } else {
                    here.first
                })
            }
        }),
{
    let before = s.follow(g, src, u, k);
    let after = s.follow(g, src, u, k + 1);
    assert(after == s.follow(g, src, u, (k + 1) as nat));
}

/// Settling a node marks it and follows all its links, once it is marked.
pub proof fn settling_follows_every_link(s: Search, g: Graph, src: NodeId, u: nat) -> (marked: Search)
    requires
        u < s.settled.len(),
    ensures
        s.settle(g, src, u) == marked.follow(g, src, u, g.links[u as int].len()),
        marked.labels == s.labels,
        marked.settled.len() == s.settled.len(),
        marked.settled[u as int],
        forall|v: int|
            0 <= v < s.settled.len() && v != u ==> #[trigger] marked.settled[v] == s.settled[v],
{
    Search { labels: s.labels, settled: s.settled.update(u as int, true) }
}

/// A search goes on with the nearest node until that is the destination or there is none. The
/// route is the path that is then known to the destination.
pub proof fn searches_end_at_the_destination(s: Search, g: Graph, src: NodeId, dst: NodeId)
    ensures
        match nearest(s.labels, s.settled, s.settled.len()) {
            Some(v) => if v == dst.0 {
                s.finish(g, src, dst) == s
            } else {
                s.finish(g, src, dst) == s.settle(g, src, v).finish(g, src, dst)
            },
            None => s.finish(g, src, dst) == s,
        },
        !g.failed_nodes.contains(src) && !g.failed_nodes.contains(dst) && src != dst ==> {
            let known = Search::start(g, src).finish(g, src, dst).labels[dst.0 as int];
            match route_of(g, src, dst) {
                Some(route) => {
                    &&& known is Some
                    &&& route.next_hop == known->0.first
                    &&& route.hop_count == known->0.hops
                    &&& known->0.cost <= u64::MAX ==> route.total_latency.0 == known->0.cost
                    &&& known->0.cost > u64::MAX ==> route.total_latency.0 == u64::MAX
                },
                None => known is None,
            }
        },
{
}

/// A route can be asked for between nodes of the graph, from a node to itself, and where one of the
/// ends has failed; only between working nodes of which one is not there can it not.
pub proof fn routes_are_asked_for_between_nodes(g: Graph, src: NodeId, dst: NodeId)
    ensures
        !g.spans(src, dst) <==> {
            &&& src != dst
            &&& !g.failed_nodes.contains(src)
            &&& !g.failed_nodes.contains(dst)
            &&& src.0 >= g.links.len() || dst.0 >= g.links.len()
        },
        g.has(src) <==> src.0 < g.links.len(),
{
}

/// Of several links to a node, the one that was added first counts.
pub proof fn the_first_of_several_links_counts(g: Graph, src: NodeId, dst: NodeId) -> (place: int)
    requires
        g.has(src),
    ensures
        ({
            let row = g.links[src.0 as int];
            match link_of(g, src, dst) {
                Some(link) => {
                    &&& 0 <= place < row.len()
                    &&& row[place] == link
                    &&& link.target == dst
                    &&& forall|i: int| 0 <= i < place ==> (#[trigger] row[i]).target != dst
                },
                None => forall|i: int| 0 <= i < row.len() ==> (#[trigger] row[i]).target != dst,
            }
        }),
{
    lemma_first_link(g.links[src.0 as int], dst, 0)
}

proof fn lemma_first_link(row: Seq<Link>, dst: NodeId, k: int) -> (place: int)
    requires
        0 <= k <= row.len(),
    ensures
        match first_link(row, dst, k) {
            Some(link) => {
                &&& k <= place < row.len()
                &&& row[place] == link
                &&& link.target == dst
                &&& forall|i: int| k <= i < place ==> (#[trigger] row[i]).target != dst
            },
            None => forall|i: int| k <= i < row.len() ==> (#[trigger] row[i]).target != dst,
        },
    decreases row.len() - k,
{
    if k < row.len() && row[k].target != dst {
        lemma_first_link(row, dst, k + 1)
    } else {
        k
    }
}

} // verus!
