//! The graph that messages are routed on, and the routes through it.

use vstd::prelude::*;

use crate::net::node::NodeId;
use crate::net::policy::DropPolicy;
use crate::time::{saturated, Duration};

verus! {

/// A link to a node.
#[derive(Debug, Clone, Copy, PartialEq, Eq, Structural)]
pub struct Link {
    /// The node at the far end.
    pub target: NodeId,
    /// The latency of the link.
    pub latency: Duration,
    /// The bandwidth in bytes per second, or `None` if it is not limited.
    pub bandwidth: Option<u64>,
    /// The number of untransmitted bytes that the link can hold at any time,
    /// or `None` if it is not limited. Only a link of limited bandwidth has a
    /// queue to which the limit applies.
    pub buffer_bytes: Option<u64>,
    /// How the link decides on incoming messages when it is congested.
    pub drop_policy: DropPolicy,
}

/// A route between two nodes.
#[derive(Debug, Clone, Copy, PartialEq, Eq, Structural)]
pub struct Route {
    /// The first node after the source.
    pub next_hop: NodeId,
    /// The latency of the whole path, cut off at the longest duration.
    pub total_latency: Duration,
    /// The number of links on the path.
    pub hop_count: u32,
}

/// A link of unlimited bandwidth.
pub open spec fn plain_link(target: NodeId, latency: Duration) -> Link {
    Link {
        target,
        latency,
        bandwidth: None,
        buffer_bytes: None,
        drop_policy: DropPolicy::TailDrop,
    }
}

/// A network graph with its current failures.
#[verifier::ext_equal]
pub struct Graph {
    /// The outgoing links of each node, in the order in which they were added.
    pub links: Seq<Seq<Link>>,
    /// The directed edges that have failed.
    pub failed_links: Set<(NodeId, NodeId)>,
    /// The nodes that have failed.
    pub failed_nodes: Set<NodeId>,
}

impl Graph {
    /// A graph of `n` nodes without links or failures.
    pub open spec fn empty(n: nat) -> Graph {
        Graph {
            links: Seq::new(n, |i: int| Seq::empty()),
            failed_links: Set::empty(),
            failed_nodes: Set::empty(),
        }
    }

    /// Whether `node` is a node of the graph.
    pub open spec fn has(self, node: NodeId) -> bool {
        node.0 < self.links.len()
    }

    /// Every link leads to a node of the graph, and every node has a number.
    pub open spec fn wf(self) -> bool {
        &&& self.links.len() <= u32::MAX
        &&& forall|u: int, k: int|
            0 <= u < self.links.len() && 0 <= k < self.links[u].len() ==> self.has(
                (#[trigger] self.links[u][k]).target,
            )
    }

    /// Whether a route from `src` to `dst` can be asked for: they are one node, one
    /// of them has failed, or both are nodes of the graph.
    pub open spec fn spans(self, src: NodeId, dst: NodeId) -> bool {
        ||| src == dst
        ||| self.failed_nodes.contains(src)
        ||| self.failed_nodes.contains(dst)
        ||| self.has(src) && self.has(dst)
    }

    /// Whether a link of `from` can be used: neither its edge nor the node at
    /// its far end has failed.
    pub open spec fn live(self, from: NodeId, link: Link) -> bool {
        !self.failed_links.contains((from, link.target)) && !self.failed_nodes.contains(
            link.target,
        )
    }

    /// The graph with the directed edge from `src` to `dst` failed.
    pub open spec fn with_failed_link(self, src: NodeId, dst: NodeId) -> Graph {
        Graph { failed_links: self.failed_links.insert((src, dst)), ..self }
    }

    /// The graph with the directed edge from `src` to `dst` restored.
    pub open spec fn with_healed_link(self, src: NodeId, dst: NodeId) -> Graph {
        Graph { failed_links: self.failed_links.remove((src, dst)), ..self }
    }

    /// The graph with `node` failed.
    pub open spec fn with_failed_node(self, node: NodeId) -> Graph {
        Graph { failed_nodes: self.failed_nodes.insert(node), ..self }
    }

    /// The graph with `node` restored.
    pub open spec fn with_healed_node(self, node: NodeId) -> Graph {
        Graph { failed_nodes: self.failed_nodes.remove(node), ..self }
    }

    /// The graph with one more link, if both its ends are nodes of the graph.
    pub open spec fn with_link(self, src: NodeId, link: Link) -> Graph {
        if self.has(src) && self.has(link.target) {
            Graph {
                links: self.links.update(src.0 as int, self.links[src.0 as int].push(link)),
                ..self
            }
        } else {
            self
        }
    }
}

impl Graph {
    /// The graph with a link from `a` to `b` and one back.
    pub open spec fn with_bidi(self, a: NodeId, b: NodeId, to_a: Link, to_b: Link) -> Graph {
        self.with_link(a, to_b).with_link(b, to_a)
    }

    /// The graph with unlimited links of the given latency between two nodes.
    pub open spec fn joined(self, a: nat, b: nat, latency: Duration) -> Graph {
        self.with_bidi(
            NodeId(a as u32),
            NodeId(b as u32),
            plain_link(NodeId(a as u32), latency),
            plain_link(NodeId(b as u32), latency),
        )
    }
}

/// The graph with each of the first `k` nodes joined to the next one, the last
/// node to the first.
pub open spec fn ring_links(g: Graph, latency: Duration, k: nat) -> Graph
    decreases k,
{
    if k == 0 {
        g
    } else {
        ring_links(g, latency, (k - 1) as nat).joined((k - 1) as nat, k % g.links.len(), latency)
    }
}

/// The graph with `hub` joined to each node from `from` to below `to`.
pub open spec fn spoke_links(g: Graph, latency: Duration, hub: nat, from: nat, to: nat) -> Graph
    decreases to,
{
    if to <= from {
        g
    } else {
        spoke_links(g, latency, hub, from, (to - 1) as nat).joined(hub, (to - 1) as nat, latency)
    }
}

/// The graph with each of the first `k` nodes joined to all nodes of higher number.
pub open spec fn mesh_links(g: Graph, latency: Duration, k: nat) -> Graph
    decreases k,
{
    if k == 0 {
        g
    } else {
        spoke_links(
            mesh_links(g, latency, (k - 1) as nat),
            latency,
            (k - 1) as nat,
            k,
            g.links.len(),
        )
    }
}

/// The graph with each of the first `k` nodes joined to the next one.
pub open spec fn line_links(g: Graph, latency: Duration, k: nat) -> Graph
    decreases k,
{
    if k == 0 {
        g
    } else {
        line_links(g, latency, (k - 1) as nat).joined((k - 1) as nat, k, latency)
    }
}

/// The first link to `dst` in `row`, from place `k` on.
pub open spec fn first_link(row: Seq<Link>, dst: NodeId, k: int) -> Option<Link>
    decreases row.len() - k,
{
    if k >= row.len() {
        None
    } else if row[k].target == dst {
        Some(row[k])
    } else {
        first_link(row, dst, k + 1)
    }
}

/// The first link from `src` to `dst`.
pub open spec fn link_of(g: Graph, src: NodeId, dst: NodeId) -> Option<Link> {
    if g.has(src) {
        first_link(g.links[src.0 as int], dst, 0)
    } else {
        None
    }
}

/// The node at which a walk from `src` stands after `i` of its hops.
pub open spec fn stop(src: NodeId, hops: Seq<Link>, i: int) -> NodeId {
    if i <= 0 {
        src
    } else {
        hops[i - 1].target
    }
}

/// Whether hop `i` of a walk from `src` is a usable link of the node at which
/// the walk stands.
pub open spec fn is_hop(g: Graph, src: NodeId, hops: Seq<Link>, i: int) -> bool {
    &&& g.has(stop(src, hops, i))
    &&& g.links[stop(src, hops, i).0 as int].contains(hops[i])
    &&& g.live(stop(src, hops, i), hops[i])
}

/// Whether `hops` leads from `src` over usable links of the graph.
pub open spec fn is_walk(g: Graph, src: NodeId, hops: Seq<Link>) -> bool {
    forall|i: int| 0 <= i < hops.len() ==> #[trigger] is_hop(g, src, hops, i)
}

/// Whether `hops` leads from `src` to `dst` over usable links of the graph.
pub open spec fn joins(g: Graph, src: NodeId, hops: Seq<Link>, dst: NodeId) -> bool {
    is_walk(g, src, hops) && stop(src, hops, hops.len() as int) == dst
}

/// Whether `hops` leads from `src` to `dst`, and no other path does with a
/// lower latency.
pub open spec fn is_best(g: Graph, src: NodeId, hops: Seq<Link>, dst: NodeId) -> bool {
    &&& joins(g, src, hops, dst)
    &&& forall|other: Seq<Link>| #[trigger]
        joins(g, src, other, dst) ==> total(hops) <= total(other)
}

/// The sum of the latencies of a sequence of links.
pub open spec fn total(hops: Seq<Link>) -> nat
    decreases hops.len(),
{
    if hops.len() == 0 {
        0
    } else {
        total(hops.drop_last()) + hops.last().latency.0 as nat
    }
}

/// The best path to a node that a search has found so far.
#[derive(Debug, Clone, Copy, PartialEq, Eq, Structural)]
pub struct Label {
    /// The sum of the latencies of its links.
    pub cost: u128,
    /// The first node after the source.
    pub first: NodeId,
    /// The number of links on the path.
    pub hops: u32,
}

impl Label {
    /// Whether the cost is one that a path of so many links can have.
    pub open spec fn fits(self) -> bool {
        self.cost <= self.hops * 0xffff_ffff_ffff_ffff
    }
}

/// The cost of a label; a node without one is farther than any path leads.
pub open spec fn cost_of(label: Option<Label>) -> u128 {
    match label {
        Some(l) => l.cost,
        None => u128::MAX,
    }
}

/// The number of entries that are not set.
pub open spec fn unset(flags: Seq<bool>) -> nat
    decreases flags.len(),
{
    if flags.len() == 0 {
        0
    } else {
        unset(flags.drop_last()) + if flags.last() {
            0nat
        } else {
            1nat
        }
    }
}

/// Among the first `k` nodes, of those that are labelled and not settled, the
/// one of least cost, and of several such the one of highest number.
pub open spec fn nearest(labels: Seq<Option<Label>>, settled: Seq<bool>, k: nat) -> Option<nat>
    decreases k,
{
    if k == 0 {
        None
    } else {
        let best = nearest(labels, settled, (k - 1) as nat);
        if settled[k - 1] || labels[k - 1] is None {
            best
        } else {
            match best {
                Some(v) if cost_of(labels[v as int]) < cost_of(labels[k - 1]) => best,
                _ => Some((k - 1) as nat),
            }
        }
    }
}

/// How far a search for shortest paths has come.
#[verifier::ext_equal]
pub struct Search {
    /// The best path found so far to each node.
    pub labels: Seq<Option<Label>>,
    /// The nodes whose links have been followed.
    pub settled: Seq<bool>,
}

impl Search {
    /// The search from `src` at its start.
    pub open spec fn start(g: Graph, src: NodeId) -> Search {
        Search {
            labels: Seq::new(g.links.len(), |i: int| None).update(
                src.0 as int,
                Some(Label { cost: 0, first: src, hops: 0 }),
            ),
            settled: Seq::new(g.links.len(), |i: int| false),
        }
    }

    /// The search after following the first `k` links of `u`: a usable link that
    /// gives a strictly better path to its far end relabels it.
    pub open spec fn follow(self, g: Graph, src: NodeId, u: nat, k: nat) -> Search
        decreases k,
    {
        if k == 0 {
            self
        } else {
            let before = self.follow(g, src, u, (k - 1) as nat);
            let link = g.links[u as int][k - 1];
            let here = self.labels[u as int]->0;
            let cost = here.cost + link.latency.0;
            if g.live(NodeId(u as u32), link) && cost < cost_of(before.labels[link.target.0 as int]) {
                Search {
                    labels: before.labels.update(
                        link.target.0 as int,
                        Some(
                            Label {
                                cost: cost as u128,
                                first: if u == src.0 {
                                    link.target
                                } else {
                                    here.first
                                },
                                hops: (here.hops + 1) as u32,
                            },
                        ),
                    ),
                    settled: before.settled,
                }
            } else {
                before
            }
        }
    }

    /// The search after settling `u` and following all its links.
    pub open spec fn settle(self, g: Graph, src: NodeId, u: nat) -> Search {
        Search { labels: self.labels, settled: self.settled.update(u as int, true) }.follow(
            g,
            src,
            u,
            g.links[u as int].len(),
        )
    }

    /// The search carried on, always with the nearest node, until that is `dst`
    /// or none is left.
    pub open spec fn finish(self, g: Graph, src: NodeId, dst: NodeId) -> Search
        decreases unset(self.settled),
    {
        proof {
            self.lemma_settle_progress(g, src);
        }
        match nearest(self.labels, self.settled, self.settled.len()) {
            Some(v) if v != dst.0 => self.settle(g, src, v).finish(g, src, dst),
            _ => self,
        }
    }

    /// Settling the nearest node leaves fewer nodes to settle.
    pub proof fn lemma_settle_progress(self, g: Graph, src: NodeId)
        ensures
            nearest(self.labels, self.settled, self.settled.len()) matches Some(v) ==> unset(
                self.settle(g, src, v).settled,
            ) < unset(self.settled),
    {
        lemma_nearest(self.labels, self.settled, self.settled.len());
        if let Some(v) = nearest(self.labels, self.settled, self.settled.len()) {
            lemma_unset_update(self.settled, v as int);
            Search { labels: self.labels, settled: self.settled.update(v as int, true) }
                .lemma_follow_settled(g, src, v, g.links[v as int].len());
        }
    }

    /// Following links settles nothing.
    pub(crate) proof fn lemma_follow_settled(self, g: Graph, src: NodeId, u: nat, k: nat)
        ensures
            self.follow(g, src, u, k).settled == self.settled,
        decreases k,
    {
        if k > 0 {
            self.lemma_follow_settled(g, src, u, (k - 1) as nat);
        }
    }
}

/// What `nearest` finds is labelled, not settled, and nearest of all such.
pub(crate) proof fn lemma_nearest(labels: Seq<Option<Label>>, settled: Seq<bool>, k: nat)
    requires
        k <= settled.len(),
    ensures
        match nearest(labels, settled, k) {
            Some(v) => {
                &&& v < k
                &&& !settled[v as int]
                &&& labels[v as int] is Some
                &&& forall|w: int|
                    0 <= w < k && !(#[trigger] settled[w]) && labels[w] is Some ==> cost_of(
                        labels[v as int],
                    ) < cost_of(labels[w]) || (cost_of(labels[v as int]) == cost_of(labels[w]) && w
                        <= v)
            },
            None => forall|w: int|
                0 <= w < k && !(#[trigger] settled[w]) ==> labels[w] is None,
        },
    decreases k,
{
    if k > 0 {
        lemma_nearest(labels, settled, (k - 1) as nat);
    }
}

/// Setting an entry that was not set leaves one fewer.
pub(crate) proof fn lemma_unset_update(flags: Seq<bool>, i: int)
    requires
        0 <= i < flags.len(),
        !flags[i],
    ensures
        unset(flags.update(i, true)) + 1 == unset(flags),
    decreases flags.len(),
{
    let after = flags.update(i, true);
    if i == flags.len() - 1 {
        assert(after.drop_last() =~= flags.drop_last());
    } else {
        assert(after.drop_last() =~= flags.drop_last().update(i, true));
        lemma_unset_update(flags.drop_last(), i);
    }
}

/// The route from `src` to `dst`: none if either has failed, the empty one if
/// they are the same node, and otherwise the path that the search finds.
pub open spec fn route_of(g: Graph, src: NodeId, dst: NodeId) -> Option<Route> {
    if g.failed_nodes.contains(src) || g.failed_nodes.contains(dst) {
        None
    } else if src == dst {
        Some(Route { next_hop: dst, total_latency: Duration(0), hop_count: 0 })
    } else {
        match Search::start(g, src).finish(g, src, dst).labels[dst.0 as int] {
            Some(l) => Some(
                Route {
                    next_hop: l.first,
                    total_latency: Duration(saturated(l.cost as int)),
                    hop_count: l.hops,
                },
            ),
            None => None,
        }
    }
}

/// Whether `hops` is a path to `v` as `l` describes it.
pub open spec fn explains(g: Graph, src: NodeId, hops: Seq<Link>, v: NodeId, l: Label) -> bool {
    &&& joins(g, src, hops, v)
    &&& total(hops) == l.cost
    &&& hops.len() == l.hops
    &&& hops.len() > 0 ==> hops[0].target == l.first
}

/// Whether there is a path to `v` as `l` describes it.
pub open spec fn explained(g: Graph, src: NodeId, v: NodeId, l: Label) -> bool {
    exists|hops: Seq<Link>| #[trigger] explains(g, src, hops, v, l)
}

/// What holds of a search from `src` at any time before `dst` is settled.
pub open spec fn sound(g: Graph, src: NodeId, dst: NodeId, s: Search) -> bool {
    &&& s.labels.len() == g.links.len()
    &&& s.settled.len() == g.links.len()
    &&& !s.settled[dst.0 as int]
    &&& s.labels[src.0 as int] == Some(Label { cost: 0, first: src, hops: 0 })
    // a label tells of a path
    &&& forall|v: int|
        0 <= v < s.labels.len() && (#[trigger] s.labels[v]) is Some ==> {
            &&& s.labels[v]->0.fits()
            &&& s.labels[v]->0.hops + unset(s.settled) <= g.links.len()
            &&& explained(g, src, NodeId(v as u32), s.labels[v]->0)
        }
    // a settled node is no farther than one that is not
    &&& forall|u: int, v: int|
        #![trigger s.settled[u], s.settled[v]]
        0 <= u < s.labels.len() && 0 <= v < s.labels.len() && s.settled[u] && !s.settled[v]
            ==> s.labels[u] is Some && cost_of(s.labels[u]) <= cost_of(s.labels[v])
    // the links of a settled node have been followed
    &&& forall|u: int, k: int|
        0 <= u < s.labels.len() && s.settled[u] && 0 <= k < g.links[u].len() && g.live(
            NodeId(u as u32),
            #[trigger] g.links[u][k],
        ) ==> cost_of(s.labels[g.links[u][k].target.0 as int]) <= cost_of(s.labels[u])
            + g.links[u][k].latency.0
}

/// A walk grows by a usable link of its last node.
proof fn lemma_walk_extends(g: Graph, src: NodeId, hops: Seq<Link>, u: NodeId, link: Link)
    requires
        joins(g, src, hops, u),
        g.has(u),
        g.links[u.0 as int].contains(link),
        g.live(u, link),
    ensures
        joins(g, src, hops.push(link), link.target),
        total(hops.push(link)) == total(hops) + link.latency.0,
{
    let longer = hops.push(link);
    assert(longer.drop_last() =~= hops);
    assert forall|i: int| 0 <= i < longer.len() implies #[trigger] is_hop(g, src, longer, i) by {
        if i < hops.len() {
            assert(is_hop(g, src, hops, i));
        }
    }
}

/// The search is sound at its start.
pub(crate) proof fn lemma_start_sound(g: Graph, src: NodeId, dst: NodeId)
    requires
        g.wf(),
        g.has(src),
        g.has(dst),
    ensures
        sound(g, src, dst, Search::start(g, src)),
{
    let s = Search::start(g, src);
    let none: Seq<Link> = Seq::empty();
    lemma_unset_bound(s.settled);
    assert(explains(g, src, none, src, Label { cost: 0, first: src, hops: 0 }));
    assert forall|v: int| 0 <= v < s.labels.len() && (#[trigger] s.labels[v]) is Some implies {
        &&& s.labels[v]->0.fits()
        &&& s.labels[v]->0.hops + unset(s.settled) <= g.links.len()
        &&& explained(g, src, NodeId(v as u32), s.labels[v]->0)
    } by {
        assert(v == src.0);
        assert(NodeId(v as u32) == src);
    }
}

/// There are no more unset entries than entries.
proof fn lemma_unset_bound(flags: Seq<bool>)
    ensures
        unset(flags) <= flags.len(),
    decreases flags.len(),
{
    if flags.len() > 0 {
        lemma_unset_bound(flags.drop_last());
    }
}

/// An unset entry counts.
pub(crate) proof fn lemma_unset_positive(flags: Seq<bool>, i: int)
    requires
        0 <= i < flags.len(),
        !flags[i],
    ensures
        unset(flags) > 0,
{
    lemma_unset_update(flags, i);
}

/// What holds while the links of `u` are followed, after the first `k` of
/// them: `s` is the search before `u` was settled.
pub open spec fn sound_while_following(
    g: Graph,
    src: NodeId,
    s: Search,
    u: nat,
    k: nat,
    r: Search,
) -> bool {
    let cost = cost_of(s.labels[u as int]);
    &&& r.labels.len() == s.labels.len()
    &&& r.settled == s.settled.update(u as int, true)
    &&& forall|v: int|
        0 <= v < s.labels.len() && r.settled[v] ==> (#[trigger] r.labels[v]) == s.labels[v]
    &&& forall|v: int|
        0 <= v < s.labels.len() ==> cost_of(#[trigger] r.labels[v]) <= cost_of(s.labels[v])
    &&& forall|v: int|
        0 <= v < s.labels.len() && !r.settled[v] ==> cost <= cost_of(#[trigger] r.labels[v])
    &&& forall|v: int|
        0 <= v < r.labels.len() && (#[trigger] r.labels[v]) is Some ==> {
            &&& r.labels[v]->0.fits()
            &&& r.labels[v]->0.hops + unset(r.settled) <= g.links.len()
            &&& explained(g, src, NodeId(v as u32), r.labels[v]->0)
        }
    &&& forall|j: int|
        0 <= j < k && g.live(NodeId(u as u32), #[trigger] g.links[u as int][j]) ==> cost_of(
            r.labels[g.links[u as int][j].target.0 as int],
        ) <= cost + g.links[u as int][j].latency.0
}

/// Following one more link keeps what holds while following.
proof fn lemma_follow_one(
    g: Graph,
    src: NodeId,
    dst: NodeId,
    s: Search,
    u: nat,
    k: nat,
)
    requires
        g.wf(),
        g.has(src),
        g.has(dst),
        sound(g, src, dst, s),
        u < g.links.len(),
        u != dst.0,
        !s.settled[u as int],
        s.labels[u as int] is Some,
        forall|v: int|
            0 <= v < s.labels.len() && !(#[trigger] s.settled[v]) ==> cost_of(s.labels[u as int])
                <= cost_of(s.labels[v]),
        0 < k <= g.links[u as int].len(),
        sound_while_following(
            g,
            src,
            s,
            u,
            (k - 1) as nat,
            Search { labels: s.labels, settled: s.settled.update(u as int, true) }.follow(
                g,
                src,
                u,
                (k - 1) as nat,
            ),
        ),
    ensures
        sound_while_following(
            g,
            src,
            s,
            u,
            k,
            Search { labels: s.labels, settled: s.settled.update(u as int, true) }.follow(
                g,
                src,
                u,
                k,
            ),
        ),
{
    let s1 = Search { labels: s.labels, settled: s.settled.update(u as int, true) };
    let r = s1.follow(g, src, u, (k - 1) as nat);
    let q = s1.follow(g, src, u, k);
    let link = g.links[u as int][k - 1];
    let here = s.labels[u as int]->0;
    let cost = here.cost + link.latency.0;
    let t = link.target.0 as int;
    assert(g.has(link.target));
    assert(r.labels[u as int] == s.labels[u as int]);
    if g.live(NodeId(u as u32), link) && cost < cost_of(r.labels[t]) {
        // a settled node is never relabelled
        if r.settled[t] {
            assert(cost_of(s.labels[t]) <= here.cost) by {
                if t != u {
                    assert(s.settled[t]);
                    assert(!s.settled[u as int]);
                }
            }
            assert(false);
        }
        let node = NodeId(u as u32);
        assert(explained(g, src, node, r.labels[u as int]->0));
        let here_hops = choose|hops: Seq<Link>| #[trigger] explains(g, src, hops, node, here);
        assert(explains(g, src, here_hops, NodeId(u as u32), here));
        lemma_walk_extends(g, src, here_hops, NodeId(u as u32), link);
        let longer = here_hops.push(link);
        lemma_unset_positive(r.settled, dst.0 as int);
        lemma_unset_bound(r.settled);
        let fresh = q.labels[t]->0;
        // the bound on hops was for the search before u was settled
        lemma_unset_update(s.settled, u as int);
        assert(here.hops + unset(s.settled) <= g.links.len());
        assert(fresh.hops == here.hops + 1);
        assert(explains(g, src, longer, link.target, fresh)) by {
            if u == src.0 {
                assert(NodeId(u as u32) == src);
                assert(here == Label { cost: 0, first: src, hops: 0 });
                assert(here_hops.len() == 0);
                assert(longer[0] == link);
            } else {
                if here_hops.len() == 0 {
                    assert(NodeId(u as u32) == src);
                    assert(false);
                }
                assert(longer[0] == here_hops[0]);
            }
        }
        assert forall|v: int| 0 <= v < q.labels.len() && (#[trigger] q.labels[v]) is Some implies {
            &&& q.labels[v]->0.fits()
            &&& q.labels[v]->0.hops + unset(q.settled) <= g.links.len()
            &&& explained(g, src, NodeId(v as u32), q.labels[v]->0)
        } by {
            if v == t {
                assert(NodeId(v as u32) == link.target);
            } else {
                assert(q.labels[v] == r.labels[v]);
            }
        }
        assert forall|v: int| 0 <= v < s.labels.len() && q.settled[v] implies (
        #[trigger] q.labels[v]) == s.labels[v] by {
            assert(q.labels[v] == r.labels[v]);
        }
        assert forall|v: int| 0 <= v < s.labels.len() implies cost_of(#[trigger] q.labels[v])
            <= cost_of(s.labels[v]) by {
            assert(cost_of(r.labels[v]) <= cost_of(s.labels[v]));
        }
        assert forall|v: int| 0 <= v < s.labels.len() && !q.settled[v] implies here.cost <= cost_of(
            #[trigger] q.labels[v],
        ) by {
            if v != t {
                assert(q.labels[v] == r.labels[v]);
            }
        }
        assert forall|j: int|
            0 <= j < k && g.live(NodeId(u as u32), #[trigger] g.links[u as int][j]) implies cost_of(
            q.labels[g.links[u as int][j].target.0 as int],
        ) <= here.cost + g.links[u as int][j].latency.0 by {
            if j < k - 1 {
                assert(cost_of(r.labels[g.links[u as int][j].target.0 as int]) <= here.cost
                    + g.links[u as int][j].latency.0);
            }
        }
    } else {
        assert(q == r);
        assert forall|j: int|
            0 <= j < k && g.live(NodeId(u as u32), #[trigger] g.links[u as int][j]) implies cost_of(
            q.labels[g.links[u as int][j].target.0 as int],
        ) <= here.cost + g.links[u as int][j].latency.0 by {}
    }
}

/// What holds after following the first `k` links of the nearest node.
pub(crate) proof fn lemma_follow_sound(g: Graph, src: NodeId, dst: NodeId, s: Search, u: nat, k: nat)
    requires
        g.wf(),
        g.has(src),
        g.has(dst),
        sound(g, src, dst, s),
        u < g.links.len(),
        u != dst.0,
        !s.settled[u as int],
        s.labels[u as int] is Some,
        forall|v: int|
            0 <= v < s.labels.len() && !(#[trigger] s.settled[v]) ==> cost_of(s.labels[u as int])
                <= cost_of(s.labels[v]),
        k <= g.links[u as int].len(),
    ensures
        sound_while_following(
            g,
            src,
            s,
            u,
            k,
            Search { labels: s.labels, settled: s.settled.update(u as int, true) }.follow(
                g,
                src,
                u,
                k,
            ),
        ),
    decreases k,
{
    if k == 0 {
        lemma_unset_update(s.settled, u as int);
    } else {
        lemma_follow_sound(g, src, dst, s, u, (k - 1) as nat);
        lemma_follow_one(g, src, dst, s, u, k);
    }
}

/// The nearest node is no farther than any node that is not settled.
pub(crate) proof fn lemma_nearest_is_least(s: Search, u: nat)
    requires
        s.labels.len() == s.settled.len(),
        nearest(s.labels, s.settled, s.settled.len()) == Some(u),
    ensures
        u < s.settled.len(),
        !s.settled[u as int],
        s.labels[u as int] is Some,
        forall|v: int|
            0 <= v < s.labels.len() && !(#[trigger] s.settled[v]) ==> cost_of(s.labels[u as int])
                <= cost_of(s.labels[v]),
{
    lemma_nearest(s.labels, s.settled, s.settled.len());
}

/// Settling the nearest node keeps a search sound.
pub(crate) proof fn lemma_settle_sound(g: Graph, src: NodeId, dst: NodeId, s: Search, u: nat)
    requires
        g.wf(),
        g.has(src),
        g.has(dst),
        sound(g, src, dst, s),
        nearest(s.labels, s.settled, s.settled.len()) == Some(u),
        u != dst.0,
    ensures
        sound(g, src, dst, s.settle(g, src, u)),
{
    lemma_nearest_is_least(s, u);
    lemma_follow_sound(g, src, dst, s, u, g.links[u as int].len());
    let r = s.settle(g, src, u);
    assert(r.labels[src.0 as int] == Some(Label { cost: 0, first: src, hops: 0 })) by {
        if !r.settled[src.0 as int] {
            // a relabelled source would have a cost below zero
            assert(cost_of(r.labels[src.0 as int]) <= cost_of(s.labels[src.0 as int]));
            assert(r.labels[src.0 as int] is Some);
            let l = r.labels[src.0 as int]->0;
            assert(explained(g, src, NodeId(src.0 as u32), l));
            lemma_follow_keeps_zero(
                Search { labels: s.labels, settled: s.settled.update(u as int, true) },
                g,
                src,
                u,
                g.links[u as int].len(),
            );
        }
    }
    assert forall|a: int, b: int|
        #![trigger r.settled[a], r.settled[b]]
        0 <= a < r.labels.len() && 0 <= b < r.labels.len() && r.settled[a]
            && !r.settled[b] implies r.labels[a] is Some && cost_of(r.labels[a]) <= cost_of(
        r.labels[b],
    ) by {
        assert(r.labels[a] == s.labels[a]);
        assert(!s.settled[b]);
        if a != u {
            assert(s.settled[a]);
            assert(!s.settled[u as int]);
            assert(cost_of(s.labels[a]) <= cost_of(s.labels[u as int]));
        }
        assert(cost_of(s.labels[u as int]) <= cost_of(r.labels[b]));
    }
    assert forall|a: int, k: int|
        0 <= a < r.labels.len() && r.settled[a] && 0 <= k < g.links[a].len() && g.live(
            NodeId(a as u32),
            #[trigger] g.links[a][k],
        ) implies cost_of(r.labels[g.links[a][k].target.0 as int]) <= cost_of(r.labels[a])
        + g.links[a][k].latency.0 by {
        assert(r.labels[a] == s.labels[a]);
        if a != u {
            assert(s.settled[a]);
            let t = g.links[a][k].target.0 as int;
            assert(g.has(g.links[a][k].target));
            assert(cost_of(r.labels[t]) <= cost_of(s.labels[t]));
        }
    }
}

/// A node of cost zero is never relabelled.
proof fn lemma_follow_keeps_zero(s: Search, g: Graph, src: NodeId, u: nat, k: nat)
    requires
        s.labels.len() == g.links.len(),
        g.wf(),
        g.has(src),
        u < g.links.len(),
        k <= g.links[u as int].len(),
        cost_of(s.labels[src.0 as int]) == 0,
    ensures
        s.follow(g, src, u, k).labels.len() == g.links.len(),
        s.follow(g, src, u, k).labels[src.0 as int] == s.labels[src.0 as int],
    decreases k,
{
    if k > 0 {
        lemma_follow_keeps_zero(s, g, src, u, (k - 1) as nat);
        assert(g.has(g.links[u as int][k - 1].target));
    }
}

/// Carrying a sound search on keeps it sound, and it stops with `dst` nearest
/// or with nothing left to settle.
proof fn lemma_finish_sound(g: Graph, src: NodeId, dst: NodeId, s: Search)
    requires
        g.wf(),
        g.has(src),
        g.has(dst),
        sound(g, src, dst, s),
    ensures
        sound(g, src, dst, s.finish(g, src, dst)),
        ({
            let end = s.finish(g, src, dst);
            match nearest(end.labels, end.settled, end.settled.len()) {
                Some(v) => v == dst.0,
                None => true,
            }
        }),
    decreases unset(s.settled),
{
    s.lemma_settle_progress(g, src);
    match nearest(s.labels, s.settled, s.settled.len()) {
        Some(v) => {
            if v != dst.0 {
                lemma_settle_sound(g, src, dst, s, v);
                lemma_finish_sound(g, src, dst, s.settle(g, src, v));
            }
        },
        None => {},
    }
}

/// The sum of latencies of the first `i` hops grows with `i`.
pub(crate) proof fn lemma_total_take(hops: Seq<Link>, i: int)
    requires
        0 <= i <= hops.len(),
    ensures
        total(hops.take(i)) <= total(hops),
        i < hops.len() ==> total(hops.take(i + 1)) == total(hops.take(i)) + hops[i].latency.0,
    decreases hops.len() - i,
{
    if i < hops.len() {
        assert(hops.take(i + 1).drop_last() =~= hops.take(i));
        lemma_total_take(hops, i + 1);
    } else {
        assert(hops.take(i) =~= hops);
    }
}

/// On a walk whose first `i` stops are all settled, stop `i` is labelled, and no
/// farther than the walk up to there is long.
pub(crate) proof fn lemma_settled_prefix(
    g: Graph,
    src: NodeId,
    dst: NodeId,
    s: Search,
    hops: Seq<Link>,
    i: int,
)
    requires
        g.wf(),
        g.has(src),
        g.has(dst),
        sound(g, src, dst, s),
        is_walk(g, src, hops),
        0 <= i <= hops.len(),
        forall|j: int| 0 <= j < i ==> s.settled[(#[trigger] stop(src, hops, j)).0 as int],
    ensures
        g.has(stop(src, hops, i)),
        s.labels[stop(src, hops, i).0 as int] is Some,
        cost_of(s.labels[stop(src, hops, i).0 as int]) <= total(hops.take(i)),
    decreases i,
{
    if i > 0 {
        lemma_settled_prefix(g, src, dst, s, hops, i - 1);
        lemma_total_take(hops, i - 1);
        assert(is_hop(g, src, hops, i - 1));
        let u = stop(src, hops, i - 1);
        let link = hops[i - 1];
        assert(s.settled[u.0 as int]);
        let k = choose|k: int|
            0 <= k < g.links[u.0 as int].len() && g.links[u.0 as int][k] == link;
        assert(g.links[u.0 as int][k] == link);
        assert(NodeId(u.0 as u32) == u);
        assert(g.live(NodeId(u.0 as u32), g.links[u.0 as int][k]));
        assert(stop(src, hops, i) == link.target);
    } else {
        assert(hops.take(0) =~= Seq::<Link>::empty());
    }
}

/// A walk from `src` to a node that is not settled meets a first such node.
pub(crate) proof fn lemma_first_unsettled(
    src: NodeId,
    settled: Seq<bool>,
    hops: Seq<Link>,
    n: int,
) -> (i: int)
    requires
        0 <= n <= hops.len(),
        !settled[stop(src, hops, n).0 as int],
    ensures
        0 <= i <= n,
        !settled[stop(src, hops, i).0 as int],
        forall|j: int| 0 <= j < i ==> settled[(#[trigger] stop(src, hops, j)).0 as int],
    decreases n,
{
    if exists|j: int| 0 <= j < n && !settled[(#[trigger] stop(src, hops, j)).0 as int] {
        let j = choose|j: int| 0 <= j < n && !settled[(#[trigger] stop(src, hops, j)).0 as int];
        lemma_first_unsettled(src, settled, hops, j)
    } else {
        n
    }
}

/// A route is a shortest path. Between two different working nodes there is a
/// route if and only if some path over working links and nodes joins them. The
/// route then tells the first hop, the number of links and the latency of one
/// path, and no other path has a lower latency. A latency beyond the longest
/// representable duration is told as that duration.
pub proof fn route_is_shortest_path(g: Graph, src: NodeId, dst: NodeId)
    requires
        g.wf(),
        g.has(src),
        g.has(dst),
        src != dst,
        !g.failed_nodes.contains(src),
        !g.failed_nodes.contains(dst),
    ensures
        match route_of(g, src, dst) {
            Some(r) => {
                &&& r.hop_count > 0
                &&& g.has(r.next_hop)
                &&& exists|hops: Seq<Link>| #[trigger]
                    is_best(g, src, hops, dst) && saturated(total(hops) as int)
                        == r.total_latency.0 && hops.len() == r.hop_count && hops[0].target
                        == r.next_hop
            },
            None => forall|hops: Seq<Link>| !#[trigger] joins(g, src, hops, dst),
        },
{
    let s = Search::start(g, src);
    lemma_start_sound(g, src, dst);
    lemma_finish_sound(g, src, dst, s);
    let end = s.finish(g, src, dst);
    lemma_nearest(end.labels, end.settled, end.settled.len());
    assert forall|hops: Seq<Link>| #[trigger] joins(g, src, hops, dst) implies {
        &&& end.labels[dst.0 as int] is Some
        &&& cost_of(end.labels[dst.0 as int]) <= total(hops)
    } by {
        let i = lemma_first_unsettled(src, end.settled, hops, hops.len() as int);
        lemma_settled_prefix(g, src, dst, end, hops, i);
        lemma_total_take(hops, i);
        let w = stop(src, hops, i).0 as int;
        assert(!end.settled[w]);
    }
    if let Some(l) = end.labels[dst.0 as int] {
        assert(NodeId(dst.0 as u32) == dst);
        assert(explained(g, src, dst, l));
        let hops = choose|hops: Seq<Link>| #[trigger] explains(g, src, hops, dst, l);
        assert(explains(g, src, hops, dst, l));
        if hops.len() == 0 {
            assert(false);
        }
        assert(is_best(g, src, hops, dst));
        assert(is_hop(g, src, hops, 0));
        let k = choose|k: int|
            0 <= k < g.links[src.0 as int].len() && g.links[src.0 as int][k] == hops[0];
        assert(g.has(g.links[src.0 as int][k].target));
    }
}

} // verus!
