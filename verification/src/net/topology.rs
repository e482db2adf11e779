//! Network topologies: graphs of nodes and links with shortest-path routing.

use vstd::prelude::*;

use vstd::std_specs::convert::IntoSpec;

use crate::net::graph::{
    cost_of, first_link, line_links, link_of, mesh_links, nearest, plain_link, ring_links, route_of,
    sound, spoke_links, unset, Graph, Label, Link, Route, Search,
};
use crate::net::node::NodeId;
use crate::net::pairs::{NodeSet, PairMap, PairSet};
use crate::net::policy::DropPolicy;
use crate::time::Duration;

verus! {

/// A network topology with its current failures. Routes are computed when they
/// are first asked for and kept until the topology changes.
#[derive(Debug)]
pub struct Topology {
    links: Vec<Vec<Link>>,
    failed_links: PairSet,
    failed_nodes: NodeSet,
    routes: PairMap<Route>,
}

impl View for Topology {
    type V = Graph;

    closed spec fn view(&self) -> Graph {
        Graph {
            links: self.links@.map_values(|v: Vec<Link>| v@),
            failed_links: self.failed_links@,
            failed_nodes: self.failed_nodes@,
        }
    }
}

impl Topology {
    /// The graph is well-formed, and every kept route is the one that the graph gives.
    #[verifier::type_invariant]
    spec fn consistent(self) -> bool {
        &&& self@.wf()
        &&& forall|a: NodeId, b: NodeId| #[trigger]
            self.routes@.contains_key((a, b)) ==> route_of(self@, a, b) == Some(
                self.routes@[(a, b)],
            )
    }

    /// The routes that are kept.
    pub closed spec fn cached(&self) -> Map<(NodeId, NodeId), Route> {
        self.routes@
    }

    /// Creates a topology of `node_count` nodes without links.
    pub fn new(node_count: usize) -> (t: Topology)
        requires
            node_count <= u32::MAX,
        ensures
            t@ == Graph::empty(node_count as nat),
            t.cached() == Map::<(NodeId, NodeId), Route>::empty(),
    {
        let mut links: Vec<Vec<Link>> = Vec::new();
        let mut i: usize = 0;
        while i < node_count
            invariant
                i <= node_count,
                links.len() == i,
                forall|k: int| 0 <= k < i ==> (#[trigger] links@[k])@ == Seq::<Link>::empty(),
            decreases node_count - i,
        {
            links.push(Vec::new());
            i = i + 1;
        }
        let t = Topology {
            links,
            failed_links: PairSet::new(),
            failed_nodes: NodeSet::new(),
            routes: PairMap::new(),
        };
        assert(t@.links =~= Graph::empty(node_count as nat).links);
        t
    }

    /// The number of nodes.
    pub fn node_count(&self) -> (n: usize)
        ensures
            n == self@.links.len(),
            self@.wf(),
    {
        proof {
            use_type_invariant(self);
        }
        self.links.len()
    }

    /// All nodes, in order.
    pub fn nodes(&self) -> (nodes: Vec<NodeId>)
        ensures
            nodes.len() == self@.links.len(),
            forall|i: int| 0 <= i < nodes.len() ==> (#[trigger] nodes[i]).0 == i,
    {
        let n: usize = self.node_count();
        let mut nodes: Vec<NodeId> = Vec::new();
        let mut i: usize = 0;
        while i < n
            invariant
                i <= n <= u32::MAX,
                nodes.len() == i,
                forall|k: int| 0 <= k < i ==> (#[trigger] nodes[k]).0 == k,
            decreases n - i,
        {
            nodes.push(NodeId(i as u32));
            i = i + 1;
        }
        nodes
    }

    /// Drops all kept routes.
    pub fn clear_route_cache(&mut self)
        ensures
            final(self)@ == old(self)@,
            final(self).cached() == Map::<(NodeId, NodeId), Route>::empty(),
    {
        proof {
            use_type_invariant(&*self);
        }
        self.routes = PairMap::new();
    }

    /// Adds a directed link with an explicit admission policy. A link with an
    /// end outside the topology is ignored.
    pub fn add_link_full_with_policy(
        &mut self,
        src: NodeId,
        dst: NodeId,
        latency: Duration,
        bandwidth: Option<u64>,
        buffer_bytes: Option<u64>,
        drop_policy: DropPolicy,
    )
        ensures
            final(self)@ == old(self)@.with_link(
                src,
                Link { target: dst, latency, bandwidth, buffer_bytes, drop_policy },
            ),
            final(self).cached() == Map::<(NodeId, NodeId), Route>::empty(),
    {
        proof {
            use_type_invariant(&*self);
        }
        self.clear_route_cache();
        let link = Link { target: dst, latency, bandwidth, buffer_bytes, drop_policy };
        let n: usize = self.links.len();
        if src.as_usize() < n && dst.as_usize() < n {
            let mut links: Vec<Vec<Link>> = Vec::new();
            core::mem::swap(&mut links, &mut self.links);
            links[src.as_usize()].push(link);
            let ghost after = old(self)@.with_link(src, link);
            proof {
                assert(links@.map_values(|v: Vec<Link>| v@) =~= after.links);
                assert forall|u: int, k: int|
                    0 <= u < after.links.len() && 0 <= k < after.links[u].len() implies after.has(
                    (#[trigger] after.links[u][k]).target,
                ) by {
                    if u != src.0 || k < old(self)@.links[u].len() {
                        assert(after.links[u][k] == old(self)@.links[u][k]);
                    }
                }
            }
            self.links = links;
        }
    }

    /// The first link from `src` to `dst`.
    pub fn link_between(&self, src: NodeId, dst: NodeId) -> (r: Option<&Link>)
        ensures
            r == (match link_of(self@, src, dst) {
                Some(link) => Some(&link),
                None => None,
            }),
    {
        let s: usize = src.as_usize();
        if s >= self.links.len() {
            return None;
        }
        let ghost row = self@.links[src.0 as int];
        let mut k: usize = 0;
        while k < self.links[s].len()
            invariant
                s == src.0,
                s < self.links.len(),
                row == self@.links[src.0 as int],
                row == self.links@[s as int]@,
                k <= row.len(),
                first_link(row, dst, 0) == first_link(row, dst, k as int),
            decreases row.len() - k,
        {
            if self.links[s][k].target == dst {
                return Some(&self.links[s][k]);
            }
            k = k + 1;
        }
        None
    }

    /// The outgoing links of a node, in the order in which they were added.
    pub fn links_from(&self, node: NodeId) -> (r: &[Link])
        ensures
            r@ == (if self@.has(node) {
                self@.links[node.0 as int]
            } else {
                Seq::<Link>::empty()
            }),
    {
        if node.as_usize() < self.links.len() {
            self.links[node.as_usize()].as_slice()
        } else {
            &[]
        }
    }
}

impl Topology {
    /// Of the labelled nodes that are not settled, the one of least cost, and of
    /// several such the one of highest number.
    fn find_nearest(labels: &Vec<Option<Label>>, settled: &Vec<bool>) -> (r: Option<usize>)
        requires
            labels.len() == settled.len(),
        ensures
            match nearest(labels@, settled@, settled.len() as nat) {
                Some(v) => r == Some(v as usize) && v < settled.len(),
                None => r is None,
            },
    {
        let mut best: Option<usize> = None;
        let mut best_cost: u128 = u128::MAX;
        let mut k: usize = 0;
        while k < settled.len()
            invariant
                labels.len() == settled.len(),
                k <= settled.len(),
                match nearest(labels@, settled@, k as nat) {
                    Some(v) => best == Some(v as usize) && v < k && best_cost == cost_of(
                        labels@[v as int],
                    ),
                    None => best is None,
                },
            decreases settled.len() - k,
        {
            if !settled[k] {
                if let Some(label) = labels[k] {
                    if best.is_none() || label.cost <= best_cost {
                        best = Some(k);
                        best_cost = label.cost;
                    }
                }
            }
            k = k + 1;
        }
        best
    }

    /// Searches for the shortest path from `src` to `dst`.
    fn compute_route(&self, src: NodeId, dst: NodeId) -> (r: Option<Route>)
        requires
            self@.has(src),
            self@.has(dst),
            src != dst,
            !self@.failed_nodes.contains(src),
            !self@.failed_nodes.contains(dst),
        ensures
            r == route_of(self@, src, dst),
    {
        proof {
            use_type_invariant(self);
        }
        let n: usize = self.links.len();
        let mut labels: Vec<Option<Label>> = Vec::new();
        let mut settled: Vec<bool> = Vec::new();
        let mut i: usize = 0;
        while i < n
            invariant
                i <= n,
                labels.len() == i,
                settled.len() == i,
                forall|k: int| 0 <= k < i ==> #[trigger] labels@[k] is None,
                forall|k: int| 0 <= k < i ==> !#[trigger] settled@[k],
            decreases n - i,
        {
            labels.push(None);
            settled.push(false);
            i = i + 1;
        }
        labels.set(src.as_usize(), Some(Label { cost: 0, first: src, hops: 0 }));
        let ghost g = self@;
        let ghost start = Search::start(g, src);
        proof {
            assert(labels@ =~= start.labels);
            assert(settled@ =~= start.settled);
            crate::net::graph::lemma_start_sound(g, src, dst);
        }
        let mut running: bool = true;
        while running
            invariant
                g == self@,
                g.wf(),
                g.has(src),
                g.has(dst),
                n == g.links.len(),
                n == self.links.len(),
                sound(g, src, dst, Search { labels: labels@, settled: settled@ }),
                start.finish(g, src, dst) == (Search { labels: labels@, settled: settled@ }).finish(
                    g,
                    src,
                    dst,
                ),
                !running ==> start.finish(g, src, dst) == (Search {
                    labels: labels@,
                    settled: settled@,
                }),
            decreases unset(settled@), (if running { 1int } else { 0int }),
        {
            let ghost s = Search { labels: labels@, settled: settled@ };
            proof {
                s.lemma_settle_progress(g, src);
            }
            match Self::find_nearest(&labels, &settled) {
                Some(u) if u != dst.as_usize() => {
                    proof {
                        crate::net::graph::lemma_settle_sound(g, src, dst, s, u as nat);
                        crate::net::graph::lemma_nearest_is_least(s, u as nat);
                        crate::net::graph::lemma_unset_positive(s.settled, dst.0 as int);
                    }
                    self.settle(&mut labels, &mut settled, src, u);
                },
                _ => {
                    running = false;
                },
            }
        }
        match labels[dst.as_usize()] {
            Some(l) => Some(
                Route {
                    next_hop: l.first,
                    total_latency: Duration(
                        if l.cost < 0xffff_ffff_ffff_ffff {
                            l.cost as u64
                        } else {
                            u64::MAX
                        },
                    ),
                    hop_count: l.hops,
                },
            ),
            None => None,
        }
    }

    /// Settles node `u` and follows its links.
    fn settle(
        &self,
        labels: &mut Vec<Option<Label>>,
        settled: &mut Vec<bool>,
        src: NodeId,
        u: usize,
    )
        requires
            self@.wf(),
            self@.has(src),
            u < self@.links.len(),
            old(labels).len() == self@.links.len(),
            old(settled).len() == self@.links.len(),
            old(labels)@[u as int] is Some,
            old(labels)@[u as int]->0.hops < u32::MAX,
            old(labels)@[u as int]->0.fits(),
        ensures
            (Search { labels: final(labels)@, settled: final(settled)@ }) == (Search {
                labels: old(labels)@,
                settled: old(settled)@,
            }).settle(self@, src, u as nat),
    {
        let ghost g = self@;
        let ghost s = Search {
            labels: labels@,
            settled: settled@.update(u as int, true),
        };
        settled.set(u, true);
        let here: Label = match labels[u] {
            Some(l) => l,
            None => Label { cost: 0, first: src, hops: 0 },
        };
        let node: NodeId = NodeId(u as u32);
        let mut k: usize = 0;
        while k < self.links[u].len()
            invariant
                g == self@,
                g.wf(),
                g.has(src),
                node.0 == u,
                u < g.links.len(),
                g.links.len() == self.links.len(),
                g.links[u as int] == self.links@[u as int]@,
                k <= g.links[u as int].len(),
                labels.len() == g.links.len(),
                s.labels[u as int] == Some(here),
                here.hops < u32::MAX,
                here.fits(),
                (Search { labels: labels@, settled: settled@ }) == s.follow(
                    g,
                    src,
                    u as nat,
                    k as nat,
                ),
            decreases g.links[u as int].len() - k,
        {
            let link: Link = self.links[u][k];
            proof {
                assert(g.links[u as int][k as int] == link);
                assert(g.has(link.target));
            }
            if !self.failed_links.contains(node, link.target) && !self.failed_nodes.contains(
                link.target,
            ) {
                let cost: u128 = here.cost + link.latency.0 as u128;
                let best: u128 = match labels[link.target.as_usize()] {
                    Some(l) => l.cost,
                    None => u128::MAX,
                };
                if cost < best {
                    let first: NodeId = if node == src {
                        link.target
                    } else {
                        here.first
                    };
                    labels.set(
                        link.target.as_usize(),
                        Some(Label { cost, first, hops: here.hops + 1 }),
                    );
                }
            }
            k = k + 1;
        }
    }
}

impl Topology {
    /// The shortest route from `src` to `dst`, if there is one. A node that has
    /// failed has no route, not even to itself.
    pub fn route(&mut self, src: NodeId, dst: NodeId) -> (r: Option<Route>)
        requires
            old(self)@.spans(src, dst),
        ensures
            r == route_of(old(self)@, src, dst),
            final(self)@ == old(self)@,
            forall|a: NodeId, b: NodeId| #[trigger]
                old(self).cached().contains_key((a, b)) ==> final(self).cached().contains_key(
                    (a, b),
                ),
            src != dst && r is Some ==> final(self).cached().contains_key((src, dst)),
    {
        proof {
            use_type_invariant(&*self);
        }
        if self.failed_nodes.contains(src) || self.failed_nodes.contains(dst) {
            return None;
        }
        if src == dst {
            return Some(Route { next_hop: dst, total_latency: Duration(0), hop_count: 0 });
        }
        if let Some(route) = self.routes.get(src, dst) {
            return Some(route);
        }
        let found = self.compute_route(src, dst);
        if let Some(route) = found {
            let mut routes: PairMap<Route> = PairMap::new();
            core::mem::swap(&mut routes, &mut self.routes);
            routes.insert(src, dst, route);
            self.routes = routes;
        }
        found
    }

    /// Whether a route from `src` to `dst` can be asked for.
    pub fn can_route(&self, src: NodeId, dst: NodeId) -> (r: bool)
        ensures
            r == self@.spans(src, dst),
    {
        let n: usize = self.links.len();
        src == dst || self.failed_nodes.contains(src) || self.failed_nodes.contains(dst) || (
        src.as_usize() < n && dst.as_usize() < n)
    }

    /// Computes and keeps all routes.
    pub fn precompute_routes(&mut self)
        ensures
            final(self)@ == old(self)@,
            forall|a: NodeId, b: NodeId|
                a != b && old(self)@.has(a) && old(self)@.has(b) && #[trigger] route_of(
                    old(self)@,
                    a,
                    b,
                ) is Some ==> final(self).cached().contains_key((a, b)),
    {
        let n: usize = self.node_count();
        let ghost g = self@;
        let mut src: usize = 0;
        while src < n
            invariant
                n == g.links.len(),
                n <= u32::MAX,
                src <= n,
                self@ == g,
                forall|a: NodeId, b: NodeId|
                    a != b && a.0 < src && g.has(b) && #[trigger] route_of(g, a, b) is Some
                        ==> self.cached().contains_key((a, b)),
            decreases n - src,
        {
            let mut dst: usize = 0;
            while dst < n
                invariant
                    n == g.links.len(),
                    n <= u32::MAX,
                    src < n,
                    dst <= n,
                    self@ == g,
                    forall|a: NodeId, b: NodeId|
                        a != b && g.has(b) && (a.0 < src || (a.0 == src && b.0 < dst))
                            && #[trigger] route_of(g, a, b) is Some ==> self.cached().contains_key(
                            (a, b),
                        ),
                decreases n - dst,
            {
                if src != dst {
                    self.route(NodeId(src as u32), NodeId(dst as u32));
                }
                dst = dst + 1;
            }
            src = src + 1;
        }
    }

    /// Marks the directed edge from `src` to `dst` as failed, whether or not there
    /// is such a link.
    pub fn fail_link_directed(&mut self, src: NodeId, dst: NodeId)
        ensures
            final(self)@ == old(self)@.with_failed_link(src, dst),
    {
        if !self.failed_links.contains(src, dst) {
            self.clear_route_cache();
            proof {
                use_type_invariant(&*self);
            }
            let mut edges: PairSet = PairSet::new();
            core::mem::swap(&mut edges, &mut self.failed_links);
            edges.insert(src, dst);
            self.failed_links = edges;
        }
        assert(self@ =~= old(self)@.with_failed_link(src, dst));
    }

    /// Restores the directed edge from `src` to `dst`.
    pub fn heal_link_directed(&mut self, src: NodeId, dst: NodeId)
        ensures
            final(self)@ == old(self)@.with_healed_link(src, dst),
    {
        if self.failed_links.contains(src, dst) {
            self.clear_route_cache();
            proof {
                use_type_invariant(&*self);
            }
            let mut edges: PairSet = PairSet::new();
            core::mem::swap(&mut edges, &mut self.failed_links);
            edges.remove(src, dst);
            self.failed_links = edges;
        }
        assert(self@ =~= old(self)@.with_healed_link(src, dst));
    }

    /// Whether the directed edge from `src` to `dst` has failed.
    pub fn is_link_failed_directed(&self, src: NodeId, dst: NodeId) -> (r: bool)
        ensures
            r == self@.failed_links.contains((src, dst)),
    {
        self.failed_links.contains(src, dst)
    }

    /// Marks the edges between `a` and `b` as failed in both directions.
    pub fn fail_link(&mut self, a: NodeId, b: NodeId)
        ensures
            final(self)@ == old(self)@.with_failed_link(a, b).with_failed_link(b, a),
    {
        self.fail_link_directed(a, b);
        self.fail_link_directed(b, a);
    }

    /// Restores the edges between `a` and `b` in both directions.
    pub fn heal_link(&mut self, a: NodeId, b: NodeId)
        ensures
            final(self)@ == old(self)@.with_healed_link(a, b).with_healed_link(b, a),
    {
        self.heal_link_directed(a, b);
        self.heal_link_directed(b, a);
    }

    /// Whether the edges between `a` and `b` have failed in both directions.
    pub fn is_link_failed(&self, a: NodeId, b: NodeId) -> (r: bool)
        ensures
            r == (self@.failed_links.contains((a, b)) && self@.failed_links.contains((b, a))),
    {
        self.is_link_failed_directed(a, b) && self.is_link_failed_directed(b, a)
    }

    /// Marks `node` as failed: no route starts, ends or passes there.
    pub fn fail_node(&mut self, node: NodeId)
        ensures
            final(self)@ == old(self)@.with_failed_node(node),
    {
        if !self.failed_nodes.contains(node) {
            self.clear_route_cache();
            proof {
                use_type_invariant(&*self);
            }
            let mut nodes: NodeSet = NodeSet::new();
            core::mem::swap(&mut nodes, &mut self.failed_nodes);
            nodes.insert(node);
            self.failed_nodes = nodes;
        }
        assert(self@ =~= old(self)@.with_failed_node(node));
    }

    /// Restores `node`. Failed edges of it stay failed.
    pub fn heal_node(&mut self, node: NodeId)
        ensures
            final(self)@ == old(self)@.with_healed_node(node),
    {
        if self.failed_nodes.contains(node) {
            self.clear_route_cache();
            proof {
                use_type_invariant(&*self);
            }
            let mut nodes: NodeSet = NodeSet::new();
            core::mem::swap(&mut nodes, &mut self.failed_nodes);
            nodes.remove(node);
            self.failed_nodes = nodes;
        }
        assert(self@ =~= old(self)@.with_healed_node(node));
    }

    /// Whether `node` has failed.
    pub fn is_node_failed(&self, node: NodeId) -> (r: bool)
        ensures
            r == self@.failed_nodes.contains(node),
    {
        self.failed_nodes.contains(node)
    }

    /// Adds a directed link of unlimited bandwidth.
    pub fn add_link(&mut self, src: NodeId, dst: NodeId, latency: Duration)
        ensures
            final(self)@ == old(self)@.with_link(src, plain_link(dst, latency)),
    {
        self.add_link_full(src, dst, latency, None, None);
    }

    /// Adds a directed link with an optional bandwidth in bytes per second.
    pub fn add_link_with_bandwidth(
        &mut self,
        src: NodeId,
        dst: NodeId,
        latency: Duration,
        bandwidth: Option<u64>,
    )
        ensures
            final(self)@ == old(self)@.with_link(
                src,
                Link { bandwidth, ..plain_link(dst, latency) },
            ),
    {
        self.add_link_full(src, dst, latency, bandwidth, None);
    }

    /// Adds a directed link with an optional bandwidth and an optional buffer.
    pub fn add_link_full(
        &mut self,
        src: NodeId,
        dst: NodeId,
        latency: Duration,
        bandwidth: Option<u64>,
        buffer_bytes: Option<u64>,
    )
        ensures
            final(self)@ == old(self)@.with_link(
                src,
                Link { bandwidth, buffer_bytes, ..plain_link(dst, latency) },
            ),
    {
        self.add_link_full_with_policy(
            src,
            dst,
            latency,
            bandwidth,
            buffer_bytes,
            DropPolicy::TailDrop,
        );
    }

    /// Adds links of unlimited bandwidth in both directions.
    pub fn add_bidi_link(&mut self, a: NodeId, b: NodeId, latency: Duration)
        ensures
            final(self)@ == old(self)@.with_bidi(
                a,
                b,
                plain_link(a, latency),
                plain_link(b, latency),
            ),
    {
        self.add_link(a, b, latency);
        self.add_link(b, a, latency);
    }
}

impl Clone for Topology {
    fn clone(&self) -> (t: Topology)
        ensures
            t@ == self@,
    {
        proof {
            use_type_invariant(self);
        }
        let mut links: Vec<Vec<Link>> = Vec::new();
        let mut i: usize = 0;
        while i < self.links.len()
            invariant
                i <= self.links.len(),
                links.len() == i,
                forall|k: int| 0 <= k < i ==> (#[trigger] links@[k])@ == self.links@[k]@,
            decreases self.links.len() - i,
        {
            let mut row: Vec<Link> = Vec::new();
            let mut k: usize = 0;
            while k < self.links[i].len()
                invariant
                    i < self.links.len(),
                    k <= self.links@[i as int]@.len(),
                    row@ == self.links@[i as int]@.take(k as int),
                decreases self.links@[i as int]@.len() - k,
            {
                row.push(self.links[i][k]);
                k = k + 1;
            }
            assert(row@ =~= self.links@[i as int]@);
            links.push(row);
            i = i + 1;
        }
        assert(links@.map_values(|v: Vec<Link>| v@) =~= self@.links);
        Topology {
            links,
            failed_links: self.failed_links.clone(),
            failed_nodes: self.failed_nodes.clone(),
            routes: PairMap::new(),
        }
    }
}

/// A builder of topologies.
#[derive(Debug)]
pub struct TopologyBuilder {
    topology: Topology,
}

impl View for TopologyBuilder {
    type V = Graph;

    closed spec fn view(&self) -> Graph {
        self.topology@
    }
}

impl TopologyBuilder {
    /// Starts a topology of `node_count` nodes.
    pub fn new(node_count: usize) -> (b: TopologyBuilder)
        requires
            node_count <= u32::MAX,
        ensures
            b@ == Graph::empty(node_count as nat),
    {
        TopologyBuilder { topology: Topology::new(node_count) }
    }

    /// Adds links of unlimited bandwidth in both directions.
    pub fn link<A: Into<NodeId>, B: Into<NodeId>>(
        self,
        a: A,
        b: B,
        latency: Duration,
    ) -> (r: TopologyBuilder)
        ensures
            <A as IntoSpec<NodeId>>::obeys_into_spec() && <B as IntoSpec<NodeId>>::obeys_into_spec()
                ==> r@ == self@.with_bidi(
                a.into_spec(),
                b.into_spec(),
                plain_link(a.into_spec(), latency),
                plain_link(b.into_spec(), latency),
            ),
    {
        let mut topology = self.topology;
        let a: NodeId = a.into();
        let b: NodeId = b.into();
        topology.add_bidi_link(a, b, latency);
        TopologyBuilder { topology }
    }

    /// Adds a link of unlimited bandwidth from `a` to `b`.
    pub fn directed_link<A: Into<NodeId>, B: Into<NodeId>>(
        self,
        a: A,
        b: B,
        latency: Duration,
    ) -> (r: TopologyBuilder)
        ensures
            <A as IntoSpec<NodeId>>::obeys_into_spec() && <B as IntoSpec<NodeId>>::obeys_into_spec()
                ==> r@ == self@.with_link(
                a.into_spec(),
                plain_link(b.into_spec(), latency),
            ),
    {
        let mut topology = self.topology;
        let a: NodeId = a.into();
        let b: NodeId = b.into();
        topology.add_link(a, b, latency);
        TopologyBuilder { topology }
    }

    /// Adds links in both directions, with a latency for each.
    pub fn link_asymmetric<A: Into<NodeId>, B: Into<NodeId>>(
        self,
        a: A,
        b: B,
        lat_ab: Duration,
        lat_ba: Duration,
    ) -> (r: TopologyBuilder)
        ensures
            <A as IntoSpec<NodeId>>::obeys_into_spec() && <B as IntoSpec<NodeId>>::obeys_into_spec()
                ==> r@ == self@.with_bidi(
                a.into_spec(),
                b.into_spec(),
                plain_link(a.into_spec(), lat_ba),
                plain_link(b.into_spec(), lat_ab),
            ),
    {
        let mut topology = self.topology;
        let a: NodeId = a.into();
        let b: NodeId = b.into();
        topology.add_link(a, b, lat_ab);
        topology.add_link(b, a, lat_ba);
        TopologyBuilder { topology }
    }

    /// Adds links of the given bandwidth, in bytes per second, in both directions.
    pub fn link_with_capacity<A: Into<NodeId>, B: Into<NodeId>>(
        self,
        a: A,
        b: B,
        latency: Duration,
        bandwidth_bps: u64,
    ) -> (r: TopologyBuilder)
        ensures
            <A as IntoSpec<NodeId>>::obeys_into_spec() && <B as IntoSpec<NodeId>>::obeys_into_spec()
                ==> r@ == self@.with_bidi(
                a.into_spec(),
                b.into_spec(),
                Link { bandwidth: Some(bandwidth_bps), ..plain_link(a.into_spec(), latency) },
                Link { bandwidth: Some(bandwidth_bps), ..plain_link(b.into_spec(), latency) },
            ),
    {
        let mut topology = self.topology;
        let a: NodeId = a.into();
        let b: NodeId = b.into();
        topology.add_link_with_bandwidth(a, b, latency, Some(bandwidth_bps));
        topology.add_link_with_bandwidth(b, a, latency, Some(bandwidth_bps));
        TopologyBuilder { topology }
    }

    /// Adds a link of the given bandwidth, in bytes per second, from `a` to `b`.
    pub fn directed_link_with_capacity<A: Into<NodeId>, B: Into<NodeId>>(
        self,
        a: A,
        b: B,
        latency: Duration,
        bandwidth_bps: u64,
    ) -> (r: TopologyBuilder)
        ensures
            <A as IntoSpec<NodeId>>::obeys_into_spec() && <B as IntoSpec<NodeId>>::obeys_into_spec()
                ==> r@ == self@.with_link(
                a.into_spec(),
                Link { bandwidth: Some(bandwidth_bps), ..plain_link(b.into_spec(), latency) },
            ),
    {
        let mut topology = self.topology;
        let a: NodeId = a.into();
        let b: NodeId = b.into();
        topology.add_link_with_bandwidth(a, b, latency, Some(bandwidth_bps));
        TopologyBuilder { topology }
    }

    /// Adds links of the given bandwidth and buffer in both directions.
    pub fn link_with_capacity_and_buffer<A: Into<NodeId>, B: Into<NodeId>>(
        self,
        a: A,
        b: B,
        latency: Duration,
        bandwidth_bps: u64,
        buffer_bytes: u64,
    ) -> (r: TopologyBuilder)
        ensures
            <A as IntoSpec<NodeId>>::obeys_into_spec() && <B as IntoSpec<NodeId>>::obeys_into_spec()
                ==> r@ == self@.with_bidi(
                a.into_spec(),
                b.into_spec(),
                Link { bandwidth: Some(bandwidth_bps), buffer_bytes: Some(buffer_bytes), ..plain_link(a.into_spec(), latency) },
                Link { bandwidth: Some(bandwidth_bps), buffer_bytes: Some(buffer_bytes), ..plain_link(b.into_spec(), latency) },
            ),
    {
        let mut topology = self.topology;
        let a: NodeId = a.into();
        let b: NodeId = b.into();
        topology.add_link_full(a, b, latency, Some(bandwidth_bps), Some(buffer_bytes));
        topology.add_link_full(b, a, latency, Some(bandwidth_bps), Some(buffer_bytes));
        TopologyBuilder { topology }
    }

    /// Adds a link of the given bandwidth and buffer from `a` to `b`.
    pub fn directed_link_with_capacity_and_buffer<A: Into<NodeId>, B: Into<NodeId>>(
        self,
        a: A,
        b: B,
        latency: Duration,
        bandwidth_bps: u64,
        buffer_bytes: u64,
    ) -> (r: TopologyBuilder)
        ensures
            <A as IntoSpec<NodeId>>::obeys_into_spec() && <B as IntoSpec<NodeId>>::obeys_into_spec()
                ==> r@ == self@.with_link(
                a.into_spec(),
                Link { bandwidth: Some(bandwidth_bps), buffer_bytes: Some(buffer_bytes), ..plain_link(b.into_spec(), latency) },
            ),
    {
        let mut topology = self.topology;
        let a: NodeId = a.into();
        let b: NodeId = b.into();
        topology.add_link_full(a, b, latency, Some(bandwidth_bps), Some(buffer_bytes));
        TopologyBuilder { topology }
    }

    /// Adds links of the given bandwidth, buffer and admission policy in both
    /// directions.
    pub fn link_with_policy<A: Into<NodeId>, B: Into<NodeId>>(
        self,
        a: A,
        b: B,
        latency: Duration,
        bandwidth_bps: u64,
        buffer_bytes: u64,
        policy: DropPolicy,
    ) -> (r: TopologyBuilder)
        ensures
            <A as IntoSpec<NodeId>>::obeys_into_spec() && <B as IntoSpec<NodeId>>::obeys_into_spec()
                ==> r@ == self@.with_bidi(
                a.into_spec(),
                b.into_spec(),
                Link { bandwidth: Some(bandwidth_bps), buffer_bytes: Some(buffer_bytes), drop_policy: policy, ..plain_link(a.into_spec(), latency) },
                Link { bandwidth: Some(bandwidth_bps), buffer_bytes: Some(buffer_bytes), drop_policy: policy, ..plain_link(b.into_spec(), latency) },
            ),
    {
        let mut topology = self.topology;
        let a: NodeId = a.into();
        let b: NodeId = b.into();
        topology.add_link_full_with_policy(
            a,
            b,
            latency,
            Some(bandwidth_bps),
            Some(buffer_bytes),
            policy,
        );
        topology.add_link_full_with_policy(
            b,
            a,
            latency,
            Some(bandwidth_bps),
            Some(buffer_bytes),
            policy,
        );
        TopologyBuilder { topology }
    }

    /// Adds a link of the given bandwidth, buffer and admission policy from `a`
    /// to `b`.
    pub fn directed_link_with_policy<A: Into<NodeId>, B: Into<NodeId>>(
        self,
        a: A,
        b: B,
        latency: Duration,
        bandwidth_bps: u64,
        buffer_bytes: u64,
        policy: DropPolicy,
    ) -> (r: TopologyBuilder)
        ensures
            <A as IntoSpec<NodeId>>::obeys_into_spec() && <B as IntoSpec<NodeId>>::obeys_into_spec()
                ==> r@ == self@.with_link(
                a.into_spec(),
                Link { bandwidth: Some(bandwidth_bps), buffer_bytes: Some(buffer_bytes), drop_policy: policy, ..plain_link(b.into_spec(), latency) },
            ),
    {
        let mut topology = self.topology;
        let a: NodeId = a.into();
        let b: NodeId = b.into();
        topology.add_link_full_with_policy(
            a,
            b,
            latency,
            Some(bandwidth_bps),
            Some(buffer_bytes),
            policy,
        );
        TopologyBuilder { topology }
    }

    /// Links every node with the next one, and the last one with the first.
    pub fn ring(self, latency: Duration) -> (r: TopologyBuilder)
        ensures
            r@ == ring_links(self@, latency, self@.links.len()),
            crate::net::shapes::is_ring(self@, r@, latency),
    {
        let mut topology = self.topology;
        let n: usize = topology.node_count();
        let ghost g = topology@;
        let mut i: usize = 0;
        while i < n
            invariant
                n == g.links.len(),
                n <= u32::MAX,
                i <= n,
                topology@ == ring_links(g, latency, i as nat),
            decreases n - i,
        {
            let next: usize = if i + 1 == n {
                0
            } else {
                i + 1
            };
            proof {
                if i + 1 == n {
                    vstd::arithmetic::div_mod::lemma_mod_self_0(n as int);
                } else {
                    vstd::arithmetic::div_mod::lemma_small_mod((i + 1) as nat, n as nat);
                }
            }
            topology.add_bidi_link(NodeId(i as u32), NodeId(next as u32), latency);
            i = i + 1;
        }
        proof {
            crate::net::shapes::rings_are_closed(g, latency);
        }
        TopologyBuilder { topology }
    }

    /// Links every node with every other.
    pub fn full_mesh(self, latency: Duration) -> (r: TopologyBuilder)
        ensures
            r@ == mesh_links(self@, latency, self@.links.len()),
            crate::net::shapes::is_mesh(self@, r@, latency),
    {
        let mut topology = self.topology;
        let n: usize = topology.node_count();
        let ghost g = topology@;
        let mut i: usize = 0;
        while i < n
            invariant
                n == g.links.len(),
                n <= u32::MAX,
                i <= n,
                topology@ == mesh_links(g, latency, i as nat),
            decreases n - i,
        {
            let ghost before = topology@;
            let mut j: usize = i + 1;
            while j < n
                invariant
                    n == g.links.len(),
                    n <= u32::MAX,
                    i < n,
                    i + 1 <= j <= n,
                    topology@ == spoke_links(before, latency, i as nat, i as nat + 1, j as nat),
                decreases n - j,
            {
                topology.add_bidi_link(NodeId(i as u32), NodeId(j as u32), latency);
                j = j + 1;
            }
            i = i + 1;
        }
        proof {
            crate::net::shapes::meshes_join_everything(g, latency);
        }
        TopologyBuilder { topology }
    }

    /// Links the first node with every other.
    pub fn star(self, latency: Duration) -> (r: TopologyBuilder)
        ensures
            r@ == spoke_links(self@, latency, 0, 1, self@.links.len()),
            crate::net::shapes::is_star(self@, r@, latency),
    {
        let mut topology = self.topology;
        let n: usize = topology.node_count();
        let ghost g = topology@;
        let mut i: usize = 1;
        while i < n
            invariant
                n == g.links.len(),
                n <= u32::MAX,
                1 <= i,
                i == 1 || i <= n,
                topology@ == spoke_links(g, latency, 0, 1, i as nat),
            decreases n - i,
        {
            topology.add_bidi_link(NodeId(0), NodeId(i as u32), latency);
            i = i + 1;
        }
        proof {
            crate::net::shapes::stars_have_one_hub(g, latency);
        }
        TopologyBuilder { topology }
    }

    /// Links every node but the last with the next one.
    pub fn line(self, latency: Duration) -> (r: TopologyBuilder)
        requires
            self@.links.len() > 0,
        ensures
            r@ == line_links(self@, latency, (self@.links.len() - 1) as nat),
            crate::net::shapes::is_line(self@, r@, latency),
    {
        let mut topology = self.topology;
        let n: usize = topology.node_count();
        let ghost g = topology@;
        let mut i: usize = 0;
        while i < n - 1
            invariant
                n == g.links.len(),
                0 < n <= u32::MAX,
                i <= n - 1,
                topology@ == line_links(g, latency, i as nat),
            decreases n - i,
        {
            topology.add_bidi_link(NodeId(i as u32), NodeId((i + 1) as u32), latency);
            i = i + 1;
        }
        proof {
            crate::net::shapes::lines_join_neighbours(g, latency);
        }
        TopologyBuilder { topology }
    }

    /// Finishes the topology.
    pub fn build(self) -> (t: Topology)
        ensures
            t@ == self@,
    {
        self.topology
    }
}

} // verus!
