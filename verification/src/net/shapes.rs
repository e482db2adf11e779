//! The shapes in which nodes can be joined: lines, rings, stars and meshes.

use vstd::prelude::*;

use crate::net::graph::{
    line_links, mesh_links, plain_link, ring_links, spoke_links, Graph, Link,
};
use crate::net::node::NodeId;
use crate::time::Duration;

verus! {

/// Whether a link leads to a node in the given time, with no limit and nothing dropped early.
pub open spec fn leads_to(link: Link, target: nat, latency: Duration) -> bool {
    &&& link.target.0 == target
    &&& link.latency == latency
    &&& link.bandwidth is None
    &&& link.buffer_bytes is None
    &&& link.drop_policy is TailDrop
}

/// Whether node `u` has in `h` the links that it has in `g`, and behind them unlimited links
/// to `targets`, in that order, and no other.
pub open spec fn gains(g: Graph, h: Graph, u: int, targets: Seq<nat>, latency: Duration) -> bool {
    let old = g.links[u];
    let new = h.links[u];
    &&& new.len() == old.len() + targets.len()
    &&& forall|k: int| 0 <= k < old.len() ==> #[trigger] new[k] == old[k]
    &&& forall|k: int|
        0 <= k < targets.len() ==> leads_to(new[old.len() + k], #[trigger] targets[k], latency)
}

/// Whether two graphs have the same nodes and the same failures.
pub open spec fn same_nodes(g: Graph, h: Graph) -> bool {
    &&& h.links.len() == g.links.len()
    &&& h.failed_links == g.failed_links
    &&& h.failed_nodes == g.failed_nodes
}

/// The whole numbers from `from` to below `to`.
pub open spec fn span(from: int, to: int) -> Seq<nat> {
    Seq::new((if from < to { to - from } else { 0 }) as nat, |i: int| (from + i) as nat)
}

/// Whether each node is linked to the one before it and to the one behind it, where there is
/// one.
pub open spec fn is_line(g: Graph, h: Graph, latency: Duration) -> bool {
    let n = g.links.len();
    &&& same_nodes(g, h)
    &&& forall|u: int|
        #![trigger h.links[u]]
        0 <= u < n ==> gains(
            g,
            h,
            u,
            (if u > 0 {
                seq![(u - 1) as nat]
            } else {
                Seq::empty()
            }) + (if u < n - 1 {
                seq![(u + 1) as nat]
            } else {
                Seq::empty()
            }),
            latency,
        )
}

/// Whether each node is linked to its two neighbours on the ring, the last node to the first
/// and the first to the last, and to no other: to the one before it and then to the one behind
/// it, but the first node the other way round.
pub open spec fn is_ring(g: Graph, h: Graph, latency: Duration) -> bool {
    let n = g.links.len() as int;
    &&& same_nodes(g, h)
    &&& forall|u: int|
        #![trigger h.links[u]]
        0 <= u < n ==> {
            let next = ((u + 1) % n) as nat;
            let previous = ((u + n - 1) % n) as nat;
            if u == 0 {
                gains(g, h, u, seq![next, previous], latency)
            } else {
                gains(g, h, u, seq![previous, next], latency)
            }
        }
}

/// Whether the first node is linked to every other, and every other to the first only.
pub open spec fn is_star(g: Graph, h: Graph, latency: Duration) -> bool {
    let n = g.links.len() as int;
    &&& same_nodes(g, h)
    &&& n > 0 ==> gains(g, h, 0, span(1, n), latency)
    &&& forall|u: int| #![trigger h.links[u]] 1 <= u < n ==> gains(g, h, u, seq![0nat], latency)
}

/// Whether each node is linked to every other node, once.
pub open spec fn is_mesh(g: Graph, h: Graph, latency: Duration) -> bool {
    let n = g.links.len() as int;
    &&& same_nodes(g, h)
    &&& forall|u: int|
        #![trigger h.links[u]]
        0 <= u < n ==> gains(g, h, u, span(0, u) + span(u + 1, n), latency)
}

/// Adding a link to a node puts it behind the links that the node has, and changes nothing
/// else; a link with an end that is not there is not added.
pub proof fn links_are_added_at_the_end(g: Graph, src: NodeId, link: Link)
    ensures
        ({
            let h = g.with_link(src, link);
            let inside = src.0 < g.links.len() && link.target.0 < g.links.len();
            &&& same_nodes(g, h)
            &&& !inside ==> h == g
            &&& inside ==> h.links[src.0 as int].len() == g.links[src.0 as int].len() + 1
                && h.links[src.0 as int].last() == link && h.links[src.0 as int].drop_last()
                == g.links[src.0 as int]
            &&& forall|u: int|
                0 <= u < g.links.len() && u != src.0 ==> #[trigger] h.links[u] == g.links[u]
        }),
{
    let h = g.with_link(src, link);
    if src.0 < g.links.len() && link.target.0 < g.links.len() {
        assert(h.links[src.0 as int].drop_last() =~= g.links[src.0 as int]);
    }
}

/// A link both ways is a link from each end to the other.
pub proof fn links_both_ways_are_two_links(
    g: Graph,
    a: NodeId,
    b: NodeId,
    to_a: Link,
    to_b: Link,
)
    requires
        a != b,
        g.has(a),
        g.has(b),
        to_a.target == a,
        to_b.target == b,
    ensures
        ({
            let h = g.with_bidi(a, b, to_a, to_b);
            &&& same_nodes(g, h)
            &&& h.links[a.0 as int] == g.links[a.0 as int].push(to_b)
            &&& h.links[b.0 as int] == g.links[b.0 as int].push(to_a)
            &&& forall|u: int|
                0 <= u < g.links.len() && u != a.0 && u != b.0 ==> #[trigger] h.links[u]
                    == g.links[u]
        }),
{
}

/// A plain link has no limit, no buffer, and drops nothing early.
pub proof fn plain_links_are_unlimited(target: NodeId, latency: Duration)
    ensures
        leads_to(plain_link(target, latency), target.0 as nat, latency),
{
}

/// Whether row `u` of `h` is row `u` of `g` with plain links to `targets`.
spec fn row_is(g: Graph, h: Graph, u: int, targets: Seq<nat>, latency: Duration) -> bool {
    h.links[u] == g.links[u] + targets.map_values(
        |t: nat| plain_link(NodeId(t as u32), latency),
    )
}

proof fn lemma_gains(g: Graph, h: Graph, u: int, targets: Seq<nat>, latency: Duration)
    requires
        row_is(g, h, u, targets, latency),
        forall|k: int| 0 <= k < targets.len() ==> #[trigger] targets[k] <= u32::MAX,
    ensures
        gains(g, h, u, targets, latency),
{
    let old = g.links[u];
    let new = h.links[u];
    assert forall|k: int| 0 <= k < targets.len() implies leads_to(
        new[old.len() + k],
        #[trigger] targets[k],
        latency,
    ) by {
        assert(targets[k] <= u32::MAX);
    }
}

proof fn lemma_row_pushed(g: Graph, h: Graph, i: Graph, u: int, targets: Seq<nat>, t: nat, latency: Duration)
    requires
        row_is(g, h, u, targets, latency),
        i.links[u] == h.links[u].push(plain_link(NodeId(t as u32), latency)),
    ensures
        row_is(g, i, u, targets.push(t), latency),
{
    assert(i.links[u] =~= g.links[u] + targets.push(t).map_values(
        |t: nat| plain_link(NodeId(t as u32), latency),
    ));
}

/// The targets that node `u` has gained when the first `k` nodes are joined to the next.
spec fn line_targets(u: int, k: int) -> Seq<nat> {
    (if 0 < u <= k {
        seq![(u - 1) as nat]
    } else {
        Seq::empty()
    }) + (if u < k {
        seq![(u + 1) as nat]
    } else {
        Seq::empty()
    })
}

proof fn lemma_line(g: Graph, latency: Duration, k: nat)
    requires
        g.wf(),
        k < g.links.len(),
    ensures
        same_nodes(g, line_links(g, latency, k)),
        forall|u: int|
            0 <= u < g.links.len() ==> #[trigger] row_is(
                g,
                line_links(g, latency, k),
                u,
                line_targets(u, k as int),
                latency,
            ),
    decreases k,
{
    let h = line_links(g, latency, k);
    if k == 0 {
        assert forall|u: int| 0 <= u < g.links.len() implies #[trigger] row_is(
            g,
            h,
            u,
            line_targets(u, 0),
            latency,
        ) by {
            assert(line_targets(u, 0) =~= Seq::<nat>::empty());
            assert(h.links[u] =~= g.links[u] + line_targets(u, 0).map_values(
                |t: nat| plain_link(NodeId(t as u32), latency),
            ));
        }
    } else {
        let before = line_links(g, latency, (k - 1) as nat);
        lemma_line(g, latency, (k - 1) as nat);
        links_both_ways_are_two_links(
            before,
            NodeId((k - 1) as u32),
            NodeId(k as u32),
            plain_link(NodeId((k - 1) as u32), latency),
            plain_link(NodeId(k as u32), latency),
        );
        assert forall|u: int| 0 <= u < g.links.len() implies #[trigger] row_is(
            g,
            h,
            u,
            line_targets(u, k as int),
            latency,
        ) by {
            let was = line_targets(u, k - 1);
            assert(row_is(g, before, u, was, latency));
            if u == k - 1 {
                lemma_row_pushed(g, before, h, u, was, k, latency);
                assert(was.push(k) =~= line_targets(u, k as int));
            } else if u == k {
                lemma_row_pushed(g, before, h, u, was, (k - 1) as nat, latency);
                assert(was.push((k - 1) as nat) =~= line_targets(u, k as int));
            } else {
                assert(was =~= line_targets(u, k as int));
            }
        }
    }
}

/// A line joins each node to the one before it and the one behind it.
pub proof fn lines_join_neighbours(g: Graph, latency: Duration)
    requires
        g.wf(),
        g.links.len() > 0,
    ensures
        is_line(g, line_links(g, latency, (g.links.len() - 1) as nat), latency),
{
    let n = g.links.len();
    let k = (n - 1) as nat;
    let h = line_links(g, latency, k);
    lemma_line(g, latency, k);
    assert forall|u: int| #![trigger h.links[u]] 0 <= u < n implies gains(
        g,
        h,
        u,
        (if u > 0 {
            seq![(u - 1) as nat]
        } else {
            Seq::empty()
        }) + (if u < n - 1 {
            seq![(u + 1) as nat]
        } else {
            Seq::empty()
        }),
        latency,
    ) by {
        assert(row_is(g, h, u, line_targets(u, k as int), latency));
        lemma_gains(g, h, u, line_targets(u, k as int), latency);
    }
}

proof fn lemma_ring_is_line(g: Graph, latency: Duration, k: nat)
    requires
        k < g.links.len(),
    ensures
        ring_links(g, latency, k) == line_links(g, latency, k),
    decreases k,
{
    if k > 0 {
        lemma_ring_is_line(g, latency, (k - 1) as nat);
        vstd::arithmetic::div_mod::lemma_small_mod(k, g.links.len());
    }
}

/// A ring joins each node to its neighbours and the last node to the first, both ways.
pub proof fn rings_are_closed(g: Graph, latency: Duration)
    requires
        g.wf(),
    ensures
        is_ring(g, ring_links(g, latency, g.links.len()), latency),
{
    let n = g.links.len();
    let h = ring_links(g, latency, n);
    if n > 0 {
        let k = (n - 1) as nat;
        let before = ring_links(g, latency, k);
        lemma_ring_is_line(g, latency, k);
        lemma_line(g, latency, k);
        vstd::arithmetic::div_mod::lemma_mod_self_0(n as int);
        let first = NodeId(0);
        let last = NodeId(k as u32);
        assert(h == before.joined(k, 0, latency));
        if n > 1 {
            links_both_ways_are_two_links(
                before,
                last,
                first,
                plain_link(last, latency),
                plain_link(first, latency),
            );
        }
        assert forall|u: int| #![trigger h.links[u]] 0 <= u < n implies {
            let next = ((u + 1) % n as int) as nat;
            let previous = ((u + n - 1) % n as int) as nat;
            if u == 0 {
                gains(g, h, u, seq![next, previous], latency)
            } else {
                gains(g, h, u, seq![previous, next], latency)
            }
        } by {
            let next = ((u + 1) % n as int) as nat;
            let previous = ((u + n - 1) % n as int) as nat;
            let was = line_targets(u, k as int);
            assert(row_is(g, before, u, was, latency));
            if u + 1 < n {
                vstd::arithmetic::div_mod::lemma_small_mod((u + 1) as nat, n);
            }
            if u == 0 {
                vstd::arithmetic::div_mod::lemma_small_mod(k, n);
            } else {
                vstd::arithmetic::div_mod::lemma_mod_add_multiples_vanish(u - 1, n as int);
                vstd::arithmetic::div_mod::lemma_small_mod((u - 1) as nat, n);
            }
            if n == 1 {
                let middle = before.with_link(first, plain_link(first, latency));
                assert(was =~= Seq::<nat>::empty());
                lemma_row_pushed(g, before, middle, 0, was, 0, latency);
                lemma_row_pushed(g, middle, h, 0, was.push(0), 0, latency);
                assert(was.push(0).push(0) =~= seq![next, previous]);
                lemma_gains(g, h, 0, seq![next, previous], latency);
            } else if u == k {
                lemma_row_pushed(g, before, h, u, was, 0, latency);
                assert(was.push(0) =~= seq![previous, next]);
                lemma_gains(g, h, u, seq![previous, next], latency);
            } else if u == 0 {
                lemma_row_pushed(g, before, h, u, was, k, latency);
                assert(was.push(k) =~= seq![next, previous]);
                lemma_gains(g, h, u, seq![next, previous], latency);
            } else {
                assert(was =~= seq![previous, next]);
                lemma_gains(g, h, u, seq![previous, next], latency);
            }
        }
    }
}

proof fn lemma_spokes(g: Graph, latency: Duration, hub: nat, from: nat, to: nat)
    requires
        g.wf(),
        hub < from,
        from <= to <= g.links.len(),
    ensures
        same_nodes(g, spoke_links(g, latency, hub, from, to)),
        row_is(
            g,
            spoke_links(g, latency, hub, from, to),
            hub as int,
            span(from as int, to as int),
            latency,
        ),
        forall|u: int|
            from <= u < to ==> #[trigger] row_is(
                g,
                spoke_links(g, latency, hub, from, to),
                u,
                seq![hub],
                latency,
            ),
        forall|u: int|
            0 <= u < g.links.len() && u != hub && !(from <= u < to) ==> #[trigger] spoke_links(
                g,
                latency,
                hub,
                from,
                to,
            ).links[u] == g.links[u],
    decreases to,
{
    let h = spoke_links(g, latency, hub, from, to);
    let none = Seq::<nat>::empty();
    if to <= from {
        assert(span(from as int, to as int) =~= none);
        if hub < g.links.len() {
            assert(h.links[hub as int] =~= g.links[hub as int] + none.map_values(
                |t: nat| plain_link(NodeId(t as u32), latency),
            ));
        } else {
            assert(h.links[hub as int] == g.links[hub as int]);
            assert(g.links[hub as int] + none.map_values(
                |t: nat| plain_link(NodeId(t as u32), latency),
            ) =~= g.links[hub as int]);
        }
    } else {
        let t = (to - 1) as nat;
        let before = spoke_links(g, latency, hub, from, t);
        lemma_spokes(g, latency, hub, from, t);
        links_both_ways_are_two_links(
            before,
            NodeId(hub as u32),
            NodeId(t as u32),
            plain_link(NodeId(hub as u32), latency),
            plain_link(NodeId(t as u32), latency),
        );
        lemma_row_pushed(g, before, h, hub as int, span(from as int, t as int), t, latency);
        assert(span(from as int, t as int).push(t) =~= span(from as int, to as int));
        assert forall|u: int| from <= u < to implies #[trigger] row_is(
            g,
            h,
            u,
            seq![hub],
            latency,
        ) by {
            if u == t {
                assert(before.links[u] == g.links[u]);
                assert(row_is(g, before, u, none, latency)) by {
                    assert(before.links[u] =~= g.links[u] + none.map_values(
                        |t: nat| plain_link(NodeId(t as u32), latency),
                    ));
                }
                lemma_row_pushed(g, before, h, u, none, hub, latency);
                assert(none.push(hub) =~= seq![hub]);
            } else {
                assert(row_is(g, before, u, seq![hub], latency));
                assert(h.links[u] == before.links[u]);
            }
        }
        assert forall|u: int|
            0 <= u < g.links.len() && u != hub && !(from <= u < to) implies #[trigger] h.links[u]
            == g.links[u] by {
            assert(before.links[u] == g.links[u]);
        }
    }
}

/// A star joins the first node to all others, and the others to nothing but the first.
pub proof fn stars_have_one_hub(g: Graph, latency: Duration)
    requires
        g.wf(),
    ensures
        is_star(g, spoke_links(g, latency, 0, 1, g.links.len()), latency),
{
    let n = g.links.len();
    let h = spoke_links(g, latency, 0, 1, n);
    if n > 0 {
        lemma_spokes(g, latency, 0, 1, n);
        lemma_gains(g, h, 0, span(1, n as int), latency);
        assert forall|u: int| #![trigger h.links[u]] 1 <= u < n implies gains(g, h, u, seq![0nat], latency) by {
            assert(row_is(g, h, u, seq![0nat], latency));
            lemma_gains(g, h, u, seq![0nat], latency);
        }
    }
}

/// The targets that node `u` has gained when the first `k` nodes are joined to all others.
spec fn mesh_targets(u: int, k: int, n: int) -> Seq<nat> {
    if u < k {
        span(0, u) + span(u + 1, n)
    } else {
        span(0, k)
    }
}

proof fn lemma_row_joined(
    g: Graph,
    h: Graph,
    i: Graph,
    u: int,
    some: Seq<nat>,
    more: Seq<nat>,
    latency: Duration,
)
    requires
        row_is(g, h, u, some, latency),
        row_is(h, i, u, more, latency),
    ensures
        row_is(g, i, u, some + more, latency),
{
    assert(i.links[u] =~= g.links[u] + (some + more).map_values(
        |t: nat| plain_link(NodeId(t as u32), latency),
    ));
}

proof fn lemma_mesh(g: Graph, latency: Duration, k: nat)
    requires
        g.wf(),
        k <= g.links.len(),
    ensures
        same_nodes(g, mesh_links(g, latency, k)),
        mesh_links(g, latency, k).wf(),
        forall|u: int|
            0 <= u < g.links.len() ==> #[trigger] row_is(
                g,
                mesh_links(g, latency, k),
                u,
                mesh_targets(u, k as int, g.links.len() as int),
                latency,
            ),
    decreases k,
{
    let n = g.links.len() as int;
    let h = mesh_links(g, latency, k);
    if k == 0 {
        assert forall|u: int| 0 <= u < n implies #[trigger] row_is(
            g,
            h,
            u,
            mesh_targets(u, 0, n),
            latency,
        ) by {
            assert(mesh_targets(u, 0, n) =~= Seq::<nat>::empty());
            assert(h.links[u] =~= g.links[u] + mesh_targets(u, 0, n).map_values(
                |t: nat| plain_link(NodeId(t as u32), latency),
            ));
        }
    } else {
        let hub = (k - 1) as nat;
        let before = mesh_links(g, latency, hub);
        lemma_mesh(g, latency, hub);
        lemma_spokes(before, latency, hub, k, g.links.len());
        assert forall|u: int| 0 <= u < n implies #[trigger] row_is(
            g,
            h,
            u,
            mesh_targets(u, k as int, n),
            latency,
        ) by {
            let was = mesh_targets(u, hub as int, n);
            assert(row_is(g, before, u, was, latency));
            if u == hub {
                lemma_row_joined(g, before, h, u, was, span(k as int, n), latency);
                assert(was + span(k as int, n) =~= mesh_targets(u, k as int, n));
            } else if u >= k {
                assert(row_is(before, h, u, seq![hub], latency));
                lemma_row_joined(g, before, h, u, was, seq![hub], latency);
                assert(was + seq![hub] =~= mesh_targets(u, k as int, n));
            } else {
                assert(h.links[u] == before.links[u]);
                assert(was =~= mesh_targets(u, k as int, n));
            }
        }
        assert(h.wf()) by {
            assert forall|u: int, j: int|
                0 <= u < h.links.len() && 0 <= j < h.links[u].len() implies h.has(
                (#[trigger] h.links[u][j]).target,
            ) by {
                let ts = mesh_targets(u, k as int, n);
                assert(row_is(g, h, u, ts, latency));
                if j < g.links[u].len() {
                    assert(h.links[u][j] == g.links[u][j]);
                    assert(g.has(g.links[u][j].target));
                } else {
                    let i = j - g.links[u].len();
                    assert(h.links[u][j] == plain_link(NodeId(ts[i] as u32), latency));
                    assert(ts[i] < n);
                }
            }
        }
    }
}

/// A mesh joins each node to every other.
pub proof fn meshes_join_everything(g: Graph, latency: Duration)
    requires
        g.wf(),
    ensures
        is_mesh(g, mesh_links(g, latency, g.links.len()), latency),
{
    let n = g.links.len() as int;
    let h = mesh_links(g, latency, g.links.len());
    lemma_mesh(g, latency, g.links.len());
    assert forall|u: int| #![trigger h.links[u]] 0 <= u < n implies gains(
        g,
        h,
        u,
        span(0, u) + span(u + 1, n),
        latency,
    ) by {
        let ts = span(0, u) + span(u + 1, n);
        assert(row_is(g, h, u, mesh_targets(u, n, n), latency));
        lemma_gains(g, h, u, ts, latency);
    }
}

} // verus!
