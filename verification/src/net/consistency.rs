//! The routes to a destination fit together: the route of the next node is the rest of
//! the route.

use vstd::prelude::*;

use crate::net::graph::{
    cost_of, explained, explains, is_hop, joins, lemma_first_unsettled, lemma_follow_sound,
    lemma_nearest, lemma_nearest_is_least, lemma_settle_sound, lemma_settled_prefix,
    lemma_start_sound, lemma_total_take, lemma_unset_update, nearest, route_of, sound, stop, total, unset, Graph, Label,
    Link, Search,
};
use crate::net::node::NodeId;
use crate::time::saturated;

verus! {

/// The node that a search settles next.
spec fn upnext(s: Search) -> Option<nat> {
    nearest(s.labels, s.settled, s.settled.len())
}

/// The search from `src` after `k` steps; it stays as it is once `dst` is nearest or
/// nothing is left to settle.
spec fn at(g: Graph, src: NodeId, dst: NodeId, k: nat) -> Search
    decreases k,
{
    if k == 0 {
        Search::start(g, src)
    } else {
        let s = at(g, src, dst, (k - 1) as nat);
        match upnext(s) {
            Some(v) if v != dst.0 => s.settle(g, src, v),
            _ => s,
        }
    }
}

/// Whether there is a search to speak of.
spec fn searchable(g: Graph, src: NodeId, dst: NodeId) -> bool {
    g.wf() && g.has(src) && g.has(dst)
}

proof fn lemma_at_sound(g: Graph, src: NodeId, dst: NodeId, k: nat)
    requires
        searchable(g, src, dst),
    ensures
        sound(g, src, dst, at(g, src, dst, k)),
    decreases k,
{
    if k == 0 {
        lemma_start_sound(g, src, dst);
    } else {
        lemma_at_sound(g, src, dst, (k - 1) as nat);
        let s = at(g, src, dst, (k - 1) as nat);
        if let Some(v) = upnext(s) {
            if v != dst.0 {
                lemma_settle_sound(g, src, dst, s, v);
            }
        }
    }
}

/// Carrying on from any step comes to the same end.
proof fn lemma_at_finish(g: Graph, src: NodeId, dst: NodeId, k: nat)
    requires
        searchable(g, src, dst),
    ensures
        at(g, src, dst, k).finish(g, src, dst) == Search::start(g, src).finish(g, src, dst),
    decreases k,
{
    if k > 0 {
        lemma_at_finish(g, src, dst, (k - 1) as nat);
    }
}

/// The label that following a link of `u` gives to its far end.
spec fn offered(src: NodeId, u: nat, here: Label, link: Link) -> Label {
    Label {
        cost: (here.cost + link.latency.0) as u128,
        first: if u == src.0 {
            link.target
        } else {
            here.first
        },
        hops: (here.hops + 1) as u32,
    }
}

/// Whether a label was given by following a usable link of `u`.
spec fn comes_from(g: Graph, src: NodeId, u: nat, here: Label, x: nat, l: Label) -> bool {
    exists|j: int|
        {
            &&& 0 <= j < g.links[u as int].len()
            &&& (#[trigger] g.links[u as int][j]).target.0 == x
            &&& g.live(NodeId(u as u32), g.links[u as int][j])
            &&& l == offered(src, u, here, g.links[u as int][j])
        }
}

/// A label that following the first `k` links of `u` changes is better than before and
/// comes from `u`.
proof fn lemma_follow_origin(s: Search, g: Graph, src: NodeId, u: nat, k: nat, x: nat)
    requires
        g.wf(),
        s.labels.len() == g.links.len(),
        u < g.links.len(),
        k <= g.links[u as int].len(),
        x < g.links.len(),
    ensures
        s.follow(g, src, u, k).labels.len() == g.links.len(),
        ({
            let before = s.labels[x as int];
            let after = s.follow(g, src, u, k).labels[x as int];
            after == before || (after is Some && cost_of(after) < cost_of(before) && comes_from(
                g,
                src,
                u,
                s.labels[u as int]->0,
                x,
                after->0,
            ))
        }),
    decreases k,
{
    if k > 0 {
        lemma_follow_origin(s, g, src, u, (k - 1) as nat, x);
        let link = g.links[u as int][k - 1];
        assert(g.has(link.target));
        let q = s.follow(g, src, u, k);
        let r = s.follow(g, src, u, (k - 1) as nat);
        if q.labels[x as int] != r.labels[x as int] {
            assert(link.target.0 == x);
            assert(q.labels[x as int] == Some(offered(src, u, s.labels[u as int]->0, link)));
        }
    }
}

/// What one step does.
proof fn lemma_step(g: Graph, src: NodeId, dst: NodeId, k: nat, u: nat)
    requires
        searchable(g, src, dst),
        upnext(at(g, src, dst, k)) == Some(u),
        u != dst.0,
    ensures
        ({
            let s = at(g, src, dst, k);
            let r = at(g, src, dst, k + 1);
            &&& u < g.links.len()
            &&& !s.settled[u as int]
            &&& s.labels[u as int] is Some
            &&& r.settled == s.settled.update(u as int, true)
            &&& forall|v: int|
                0 <= v < g.links.len() && r.settled[v] ==> (#[trigger] r.labels[v]) == s.labels[v]
            &&& forall|v: int|
                0 <= v < g.links.len() ==> {
                    ||| (#[trigger] r.labels[v]) == s.labels[v]
                    ||| r.labels[v] is Some && cost_of(r.labels[v]) < cost_of(s.labels[v])
                        && comes_from(g, src, u, s.labels[u as int]->0, v as nat, r.labels[v]->0)
                }
        }),
{
    let s = at(g, src, dst, k);
    let r = at(g, src, dst, k + 1);
    lemma_at_sound(g, src, dst, k);
    lemma_nearest_is_least(s, u);
    lemma_follow_sound(g, src, dst, s, u, g.links[u as int].len());
    let marked = Search { labels: s.labels, settled: s.settled.update(u as int, true) };
    assert forall|v: int| 0 <= v < g.links.len() implies {
        ||| (#[trigger] r.labels[v]) == s.labels[v]
        ||| r.labels[v] is Some && cost_of(r.labels[v]) < cost_of(s.labels[v]) && comes_from(
            g,
            src,
            u,
            s.labels[u as int]->0,
            v as nat,
            r.labels[v]->0,
        )
    } by {
        lemma_follow_origin(marked, g, src, u, g.links[u as int].len(), v as nat);
    }
}

/// What is settled stays settled, with its label, and labels only get better.
proof fn lemma_later(g: Graph, src: NodeId, dst: NodeId, k: nat, m: nat, x: int)
    requires
        searchable(g, src, dst),
        k <= m,
        0 <= x < g.links.len(),
    ensures
        at(g, src, dst, k).settled[x] ==> at(g, src, dst, m).settled[x] && at(
            g,
            src,
            dst,
            m,
        ).labels[x] == at(g, src, dst, k).labels[x],
        cost_of(at(g, src, dst, m).labels[x]) <= cost_of(at(g, src, dst, k).labels[x]),
        at(g, src, dst, m).labels[x] == at(g, src, dst, k).labels[x] || cost_of(
            at(g, src, dst, m).labels[x],
        ) < cost_of(at(g, src, dst, k).labels[x]),
    decreases m,
{
    if k < m {
        lemma_later(g, src, dst, k, (m - 1) as nat, x);
        let s = at(g, src, dst, (m - 1) as nat);
        lemma_at_sound(g, src, dst, (m - 1) as nat);
        if let Some(v) = upnext(s) {
            if v != dst.0 {
                lemma_step(g, src, dst, (m - 1) as nat, v);
                assert(at(g, src, dst, m).labels[x] == s.labels[x] || cost_of(
                    at(g, src, dst, m).labels[x],
                ) < cost_of(s.labels[x]));
            }
        }
    }
}

/// A search starts with its source.
proof fn lemma_starts_at_source(g: Graph, src: NodeId, dst: NodeId)
    requires
        searchable(g, src, dst),
    ensures
        upnext(at(g, src, dst, 0)) == Some(src.0 as nat),
        src != dst ==> at(g, src, dst, 1).settled[src.0 as int],
{
    let s = at(g, src, dst, 0);
    lemma_nearest(s.labels, s.settled, s.settled.len());
    assert(!s.settled[src.0 as int]);
    if src != dst {
        lemma_step(g, src, dst, 0, src.0 as nat);
    }
}

/// A label was given at some earlier step, from the node that was settled then, and
/// has stood since.
proof fn lemma_origin(g: Graph, src: NodeId, dst: NodeId, k: nat, x: nat) -> (m: nat)
    requires
        searchable(g, src, dst),
        x < g.links.len(),
        x != src.0,
        at(g, src, dst, k).labels[x as int] is Some,
    ensures
        m < k,
        at(g, src, dst, m + 1).labels[x as int] == at(g, src, dst, k).labels[x as int],
        ({
            let s = at(g, src, dst, m);
            let l = at(g, src, dst, k).labels[x as int]->0;
            &&& upnext(s) matches Some(u) && u != dst.0 && u < g.links.len()
                && s.labels[u as int] is Some && comes_from(
                g,
                src,
                u,
                s.labels[u as int]->0,
                x,
                l,
            )
            &&& l.cost < cost_of(s.labels[x as int])
        }),
    decreases k,
{
    let r = at(g, src, dst, k);
    if k == 0 {
        assert(false);
        0
    } else {
        let s = at(g, src, dst, (k - 1) as nat);
        if r.labels[x as int] == s.labels[x as int] {
            lemma_origin(g, src, dst, (k - 1) as nat, x)
        } else {
            let u = upnext(s)->0;
            lemma_step(g, src, dst, (k - 1) as nat, u);
            (k - 1) as nat
        }
    }
}

/// A walk to a node that is settled, or that is next, is no shorter than its label says.
proof fn lemma_least(
    g: Graph,
    src: NodeId,
    dst: NodeId,
    k: nat,
    x: NodeId,
    hops: Seq<Link>,
)
    requires
        searchable(g, src, dst),
        g.has(x),
        joins(g, src, hops, x),
        at(g, src, dst, k).settled[x.0 as int] || upnext(at(g, src, dst, k)) == Some(x.0 as nat),
    ensures
        cost_of(at(g, src, dst, k).labels[x.0 as int]) <= total(hops),
{
    let s = at(g, src, dst, k);
    lemma_at_sound(g, src, dst, k);
    if exists|n: int| 0 <= n <= hops.len() && !s.settled[(#[trigger] stop(src, hops, n)).0 as int] {
        let n = choose|n: int|
            0 <= n <= hops.len() && !s.settled[(#[trigger] stop(src, hops, n)).0 as int];
        let i = lemma_first_unsettled(src, s.settled, hops, n);
        lemma_settled_prefix(g, src, dst, s, hops, i);
        lemma_total_take(hops, i);
        let w = stop(src, hops, i).0 as int;
        assert(!s.settled[w]);
        if !s.settled[x.0 as int] {
            lemma_nearest_is_least(s, x.0 as nat);
        }
        assert(cost_of(s.labels[x.0 as int]) <= cost_of(s.labels[w]));
    } else {
        lemma_settled_prefix(g, src, dst, s, hops, hops.len() as int);
        assert(hops.take(hops.len() as int) =~= hops);
    }
}

/// The latency of a path is that of its first link and of the rest.
proof fn lemma_total_first(hops: Seq<Link>)
    requires
        hops.len() > 0,
    ensures
        total(hops) == hops[0].latency.0 + total(hops.drop_first()),
    decreases hops.len(),
{
    if hops.len() == 1 {
        assert(total(hops.drop_last()) == 0);
        assert(total(hops.drop_first()) == 0);
    } else {
        lemma_total_first(hops.drop_last());
        assert(hops.drop_last().drop_first() =~= hops.drop_first().drop_last());
    }
}

/// A walk may start one usable link earlier.
proof fn lemma_prepend(g: Graph, src: NodeId, link: Link, hops: Seq<Link>, x: NodeId)
    requires
        g.has(src),
        g.links[src.0 as int].contains(link),
        g.live(src, link),
        joins(g, link.target, hops, x),
    ensures
        joins(g, src, seq![link] + hops, x),
        total(seq![link] + hops) == link.latency.0 + total(hops),
{
    let longer = seq![link] + hops;
    assert(longer.drop_first() =~= hops);
    lemma_total_first(longer);
    assert forall|i: int| 0 <= i < longer.len() implies #[trigger] is_hop(g, src, longer, i) by {
        if i > 0 {
            assert(is_hop(g, link.target, hops, i - 1));
            assert(stop(src, longer, i) == stop(link.target, hops, i - 1));
            assert(longer[i] == hops[i - 1]);
        }
    }
    assert(stop(src, longer, longer.len() as int) == x) by {
        if hops.len() > 0 {
            assert(longer[longer.len() - 1] == hops[hops.len() - 1]);
        }
    }
}

/// Whether the search from `src` reaches `next` over `link` as soon as `src` is settled.
spec fn leads(g: Graph, src: NodeId, dst: NodeId, link: Link, next: NodeId) -> bool {
    &&& g.links[src.0 as int].contains(link)
    &&& g.live(src, link)
    &&& link.target == next
    &&& at(g, src, dst, 1).labels[next.0 as int] == Some(
        Label { cost: link.latency.0 as u128, first: next, hops: 1 },
    )
}

/// A label that comes from the source was given in the first step.
proof fn lemma_from_source(g: Graph, src: NodeId, dst: NodeId, m: nat)
    requires
        searchable(g, src, dst),
        src != dst,
        upnext(at(g, src, dst, m)) == Some(src.0 as nat),
    ensures
        m == 0,
{
    lemma_starts_at_source(g, src, dst);
    if m > 0 {
        lemma_later(g, src, dst, 1, m, src.0 as int);
        let s = at(g, src, dst, m);
        lemma_nearest(s.labels, s.settled, s.settled.len());
    }
}

/// The first node on the path of a label is reached over a link of the source.
proof fn lemma_root(g: Graph, src: NodeId, dst: NodeId, k: nat, x: nat) -> (link: Link)
    requires
        searchable(g, src, dst),
        src != dst,
        x < g.links.len(),
        x != src.0,
        at(g, src, dst, k).labels[x as int] is Some,
    ensures
        leads(g, src, dst, link, at(g, src, dst, k).labels[x as int]->0.first),
    decreases k,
{
    let l = at(g, src, dst, k).labels[x as int]->0;
    let m = lemma_origin(g, src, dst, k, x);
    let s = at(g, src, dst, m);
    let u = upnext(s)->0;
    let here = s.labels[u as int]->0;
    lemma_at_sound(g, src, dst, k);
    lemma_at_sound(g, src, dst, m);
    let j = choose|j: int|
        {
            &&& 0 <= j < g.links[u as int].len()
            &&& (#[trigger] g.links[u as int][j]).target.0 == x
            &&& g.live(NodeId(u as u32), g.links[u as int][j])
            &&& l == offered(src, u, here, g.links[u as int][j])
        };
    let link = g.links[u as int][j];
    if u == src.0 {
        lemma_from_source(g, src, dst, m);
        assert(NodeId(u as u32) == src);
        assert(g.links[src.0 as int].contains(link));
        link
    } else {
        lemma_root(g, src, dst, m, u)
    }
}

/// Whether a search from the next node settles only what the search from `src` has
/// settled.
spec fn within(g: Graph, src: NodeId, next: NodeId, dst: NodeId, k: nat, j: nat) -> bool {
    forall|y: int|
        0 <= y < g.links.len() && (#[trigger] at(g, next, dst, j).settled[y]) ==> at(
            g,
            src,
            dst,
            k,
        ).settled[y]
}

/// What is settled or next in the search from `src` is no farther from there than from
/// the next node and the link to it.
proof fn lemma_reflected(
    g: Graph,
    src: NodeId,
    next: NodeId,
    dst: NodeId,
    link: Link,
    k: nat,
    j: nat,
    p: nat,
)
    requires
        searchable(g, src, dst),
        searchable(g, next, dst),
        leads(g, src, dst, link, next),
        p < g.links.len(),
        at(g, src, dst, k).settled[p as int] || upnext(at(g, src, dst, k)) == Some(p),
        at(g, next, dst, j).labels[p as int] is Some,
    ensures
        cost_of(at(g, src, dst, k).labels[p as int]) <= link.latency.0 + cost_of(
            at(g, next, dst, j).labels[p as int],
        ),
{
    lemma_at_sound(g, next, dst, j);
    let l = at(g, next, dst, j).labels[p as int]->0;
    let x = NodeId(p as u32);
    assert(explained(g, next, x, l));
    let hops = choose|hops: Seq<Link>| #[trigger] explains(g, next, hops, x, l);
    lemma_prepend(g, src, link, hops, x);
    lemma_least(g, src, dst, k, x, seq![link] + hops);
}

/// Where the search from the next node has settled nothing else, the search from `src`
/// knows of every path that it knows of.
proof fn lemma_surpassed(
    g: Graph,
    src: NodeId,
    next: NodeId,
    dst: NodeId,
    link: Link,
    k: nat,
    j: nat,
    y: nat,
)
    requires
        searchable(g, src, dst),
        searchable(g, next, dst),
        leads(g, src, dst, link, next),
        within(g, src, next, dst, k, j),
        y < g.links.len(),
        y != next.0,
        at(g, next, dst, j).labels[y as int] is Some,
    ensures
        cost_of(at(g, src, dst, k).labels[y as int]) <= link.latency.0 + cost_of(
            at(g, next, dst, j).labels[y as int],
        ),
{
    let l = at(g, next, dst, j).labels[y as int]->0;
    let m = lemma_origin(g, next, dst, j, y);
    let b = at(g, next, dst, m);
    let p = upnext(b)->0;
    let here = b.labels[p as int]->0;
    lemma_at_sound(g, next, dst, m);
    lemma_step(g, next, dst, m, p);
    lemma_later(g, next, dst, m + 1, j, p as int);
    assert(at(g, next, dst, m + 1).settled[p as int]);
    assert(at(g, next, dst, m + 1).labels[p as int] == b.labels[p as int]);
    assert(at(g, next, dst, j).settled[p as int]);
    assert(at(g, next, dst, j).labels[p as int] == Some(here));
    assert(at(g, src, dst, k).settled[p as int]);
    lemma_reflected(g, src, next, dst, link, k, j, p);
    lemma_at_sound(g, src, dst, k);
    lemma_at_sound(g, next, dst, j);
    let i = choose|i: int|
        {
            &&& 0 <= i < g.links[p as int].len()
            &&& (#[trigger] g.links[p as int][i]).target.0 == y
            &&& g.live(NodeId(p as u32), g.links[p as int][i])
            &&& l == offered(next, p, here, g.links[p as int][i])
        };
    assert(g.live(NodeId(p as u32), g.links[p as int][i]));
    assert(here.fits());
}

/// From a step at which the search from the next node knows the best path to `x`, that
/// search goes on to `x` without settling anything that the search from `src` has not
/// settled before `x`.
proof fn lemma_reach(
    g: Graph,
    src: NodeId,
    next: NodeId,
    dst: NodeId,
    link: Link,
    k: nat,
    x: nat,
    j: nat,
) -> (end: nat)
    requires
        searchable(g, src, dst),
        searchable(g, next, dst),
        leads(g, src, dst, link, next),
        upnext(at(g, src, dst, k)) == Some(x),
        x != next.0,
        at(g, src, dst, k).settled[next.0 as int],
        at(g, next, dst, j).labels[x as int] is Some,
        cost_of(at(g, next, dst, j).labels[x as int]) + link.latency.0 == cost_of(
            at(g, src, dst, k).labels[x as int],
        ),
        within(g, src, next, dst, k, j),
    ensures
        upnext(at(g, next, dst, end)) == Some(x),
        at(g, next, dst, end).labels[x as int] == at(g, next, dst, j).labels[x as int],
        within(g, src, next, dst, k, end),
    decreases unset(at(g, next, dst, j).settled),
{
    let a = at(g, src, dst, k);
    let b = at(g, next, dst, j);
    lemma_at_sound(g, src, dst, k);
    lemma_at_sound(g, next, dst, j);
    lemma_nearest(a.labels, a.settled, a.settled.len());
    lemma_nearest(b.labels, b.settled, b.settled.len());
    assert(!b.settled[x as int]);
    let f = upnext(b)->0;
    if f == x {
        j
    } else {
        if !a.settled[f as int] {
            lemma_surpassed(g, src, next, dst, link, k, j, f);
            assert(a.labels[f as int] is Some);
            assert(false);
        }
        lemma_step(g, next, dst, j, f);
        let r = at(g, next, dst, j + 1);
        lemma_at_sound(g, next, dst, j + 1);
        if r.labels[x as int] != b.labels[x as int] {
            lemma_reflected(g, src, next, dst, link, k, j + 1, x);
            assert(false);
        }
        lemma_unset_update(b.settled, f as int);
        assert(within(g, src, next, dst, k, j + 1));
        lemma_reach(g, src, next, dst, link, k, x, j + 1)
    }
}

/// Whether the search from the next node comes to `x` after `j` steps as the search from
/// `src` does after `k`, one link nearer.
spec fn matched(
    g: Graph,
    src: NodeId,
    next: NodeId,
    dst: NodeId,
    link: Link,
    k: nat,
    x: nat,
    j: nat,
) -> bool {
    let l = at(g, src, dst, k).labels[x as int]->0;
    let b = at(g, next, dst, j);
    &&& upnext(b) == Some(x)
    &&& b.labels[x as int] is Some
    &&& b.labels[x as int]->0.cost + link.latency.0 == l.cost
    &&& b.labels[x as int]->0.hops + 1 == l.hops
    &&& within(g, src, next, dst, k, j)
}

/// What the search from `src` comes to by way of the next node, the search from there
/// comes to as well.
proof fn lemma_matched(
    g: Graph,
    src: NodeId,
    next: NodeId,
    dst: NodeId,
    link: Link,
    k: nat,
    x: nat,
) -> (j: nat)
    requires
        searchable(g, src, dst),
        searchable(g, next, dst),
        src != dst,
        leads(g, src, dst, link, next),
        x != src.0,
        upnext(at(g, src, dst, k)) == Some(x),
        at(g, src, dst, k).labels[x as int]->0.first == next,
    ensures
        matched(g, src, next, dst, link, k, x, j),
    decreases k,
{
    let a = at(g, src, dst, k);
    lemma_at_sound(g, src, dst, k);
    lemma_nearest(a.labels, a.settled, a.settled.len());
    let l = a.labels[x as int]->0;
    let m = lemma_origin(g, src, dst, k, x);
    let s = at(g, src, dst, m);
    let u = upnext(s)->0;
    let here = s.labels[u as int]->0;
    lemma_at_sound(g, src, dst, m);
    lemma_step(g, src, dst, m, u);
    lemma_later(g, src, dst, m + 1, k, u as int);
    assert(a.settled[u as int]);
    lemma_starts_at_source(g, next, dst);
    let i = choose|i: int|
        {
            &&& 0 <= i < g.links[u as int].len()
            &&& (#[trigger] g.links[u as int][i]).target.0 == x
            &&& g.live(NodeId(u as u32), g.links[u as int][i])
            &&& l == offered(src, u, here, g.links[u as int][i])
        };
    let over = g.links[u as int][i];
    if u == src.0 {
        lemma_from_source(g, src, dst, m);
        assert(l.first == over.target);
        assert(x == next.0);
        assert(l == Label { cost: link.latency.0 as u128, first: next, hops: 1 });
        assert(matched(g, src, next, dst, link, k, x, 0));
        0
    } else {
        assert(here.first == next);
        let ju = lemma_matched(g, src, next, dst, link, m, u);
        let b = at(g, next, dst, ju);
        // the next node has been settled
        assert(a.settled[next.0 as int]) by {
            if u != next.0 {
                assert(ju > 0);
                if next == dst {
                    lemma_stays(g, next, ju);
                    assert(false);
                }
                lemma_later(g, next, dst, 1, ju, next.0 as int);
                assert(b.settled[next.0 as int]);
                assert(s.settled[next.0 as int]);
                lemma_later(g, src, dst, m, k, next.0 as int);
            }
        }
        assert(x != next.0);
        lemma_at_sound(g, next, dst, ju);
        lemma_at_sound(g, next, dst, ju + 1);
        lemma_step(g, next, dst, ju, u);
        let r = at(g, next, dst, ju + 1);
        assert(r.settled[u as int]);
        assert(r.labels[u as int] == b.labels[u as int]);
        assert(g.live(NodeId(u as u32), g.links[u as int][i]));
        assert(l.cost == here.cost + over.latency.0);
        assert(cost_of(r.labels[x as int]) + link.latency.0 <= l.cost);
        assert(r.labels[x as int] is Some);
        lemma_reflected(g, src, next, dst, link, k, ju + 1, x);
        assert(cost_of(r.labels[x as int]) + link.latency.0 == l.cost);
        // it was not known before, or the search from `src` would have known it
        if r.labels[x as int] == b.labels[x as int] {
            lemma_surpassed(g, src, next, dst, link, m, ju, x);
            assert(false);
        }
        assert(within(g, src, next, dst, k, ju + 1)) by {
            assert forall|y: int|
                0 <= y < g.links.len() && (#[trigger] r.settled[y]) implies a.settled[y] by {
                if y != u {
                    assert(b.settled[y]);
                    assert(s.settled[y]);
                    lemma_later(g, src, dst, m, k, y);
                }
            }
        }
        assert(r.labels[x as int]->0.hops + 1 == l.hops) by {
            lemma_unset_update(b.settled, dst.0 as int);
            lemma_unset_update(s.settled, dst.0 as int);
        }
        lemma_reach(g, src, next, dst, link, k, x, ju + 1)
    }
}

/// A search for its own source never gets under way.
proof fn lemma_stays(g: Graph, src: NodeId, k: nat)
    requires
        searchable(g, src, src),
    ensures
        at(g, src, src, k) == at(g, src, src, 0),
    decreases k,
{
    lemma_starts_at_source(g, src, src);
    if k > 0 {
        lemma_stays(g, src, (k - 1) as nat);
    }
}

/// Carrying on until the end takes some number of steps.
proof fn lemma_finish_at(g: Graph, src: NodeId, dst: NodeId, k: nat) -> (end: nat)
    requires
        searchable(g, src, dst),
    ensures
        at(g, src, dst, end) == Search::start(g, src).finish(g, src, dst),
        upnext(at(g, src, dst, end)) matches Some(v) ==> v == dst.0,
    decreases unset(at(g, src, dst, k).settled),
{
    let s = at(g, src, dst, k);
    lemma_at_finish(g, src, dst, k);
    s.lemma_settle_progress(g, src);
    match upnext(s) {
        Some(v) => {
            if v == dst.0 {
                k
            } else {
                lemma_finish_at(g, src, dst, k + 1)
            }
        },
        None => k,
    }
}

/// The routes to a destination fit together: the next node of a route has a route, and
/// that route is the rest of it, one link and the latency of that link shorter. What is
/// beyond the longest representable duration is cut off.
pub proof fn next_hop_has_the_rest_of_the_route(g: Graph, src: NodeId, dst: NodeId)
    requires
        g.wf(),
        g.has(src),
        g.has(dst),
        src != dst,
        route_of(g, src, dst) is Some,
    ensures
        ({
            let route = route_of(g, src, dst)->0;
            let next = route.next_hop;
            &&& g.has(next)
            &&& route_of(g, next, dst) matches Some(rest) && {
                &&& rest.hop_count + 1 == route.hop_count
                &&& exists|link: Link|
                    {
                        &&& #[trigger] g.links[src.0 as int].contains(link)
                        &&& g.live(src, link)
                        &&& link.target == next
                        &&& route.total_latency.0 == saturated(
                            rest.total_latency.0 + link.latency.0,
                        )
                    }
            }
        }),
{
    let k = lemma_finish_at(g, src, dst, 0);
    let a = at(g, src, dst, k);
    let x = dst.0 as nat;
    lemma_at_sound(g, src, dst, k);
    lemma_nearest(a.labels, a.settled, a.settled.len());
    assert(!a.settled[dst.0 as int]);
    assert(upnext(a) == Some(x));
    let l = a.labels[x as int]->0;
    let next = l.first;
    let link = lemma_root(g, src, dst, k, x);
    let i = choose|i: int|
        0 <= i < g.links[src.0 as int].len() && g.links[src.0 as int][i] == link;
    assert(g.has(g.links[src.0 as int][i].target));
    let j = lemma_matched(g, src, next, dst, link, k, x);
    lemma_at_finish(g, next, dst, j);
    assert(g.links[src.0 as int].contains(link));
    if next == dst {
        lemma_stays(g, next, j);
    }
}

/// A route has fewer links than the graph has nodes.
pub proof fn routes_are_shorter_than_the_graph(g: Graph, src: NodeId, dst: NodeId)
    requires
        g.wf(),
        g.has(src),
        g.has(dst),
        route_of(g, src, dst) is Some,
    ensures
        route_of(g, src, dst)->0.hop_count < g.links.len(),
{
    if src != dst {
        let k = lemma_finish_at(g, src, dst, 0);
        let a = at(g, src, dst, k);
        lemma_at_sound(g, src, dst, k);
        lemma_unset_update(a.settled, dst.0 as int);
    }
}

} // verus!
