//! What becomes of a message that is sent: whether it is lost, how long it takes, what
//! bandwidth and buffers do to it.

use vstd::prelude::*;

use crate::draws::{comes_about, past};
use crate::net::conservation::message_of;
use crate::net::fabric::{
    committed, pending_bytes, transmission, Admission, FabricState, Passage,
};
use crate::net::graph::{first_link, link_of, route_of, Graph, Link};
use crate::net::latency::LatencyModel;
use crate::net::message::{DropReason, Message, NetEvent};
use crate::net::node::{MessageId, NodeId};
use crate::net::routing::routes_reach_their_destination;
use crate::rng::RngState;
use crate::time::Time;

verus! {

/// Whether two nodes are parted, whichever of them comes first.
pub open spec fn parted(pairs: Set<(NodeId, NodeId)>, a: NodeId, b: NodeId) -> bool {
    if a.0 < b.0 {
        pairs.contains((a, b))
    } else {
        pairs.contains((b, a))
    }
}

/// Whether an event is a drop for the given reason.
pub open spec fn dropped_for<P>(event: NetEvent<P>, why: DropReason) -> bool {
    event matches NetEvent::Drop { reason, .. } && reason == why
}

/// Why a message is dropped: for a partition exactly if its ends are partitioned; otherwise
/// for loss exactly if the configured probability says so of the next random bits; otherwise
/// for want of a route exactly if there is none; and because a link refuses it only if it has
/// a route and a size. Otherwise it is delivered. A drop is due when the message is sent.
pub proof fn messages_are_dropped_for_a_reason<P, L: LatencyModel>(
    fabric: FabricState<L>,
    time: Time,
    src: NodeId,
    dst: NodeId,
    payload: P,
    size_bytes: u64,
)
    requires
        fabric.dispatch(time, src, dst, payload, size_bytes) is Some,
    ensures
        ({
            let d = fabric.dispatch(time, src, dst, payload, size_bytes)->0;
            let apart = parted(fabric.partitions, src, dst);
            let lost = comes_about(fabric.config.packet_loss, fabric.rng);
            let routed = route_of(fabric.graph, src, dst) is Some;
            &&& dropped_for(d.event, DropReason::Partitioned) <==> apart
            &&& dropped_for(d.event, DropReason::PacketLoss) <==> !apart && lost
            &&& dropped_for(d.event, DropReason::NoRoute) <==> !apart && !lost && !routed
            &&& dropped_for(d.event, DropReason::BufferOverflow) ==> !apart && !lost && routed
                && size_bytes > 0
            &&& d.event is Deliver ==> !apart && !lost && routed
            &&& d.event is Drop ==> d.time == time
            &&& message_of(d.event) == (Message {
                id: MessageId(fabric.next_message_id),
                src,
                dst,
                payload,
            })
        }),
{
}

/// What deciding on a message leaves alone: the topology, the configuration and the
/// partitions always; the limits, the links and the latency model unless the message has a
/// route. A message between partitioned nodes takes no random bits; one that is lost or has no
/// route takes those for its loss.
pub proof fn messages_touch_only_what_they_use<P, L: LatencyModel>(
    fabric: FabricState<L>,
    time: Time,
    src: NodeId,
    dst: NodeId,
    payload: P,
    size_bytes: u64,
)
    requires
        fabric.dispatch(time, src, dst, payload, size_bytes) is Some,
    ensures
        ({
            let d = fabric.dispatch(time, src, dst, payload, size_bytes)->0;
            &&& d.state.graph == fabric.graph
            &&& d.state.config == fabric.config
            &&& d.state.partitions == fabric.partitions
            &&& d.state.next_message_id == fabric.next_message_id + 1
            &&& dropped_for(d.event, DropReason::Partitioned) ==> d.state.rng == fabric.rng
            &&& dropped_for(d.event, DropReason::PacketLoss) || dropped_for(
                d.event,
                DropReason::NoRoute,
            ) ==> d.state.rng == past(fabric.config.packet_loss, fabric.rng)
            &&& dropped_for(d.event, DropReason::Partitioned) || dropped_for(
                d.event,
                DropReason::PacketLoss,
            ) || dropped_for(d.event, DropReason::NoRoute) ==> {
                &&& d.state.model == fabric.model
                &&& d.state.bandwidths == fabric.bandwidths
                &&& d.state.link_busy == fabric.link_busy
            }
            &&& forall|a: NodeId, b: NodeId|
                (a, b) != (src, dst) ==> {
                    &&& #[trigger] d.state.bandwidths.contains_key((a, b))
                        == fabric.bandwidths.contains_key((a, b))
                    &&& d.state.bandwidths[(a, b)] == fabric.bandwidths[(a, b)]
                }
        }),
{
}

/// Whether `n` is the number of nanoseconds that `size_bytes` take at `bps` bytes per second:
/// the fewest in which so many bytes go through, or the most that can be represented.
pub open spec fn takes(bps: u64, size_bytes: u64, n: nat) -> bool {
    if bps == 0 || size_bytes == 0 {
        n == 0
    } else {
        &&& n > 0
        &&& (n - 1) * bps < size_bytes * 1_000_000_000
        &&& n * bps >= size_bytes * 1_000_000_000 || n == u64::MAX
    }
}

/// A transmission takes the fewest nanoseconds in which the bytes go through.
pub proof fn transmissions_take_as_long_as_they_must(bps: u64, size_bytes: u64)
    ensures
        takes(bps, size_bytes, transmission(bps, size_bytes) as nat),
{
    if bps > 0 && size_bytes > 0 {
        let b = bps as int;
        let work = size_bytes * 1_000_000_000;
        let n = (work + b - 1) / b;
        vstd::arithmetic::div_mod::lemma_fundamental_div_mod(work + b - 1, b);
        assert(n * b == b * n) by (nonlinear_arith);
        assert(n > 0) by (nonlinear_arith)
            requires
                b * n + (work + b - 1) % b == work + b - 1,
                (work + b - 1) % b < b,
                work > 0,
                b > 0,
        ;
        assert((n - 1) * b == n * b - b) by (nonlinear_arith);
        let m = transmission(bps, size_bytes) as int;
        if n > u64::MAX {
            assert((m - 1) * b <= (n - 1) * b) by (nonlinear_arith)
                requires
                    m <= n,
                    b > 0,
            ;
        }
    }
}

/// Whether `n` bytes wait at `now` on a link that is busy until `busy_to`: none if it is not
/// busy any more, and otherwise as many whole bytes as go through in the time that is left, or
/// the most that can be represented.
pub open spec fn bytes_wait(bps: u64, busy_to: nat, now: nat, n: nat) -> bool {
    if bps == 0 || busy_to <= now {
        n == 0
    } else {
        &&& n * 1_000_000_000 <= (busy_to - now) * bps
        &&& (busy_to - now) * bps < (n + 1) * 1_000_000_000 || n == u64::MAX
    }
}

/// What waits on a link is what will go through in the time that it is still busy.
pub proof fn what_waits_will_go_through(bps: u64, busy_to: nat, now: nat)
    ensures
        bytes_wait(bps, busy_to, now, pending_bytes(bps, busy_to as int, now as int) as nat),
{
    if bps > 0 && busy_to > now {
        let work = (busy_to - now) * bps;
        assert(work >= 0) by (nonlinear_arith)
            requires
                work == (busy_to - now) * bps,
                busy_to > now,
                bps > 0,
        ;
    }
}

/// Whether a limited link lets a message through that is ready at `now`, given that it is
/// busy until `busy_to`: it has no buffer, or the buffer holds the message on top of what
/// waits and the policy does not drop it. `after` is the generator afterwards.
pub open spec fn lets_through(
    link: Link,
    size_bytes: u64,
    busy_to: nat,
    now: nat,
    rng: RngState,
    after: RngState,
) -> bool {
    match link.buffer_bytes {
        None => after == rng,
        Some(room) => exists|n: u64| #[trigger]
            bytes_wait(link.bandwidth->0, busy_to, now, n as nat) && n + size_bytes <= room && (
            false, after) == link.drop_policy.drops(n, rng),
    }
}

/// Whether a limited link turns a message away that is ready at `now`, given that it is busy
/// until `busy_to`: the message does not fit into the buffer on top of what waits there, or
/// the policy drops it. `after` is the generator afterwards.
pub open spec fn turns_away(
    link: Link,
    size_bytes: u64,
    busy_to: nat,
    now: nat,
    rng: RngState,
    after: RngState,
) -> bool {
    link.buffer_bytes matches Some(room) && exists|n: u64| #[trigger]
        bytes_wait(link.bandwidth->0, busy_to, now, n as nat) && (n + size_bytes > room
            || link.drop_policy.drops(n, rng).0) && after == link.drop_policy.drops(n, rng).1
}

/// Until when the link of a pair of nodes is busy.
pub open spec fn taken_until(busy: Map<(NodeId, NodeId), Time>, a: NodeId, b: NodeId) -> nat {
    if busy.contains_key((a, b)) {
        busy[(a, b)].0 as nat
    } else {
        0
    }
}

/// Whether a message comes from one node of its path to the next, over the first link that
/// leads there. Over an unlimited link that takes the latency of the link. A limited link is
/// taken only once it is free, for as long as the transmission takes, and the latency comes on
/// top.
pub open spec fn crosses(
    g: Graph,
    dst: NodeId,
    size_bytes: u64,
    busy: Map<(NodeId, NodeId), Time>,
    p: Passage,
    q: Passage,
) -> bool {
    &&& p.node != dst
    &&& route_of(g, p.node, dst) is Some
    &&& q.node == route_of(g, p.node, dst)->0.next_hop
    &&& link_of(g, p.node, q.node) matches Some(link) && {
        let busy_to = taken_until(busy, p.node, q.node);
        &&& q.latency == p.latency + link.latency.0
        &&& match link.bandwidth {
            None => q.time == p.time + link.latency.0 && q.admissions == p.admissions && q.rng
                == p.rng,
            Some(bps) => {
                &&& lets_through(link, size_bytes, busy_to, p.time, p.rng, q.rng)
                &&& q.admissions.len() == p.admissions.len() + 1
                &&& q.admissions.drop_last() == p.admissions
                &&& q.admissions.last().0 == (p.node, q.node)
                &&& ({
                    let through = q.admissions.last().1;
                    let started = if p.time < busy_to {
                        busy_to
                    } else {
                        p.time
                    };
                    &&& through >= started
                    &&& takes(bps, size_bytes, (through - started) as nat)
                    &&& q.time == through + link.latency.0
                })
            },
        }
    }
}

/// Whether `stages` follows a message from node to node.
pub open spec fn is_journey(
    g: Graph,
    dst: NodeId,
    size_bytes: u64,
    busy: Map<(NodeId, NodeId), Time>,
    stages: Seq<Passage>,
) -> bool {
    &&& stages.len() > 0
    &&& forall|i: int|
        0 <= i < stages.len() - 1 ==> crosses(
            g,
            dst,
            size_bytes,
            busy,
            #[trigger] stages[i],
            stages[i + 1],
        )
}

/// Whether the next link on the path of a message turns it away.
pub open spec fn is_stopped(
    g: Graph,
    dst: NodeId,
    size_bytes: u64,
    busy: Map<(NodeId, NodeId), Time>,
    p: Passage,
    after: RngState,
) -> bool {
    &&& p.node != dst
    &&& route_of(g, p.node, dst) matches Some(r) && link_of(g, p.node, r.next_hop) matches Some(
        link,
    ) && link.bandwidth is Some && turns_away(
        link,
        size_bytes,
        taken_until(busy, p.node, r.next_hop),
        p.time,
        p.rng,
        after,
    )
}

/// The first link to a node is one of the links to it, with none before it; there is none
/// exactly if no link leads there.
pub proof fn first_links_come_first(g: Graph, src: NodeId, dst: NodeId)
    requires
        g.has(src),
    ensures
        ({
            let row = g.links[src.0 as int];
            match link_of(g, src, dst) {
                Some(link) => exists|k: int|
                    {
                        &&& 0 <= k < row.len()
                        &&& #[trigger] row[k] == link
                        &&& link.target == dst
                        &&& forall|j: int| 0 <= j < k ==> (#[trigger] row[j]).target != dst
                    },
                None => forall|k: int| 0 <= k < row.len() ==> (#[trigger] row[k]).target != dst,
            }
        }),
{
    lemma_first_link(g.links[src.0 as int], dst, 0);
}

proof fn lemma_first_link(row: Seq<Link>, dst: NodeId, from: int)
    requires
        0 <= from <= row.len(),
    ensures
        match first_link(row, dst, from) {
            Some(link) => exists|k: int|
                {
                    &&& from <= k < row.len()
                    &&& #[trigger] row[k] == link
                    &&& link.target == dst
                    &&& forall|j: int| from <= j < k ==> (#[trigger] row[j]).target != dst
                },
            None => forall|k: int| from <= k < row.len() ==> (#[trigger] row[k]).target != dst,
        },
    decreases row.len() - from,
{
    if from < row.len() {
        if row[from].target == dst {
            assert(row[from] == row[from]);
        } else {
            lemma_first_link(row, dst, from + 1);
            if let Some(link) = first_link(row, dst, from + 1) {
                let k = choose|k: int|
                    {
                        &&& from + 1 <= k < row.len()
                        &&& #[trigger] row[k] == link
                        &&& link.target == dst
                        &&& forall|j: int| from + 1 <= j < k ==> (#[trigger] row[j]).target != dst
                    };
                assert(row[k] == link);
            }
        }
    }
}

/// The next hop of a route is the far end of a link.
proof fn lemma_next_hop_is_linked(g: Graph, src: NodeId, dst: NodeId)
    requires
        g.wf(),
        g.has(src),
        g.has(dst),
        src != dst,
        route_of(g, src, dst) is Some,
    ensures
        g.has(route_of(g, src, dst)->0.next_hop),
        link_of(g, src, route_of(g, src, dst)->0.next_hop) is Some,
{
    crate::net::consistency::next_hop_has_the_rest_of_the_route(g, src, dst);
    let next = route_of(g, src, dst)->0.next_hop;
    first_links_come_first(g, src, next);
    let link = choose|link: Link|
        {
            &&& #[trigger] g.links[src.0 as int].contains(link)
            &&& g.live(src, link)
            &&& link.target == next
        };
    let k = choose|k: int|
        0 <= k < g.links[src.0 as int].len() && g.links[src.0 as int][k] == link;
    assert(g.links[src.0 as int][k].target == next);
}

proof fn lemma_journey(
    p: Passage,
    g: Graph,
    dst: NodeId,
    size_bytes: u64,
    busy: Map<(NodeId, NodeId), Time>,
    hops: nat,
) -> (stages: Seq<Passage>)
    requires
        g.wf(),
        g.has(p.node),
        g.has(dst),
    ensures
        is_journey(g, dst, size_bytes, busy, stages),
        stages[0] == p,
        match p.onward(g, dst, size_bytes, busy, hops) {
            Admission::Through(end) => end == stages.last() && end.node == dst,
            Admission::Refused(end) => is_stopped(
                g,
                dst,
                size_bytes,
                busy,
                stages.last(),
                end.rng,
            ) && end == (Passage { rng: end.rng, ..stages.last() }),
            _ => true,
        },
    decreases hops,
{
    let alone = seq![p];
    if p.node == dst || hops == 0 {
        alone
    } else if let Some(r) = route_of(g, p.node, dst) {
        lemma_next_hop_is_linked(g, p.node, dst);
        let link = link_of(g, p.node, r.next_hop)->0;
        let busy_to = taken_until(busy, p.node, r.next_hop);
        if let Some(bps) = link.bandwidth {
            transmissions_take_as_long_as_they_must(bps, size_bytes);
            what_waits_will_go_through(bps, busy_to, p.time);
            let n = pending_bytes(bps, busy_to as int, p.time as int);
            assert(bytes_wait(bps, busy_to, p.time, n as nat));
        }
        match p.over(Some(link), r.next_hop, size_bytes, busy) {
            Admission::Through(q) => {
                assert(crosses(g, dst, size_bytes, busy, p, q)) by {
                    if link.bandwidth is Some {
                        assert(q.admissions.drop_last() =~= p.admissions);
                    }
                }
                let rest = lemma_journey(q, g, dst, size_bytes, busy, (hops - 1) as nat);
                let stages = alone + rest;
                assert forall|i: int| 0 <= i < stages.len() - 1 implies crosses(
                    g,
                    dst,
                    size_bytes,
                    busy,
                    #[trigger] stages[i],
                    stages[i + 1],
                ) by {
                    if i > 0 {
                        assert(stages[i] == rest[i - 1]);
                        assert(stages[i + 1] == rest[i - 1 + 1]);
                        assert(crosses(g, dst, size_bytes, busy, rest[i - 1], rest[i - 1 + 1]));
                    }
                }
                assert(stages.last() == rest.last());
                stages
            },
            _ => alone,
        }
    } else {
        alone
    }
}

/// A journey takes at least the latencies of its links, and no more where no link is limited.
proof fn lemma_journey_takes_time(
    g: Graph,
    dst: NodeId,
    size_bytes: u64,
    busy: Map<(NodeId, NodeId), Time>,
    stages: Seq<Passage>,
    i: int,
)
    requires
        is_journey(g, dst, size_bytes, busy, stages),
        0 <= i < stages.len(),
    ensures
        stages[i].latency >= stages[0].latency,
        stages[i].time - stages[0].time >= stages[i].latency - stages[0].latency,
        (forall|j: int|
            0 <= j < i ==> link_of(g, (#[trigger] stages[j]).node, stages[j + 1].node)->0.bandwidth
                is None) ==> stages[i].time - stages[0].time == stages[i].latency
            - stages[0].latency,
    decreases i,
{
    if i > 0 {
        lemma_journey_takes_time(g, dst, size_bytes, busy, stages, i - 1);
        assert(crosses(g, dst, size_bytes, busy, stages[i - 1], stages[i - 1 + 1]));
    }
}

/// Whether `ready` is when a message sent at `time` is through the limit between its ends: at
/// once where there is no limit or the message has no size, and otherwise after its
/// transmission, which starts when the transmissions before it are over.
pub open spec fn paces<L>(
    fabric: FabricState<L>,
    src: NodeId,
    dst: NodeId,
    size_bytes: u64,
    time: Time,
    ready: nat,
) -> bool {
    if size_bytes == 0 || !fabric.bandwidths.contains_key((src, dst)) {
        ready == time.0
    } else {
        let limit = fabric.bandwidths[(src, dst)];
        let started = if time.0 < limit.link_free_at.0 {
            limit.link_free_at.0
        } else {
            time.0
        };
        ready >= started && takes(limit.bps, size_bytes, (ready - started) as nat)
    }
}

/// Whether the limits between pairs of nodes are as before, but for that from `src` to `dst`,
/// which is taken until `ready` by a message with a size.
pub open spec fn paced_anew<L>(
    before: FabricState<L>,
    after: FabricState<L>,
    src: NodeId,
    dst: NodeId,
    size_bytes: u64,
    ready: nat,
) -> bool {
    forall|pair: (NodeId, NodeId)|
        {
            &&& #[trigger] after.bandwidths.contains_key(pair) == before.bandwidths.contains_key(
                pair,
            )
            &&& after.bandwidths.contains_key(pair) ==> after.bandwidths[pair].bps
                == before.bandwidths[pair].bps && after.bandwidths[pair].link_free_at.0 == (if pair
                == (src, dst) && size_bytes > 0 {
                ready
            } else {
                before.bandwidths[pair].link_free_at.0 as nat
            })
        }
}

/// Whether the links are busy as before, but for those that a message has taken, which are
/// busy until it is through.
pub open spec fn taken_anew(
    before: Map<(NodeId, NodeId), Time>,
    after: Map<(NodeId, NodeId), Time>,
    admissions: Seq<((NodeId, NodeId), nat)>,
) -> bool {
    &&& forall|i: int|
        0 <= i < admissions.len() && (forall|j: int|
            i < j < admissions.len() ==> (#[trigger] admissions[j]).0 != admissions[i].0)
            ==> after.contains_key((#[trigger] admissions[i]).0) && after[admissions[i].0].0
            == admissions[i].1
    &&& forall|pair: (NodeId, NodeId)|
        (forall|i: int| 0 <= i < admissions.len() ==> (#[trigger] admissions[i]).0 != pair) ==> {
            &&& #[trigger] after.contains_key(pair) == before.contains_key(pair)
            &&& after[pair] == before[pair]
        }
}

proof fn lemma_committed_at(
    busy: Map<(NodeId, NodeId), Time>,
    admissions: Seq<((NodeId, NodeId), nat)>,
    i: int,
)
    requires
        0 <= i < admissions.len(),
        admissions[i].1 <= u64::MAX,
        forall|j: int|
            i < j < admissions.len() ==> (#[trigger] admissions[j]).0 != admissions[i].0,
    ensures
        committed(busy, admissions).contains_key(admissions[i].0),
        committed(busy, admissions)[admissions[i].0].0 == admissions[i].1,
    decreases admissions.len(),
{
    let fewer = admissions.drop_last();
    if i < fewer.len() {
        assert(admissions[admissions.len() - 1].0 != admissions[i].0);
        assert(fewer[i] == admissions[i]);
        assert forall|j: int| i < j < fewer.len() implies (#[trigger] fewer[j]).0 != fewer[i].0 by {
            assert(fewer[j] == admissions[j]);
        }
        lemma_committed_at(busy, fewer, i);
    }
}

proof fn lemma_committed_elsewhere(
    busy: Map<(NodeId, NodeId), Time>,
    admissions: Seq<((NodeId, NodeId), nat)>,
    pair: (NodeId, NodeId),
)
    requires
        forall|i: int| 0 <= i < admissions.len() ==> (#[trigger] admissions[i]).0 != pair,
    ensures
        committed(busy, admissions).contains_key(pair) == busy.contains_key(pair),
        committed(busy, admissions)[pair] == busy[pair],
    decreases admissions.len(),
{
    if admissions.len() > 0 {
        let fewer = admissions.drop_last();
        assert(admissions[admissions.len() - 1].0 != pair);
        assert forall|i: int| 0 <= i < fewer.len() implies (#[trigger] fewer[i]).0 != pair by {
            assert(fewer[i] == admissions[i]);
        }
        lemma_committed_elsewhere(busy, fewer, pair);
    }
}

proof fn lemma_committed(
    busy: Map<(NodeId, NodeId), Time>,
    admissions: Seq<((NodeId, NodeId), nat)>,
)
    requires
        forall|i: int| 0 <= i < admissions.len() ==> (#[trigger] admissions[i]).1 <= u64::MAX,
    ensures
        taken_anew(busy, committed(busy, admissions), admissions),
{
    let after = committed(busy, admissions);
    assert forall|i: int|
        0 <= i < admissions.len() && (forall|j: int|
            i < j < admissions.len() ==> (#[trigger] admissions[j]).0
                != admissions[i].0) implies after.contains_key((#[trigger] admissions[i]).0)
        && after[admissions[i].0].0 == admissions[i].1 by {
        lemma_committed_at(busy, admissions, i);
    }
    assert forall|pair: (NodeId, NodeId)|
        (forall|i: int|
            0 <= i < admissions.len() ==> (#[trigger] admissions[i]).0 != pair) implies {
        &&& #[trigger] after.contains_key(pair) == busy.contains_key(pair)
        &&& after[pair] == busy[pair]
    } by {
        lemma_committed_elsewhere(busy, admissions, pair);
    }
}

/// Admissions along a journey are over by the time that the message is past them.
proof fn lemma_admissions_end(
    g: Graph,
    dst: NodeId,
    size_bytes: u64,
    busy: Map<(NodeId, NodeId), Time>,
    stages: Seq<Passage>,
    i: int,
)
    requires
        is_journey(g, dst, size_bytes, busy, stages),
        stages[0].admissions.len() == 0,
        0 <= i < stages.len(),
    ensures
        forall|k: int|
            0 <= k < stages[i].admissions.len() ==> (#[trigger] stages[i].admissions[k]).1
                <= stages[i].time,
    decreases i,
{
    if i > 0 {
        lemma_admissions_end(g, dst, size_bytes, busy, stages, i - 1);
        let p = stages[i - 1];
        let q = stages[i];
        assert(crosses(g, dst, size_bytes, busy, stages[i - 1], stages[i - 1 + 1]));
        assert forall|k: int| 0 <= k < q.admissions.len() implies (#[trigger] q.admissions[k]).1
            <= q.time by {
            if k < p.admissions.len() {
                if q.admissions.len() > p.admissions.len() {
                    assert(q.admissions.drop_last()[k] == q.admissions[k]);
                }
                assert(p.admissions[k].1 <= p.time);
            }
        }
    }
}

/// The way of a message that has a route and is not refused. It passes the limit between its
/// ends, then goes from node to node along the routes, and arrives as much later than the
/// latency that the model computes for the route as it was held up on the way. The model
/// computes that latency for every message, whatever its size, from the latency of the route
/// and the random bits after those for its loss. Every limited link that it takes is busy until
/// it is through, and every other link as before.
pub proof fn messages_go_their_way<P, L: LatencyModel>(
    fabric: FabricState<L>,
    time: Time,
    src: NodeId,
    dst: NodeId,
    payload: P,
    size_bytes: u64,
) -> (r: (nat, Seq<Passage>))
    requires
        fabric.graph.wf(),
        fabric.graph.has(src),
        fabric.graph.has(dst),
        fabric.dispatch(time, src, dst, payload, size_bytes) matches Some(d) && d.event is Deliver,
    ensures
        ({
            let d = fabric.dispatch(time, src, dst, payload, size_bytes)->0;
            let (ready, stages) = r;
            let route = route_of(fabric.graph, src, dst)->0;
            let (latency, model, rng) = fabric.model.computed(
                route.total_latency,
                past(fabric.config.packet_loss, fabric.rng),
            );
            &&& route_of(fabric.graph, src, dst) is Some
            &&& paces(fabric, src, dst, size_bytes, time, ready)
            &&& paced_anew(fabric, d.state, src, dst, size_bytes, ready)
            &&& is_journey(fabric.graph, dst, size_bytes, fabric.link_busy, stages)
            &&& stages[0] == (Passage {
                node: src,
                time: ready,
                latency: 0,
                admissions: Seq::empty(),
                rng,
            })
            &&& d.state.model == model
            &&& size_bytes == 0 ==> {
                &&& stages.len() == 1
                &&& d.time.0 == ready + latency.0
                &&& d.state.rng == rng
                &&& d.state.link_busy == fabric.link_busy
            }
            &&& size_bytes > 0 ==> {
                &&& stages.last().node == dst
                &&& d.time.0 == ready + latency.0 + (stages.last().time - ready
                    - stages.last().latency)
                &&& d.state.rng == stages.last().rng
                &&& taken_anew(
                    fabric.link_busy,
                    d.state.link_busy,
                    stages.last().admissions,
                )
            }
        }),
{
    let (lost, tossed) = fabric.tossed();
    let route = route_of(fabric.graph, src, dst)->0;
    let (latency, model, rng) = fabric.model.computed(route.total_latency, tossed.rng);
    assert(tossed.rng == past(fabric.config.packet_loss, fabric.rng));
    let sent = FabricState { model, rng, ..tossed };
    let (departure, pair_tx) = sent.paced(src, dst, size_bytes, time);
    let ready = departure + pair_tx;
    let occupied = sent.occupied(src, dst, size_bytes, ready);
    if size_bytes > 0 && fabric.bandwidths.contains_key((src, dst)) {
        transmissions_take_as_long_as_they_must(fabric.bandwidths[(src, dst)].bps, size_bytes);
    }
    let start = occupied.departing(src, ready);
    if size_bytes == 0 {
        (ready, seq![start])
    } else {
        routes_reach_their_destination(occupied, src, dst, size_bytes, ready);
        let stages = lemma_journey(
            start,
            fabric.graph,
            dst,
            size_bytes,
            fabric.link_busy,
            fabric.graph.links.len(),
        );
        let last = stages.len() - 1;
        lemma_journey_takes_time(
            fabric.graph,
            dst,
            size_bytes,
            fabric.link_busy,
            stages,
            last,
        );
        lemma_admissions_end(fabric.graph, dst, size_bytes, fabric.link_busy, stages, last);
        let end = stages.last();
        assert forall|i: int| 0 <= i < end.admissions.len() implies (
        #[trigger] end.admissions[i]).1 <= u64::MAX by {
            assert(stages[last].admissions[i].1 <= stages[last].time);
        }
        lemma_committed(fabric.link_busy, end.admissions);
        (ready, stages)
    }
}

/// Sending comes to nothing only where it cannot be represented: no number is left for the
/// message, or, for one that is neither parted from its destination nor lost, the model computes
/// no latency for its route, or a time on its way is beyond the last.
pub proof fn only_what_cannot_be_represented_is_not_sent<P, L: LatencyModel>(
    fabric: FabricState<L>,
    time: Time,
    src: NodeId,
    dst: NodeId,
    payload: P,
    size_bytes: u64,
) -> (r: (nat, Seq<Passage>))
    requires
        fabric.graph.wf(),
        fabric.graph.has(src),
        fabric.graph.has(dst),
        fabric.next_message_id < u64::MAX,
        fabric.dispatch(time, src, dst, payload, size_bytes) is None,
    ensures
        ({
            let (ready, stages) = r;
            let route = route_of(fabric.graph, src, dst)->0;
            let tossed = past(fabric.config.packet_loss, fabric.rng);
            let (latency, model, rng) = fabric.model.computed(route.total_latency, tossed);
            &&& !parted(fabric.partitions, src, dst)
            &&& !comes_about(fabric.config.packet_loss, fabric.rng)
            &&& route_of(fabric.graph, src, dst) is Some
            &&& !fabric.model.admits(route.total_latency, tossed) || {
                &&& paces(fabric, src, dst, size_bytes, time, ready)
                &&& is_journey(fabric.graph, dst, size_bytes, fabric.link_busy, stages)
                &&& stages[0] == (Passage {
                    node: src,
                    time: ready,
                    latency: 0,
                    admissions: Seq::empty(),
                    rng,
                })
                &&& ready > u64::MAX || stages.last().time > u64::MAX || ready + latency.0 + (
                stages.last().time - ready - stages.last().latency) > u64::MAX
            }
        }),
{
    let (lost, tossed) = fabric.tossed();
    let route = route_of(fabric.graph, src, dst)->0;
    let (latency, model, rng) = fabric.model.computed(route.total_latency, tossed.rng);
    assert(tossed.rng == past(fabric.config.packet_loss, fabric.rng));
    let sent = FabricState { model, rng, ..tossed };
    let (departure, pair_tx) = sent.paced(src, dst, size_bytes, time);
    let ready = departure + pair_tx;
    let occupied = sent.occupied(src, dst, size_bytes, ready);
    if size_bytes > 0 && fabric.bandwidths.contains_key((src, dst)) {
        transmissions_take_as_long_as_they_must(fabric.bandwidths[(src, dst)].bps, size_bytes);
    }
    let start = occupied.departing(src, ready);
    if size_bytes == 0 {
        (ready, seq![start])
    } else {
        routes_reach_their_destination(occupied, src, dst, size_bytes, ready);
        let stages = lemma_journey(
            start,
            fabric.graph,
            dst,
            size_bytes,
            fabric.link_busy,
            fabric.graph.links.len(),
        );
        let last = stages.len() - 1;
        lemma_journey_takes_time(
            fabric.graph,
            dst,
            size_bytes,
            fabric.link_busy,
            stages,
            last,
        );
        (ready, stages)
    }
}

/// No message arrives sooner after it was sent than the latency that the model computes for its
/// route, whatever its size, and it arrives exactly then where no bandwidth limit lies between
/// its ends or anywhere in the topology, or where it has no size.
pub proof fn latency_models_apply_to_every_message<P, L: LatencyModel>(
    fabric: FabricState<L>,
    time: Time,
    src: NodeId,
    dst: NodeId,
    payload: P,
    size_bytes: u64,
)
    requires
        fabric.graph.wf(),
        fabric.graph.has(src),
        fabric.graph.has(dst),
        fabric.dispatch(time, src, dst, payload, size_bytes) matches Some(d) && d.event is Deliver,
    ensures
        ({
            let d = fabric.dispatch(time, src, dst, payload, size_bytes)->0;
            let route = route_of(fabric.graph, src, dst)->0;
            let (latency, model, rng) = fabric.model.computed(
                route.total_latency,
                past(fabric.config.packet_loss, fabric.rng),
            );
            let unlimited = !fabric.bandwidths.contains_key((src, dst)) && forall|u: int, k: int|
                0 <= u < fabric.graph.links.len() && 0 <= k < fabric.graph.links[u].len()
                    ==> (#[trigger] fabric.graph.links[u][k]).bandwidth is None;
            &&& d.time.0 >= time.0 + latency.0
            &&& size_bytes == 0 || unlimited ==> d.time.0 == time.0 + latency.0 && d.state.rng
                == rng
            &&& d.state.model == model
        }),
{
    let (ready, stages) = messages_go_their_way(fabric, time, src, dst, payload, size_bytes);
    let g = fabric.graph;
    let last = stages.len() - 1;
    lemma_journey_takes_time(g, dst, size_bytes, fabric.link_busy, stages, last);
    let unlimited = !fabric.bandwidths.contains_key((src, dst)) && forall|u: int, k: int|
        0 <= u < g.links.len() && 0 <= k < g.links[u].len() ==> (
        #[trigger] g.links[u][k]).bandwidth is None;
    if unlimited {
        assert forall|j: int| 0 <= j < last implies link_of(
            g,
            (#[trigger] stages[j]).node,
            stages[j + 1].node,
        )->0.bandwidth is None by {
            assert(crosses(g, dst, size_bytes, fabric.link_busy, stages[j], stages[j + 1]));
            let u = stages[j].node;
            first_links_come_first(g, u, stages[j + 1].node);
            let row = g.links[u.0 as int];
            let link = link_of(g, u, stages[j + 1].node)->0;
            let k = choose|k: int| 0 <= k < row.len() && #[trigger] row[k] == link;
            assert(g.links[u.0 as int][k].bandwidth is None);
        }
        lemma_rng_rests(g, dst, size_bytes, fabric.link_busy, stages, last);
    }
}

/// Where no link is limited, a journey takes no random bits.
proof fn lemma_rng_rests(
    g: Graph,
    dst: NodeId,
    size_bytes: u64,
    busy: Map<(NodeId, NodeId), Time>,
    stages: Seq<Passage>,
    i: int,
)
    requires
        is_journey(g, dst, size_bytes, busy, stages),
        0 <= i < stages.len(),
        forall|j: int|
            0 <= j < i ==> link_of(g, (#[trigger] stages[j]).node, stages[j + 1].node)->0.bandwidth
                is None,
    ensures
        stages[i].rng == stages[0].rng,
    decreases i,
{
    if i > 0 {
        lemma_rng_rests(g, dst, size_bytes, busy, stages, i - 1);
        assert(crosses(g, dst, size_bytes, busy, stages[i - 1], stages[i - 1 + 1]));
    }
}

/// A message is dropped at a link exactly where the link turns it away: on its way from node to
/// node it comes to a limited link whose buffer does not hold it on top of what waits there, or
/// whose policy drops it. It takes none of the links, but it has passed the limit between its
/// ends, and the latency was computed.
pub proof fn refused_messages_meet_a_full_link<P, L: LatencyModel>(
    fabric: FabricState<L>,
    time: Time,
    src: NodeId,
    dst: NodeId,
    payload: P,
    size_bytes: u64,
) -> (r: (nat, Seq<Passage>))
    requires
        fabric.graph.wf(),
        fabric.graph.has(src),
        fabric.graph.has(dst),
        fabric.dispatch(time, src, dst, payload, size_bytes) matches Some(d) && dropped_for(
            d.event,
            DropReason::BufferOverflow,
        ),
    ensures
        ({
            let d = fabric.dispatch(time, src, dst, payload, size_bytes)->0;
            let (ready, stages) = r;
            let route = route_of(fabric.graph, src, dst)->0;
            let (latency, model, rng) = fabric.model.computed(
                route.total_latency,
                past(fabric.config.packet_loss, fabric.rng),
            );
            &&& paces(fabric, src, dst, size_bytes, time, ready)
            &&& paced_anew(fabric, d.state, src, dst, size_bytes, ready)
            &&& is_journey(fabric.graph, dst, size_bytes, fabric.link_busy, stages)
            &&& stages[0] == (Passage {
                node: src,
                time: ready,
                latency: 0,
                admissions: Seq::empty(),
                rng,
            })
            &&& is_stopped(
                fabric.graph,
                dst,
                size_bytes,
                fabric.link_busy,
                stages.last(),
                d.state.rng,
            )
            &&& d.state.model == model
            &&& d.state.link_busy == fabric.link_busy
            &&& d.time == time
        }),
{
    let (lost, tossed) = fabric.tossed();
    let route = route_of(fabric.graph, src, dst)->0;
    let (latency, model, rng) = fabric.model.computed(route.total_latency, tossed.rng);
    assert(tossed.rng == past(fabric.config.packet_loss, fabric.rng));
    let sent = FabricState { model, rng, ..tossed };
    let (departure, pair_tx) = sent.paced(src, dst, size_bytes, time);
    let ready = departure + pair_tx;
    let occupied = sent.occupied(src, dst, size_bytes, ready);
    if fabric.bandwidths.contains_key((src, dst)) {
        transmissions_take_as_long_as_they_must(fabric.bandwidths[(src, dst)].bps, size_bytes);
    }
    let stages = lemma_journey(
        occupied.departing(src, ready),
        fabric.graph,
        dst,
        size_bytes,
        fabric.link_busy,
        fabric.graph.links.len(),
    );
    (ready, stages)
}

/// A limited link with a buffer lets a message through only if the buffer holds it on top of
/// what waits, and a link that drops nothing early turns a message away only if it does not.
/// A link without a buffer turns nothing away.
pub proof fn buffers_hold_what_they_can(
    p: Passage,
    link: Link,
    next: NodeId,
    size_bytes: u64,
    busy: Map<(NodeId, NodeId), Time>,
)
    requires
        link.bandwidth is Some,
    ensures
        ({
            let after = p.over(Some(link), next, size_bytes, busy);
            let busy_to = taken_until(busy, p.node, next);
            &&& after is Through || after is Refused
            &&& link.buffer_bytes is None ==> after is Through
            &&& link.buffer_bytes matches Some(room) ==> forall|n: u64| #[trigger]
                bytes_wait(link.bandwidth->0, busy_to, p.time, n as nat) ==> {
                    &&& after is Through ==> n + size_bytes <= room
                    &&& after is Refused && link.drop_policy is TailDrop ==> n + size_bytes > room
                    &&& after is Refused ==> n + size_bytes > room || link.drop_policy.drops(
                        n,
                        p.rng,
                    ).0
                }
        }),
{
    let busy_to = taken_until(busy, p.node, next);
    let bps = link.bandwidth->0;
    what_waits_will_go_through(bps, busy_to, p.time);
    let m = pending_bytes(bps, busy_to as int, p.time as int);
    assert forall|n: u64| #[trigger] bytes_wait(bps, busy_to, p.time, n as nat) implies n == m by {
        if bps > 0 && busy_to > p.time {
            assert(n <= m);
            assert(m <= n);
        }
    }
}

} // verus!
