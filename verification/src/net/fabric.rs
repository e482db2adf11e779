//! What decides the fate of a message: partitions, loss, routing, latency and
//! bandwidth.

use vstd::prelude::*;

use crate::net::graph::{link_of, route_of, Graph, Link, Route};
use crate::net::latency::LatencyModel;
use crate::net::message::{DropReason, Message, NetConfig, NetEvent};
use crate::net::node::{MessageId, NodeId};
use crate::net::pairs::{PairMap, PairSet};
use crate::net::policy::policy_wants_drop;
use crate::net::topology::Topology;
use crate::rng::{chacha8_key, Probability, RngState, SimRng};
use crate::time::{saturated, Duration, Time};

verus! {

/// A bandwidth limit between two nodes.
#[derive(Debug, Clone, Copy, PartialEq, Eq, Structural)]
pub struct BandwidthState {
    /// The limit in bytes per second, above zero.
    pub bps: u64,
    /// When the transmissions so far will be over.
    pub link_free_at: Time,
}

/// The time it takes to transmit `size_bytes` at `bps` bytes per second, rounded
/// up to the next nanosecond; nothing where there is no size or no limit. A time
/// beyond the longest representable duration is cut off there.
pub open spec fn transmission(bps: u64, size_bytes: u64) -> u64 {
    if bps == 0 || size_bytes == 0 {
        0
    } else {
        saturated((size_bytes * 1_000_000_000 + bps - 1) / (bps as int))
    }
}

/// Computes the time it takes to transmit `size_bytes` at `bps` bytes per second.
pub fn transmission_duration(bps: u64, size_bytes: u64) -> (d: Duration)
    ensures
        d.0 == transmission(bps, size_bytes),
{
    if bps == 0 || size_bytes == 0 {
        return Duration(0);
    }
    let nanos: u128 = size_bytes as u128 * 1_000_000_000;
    let up: u128 = (nanos + (bps as u128 - 1)) / (bps as u128);
    if up < 0xffff_ffff_ffff_ffff {
        Duration(up as u64)
    } else {
        Duration(u64::MAX)
    }
}

/// The bytes that still wait on a link at `now`, when it is known to be busy
/// until `busy_until` at `bps` bytes per second, rounded down.
pub open spec fn pending_bytes(bps: u64, busy_until: int, now: int) -> u64 {
    if bps == 0 || busy_until <= now {
        0
    } else {
        saturated((busy_until - now) * bps / 1_000_000_000)
    }
}

/// Computes the bytes that still wait on a link at `now`.
pub fn pending_bytes_at(bps: u64, busy_until: Time, now: Time) -> (n: u64)
    ensures
        n == pending_bytes(bps, busy_until.0 as int, now.0 as int),
{
    if bps == 0 || busy_until.0 <= now.0 {
        return 0;
    }
    let remaining: u64 = busy_until.0 - now.0;
    proof {
        assert(0 <= remaining * bps <= 0xffff_ffff_ffff_ffff * 0xffff_ffff_ffff_ffff)
            by (nonlinear_arith)
            requires
                0 <= remaining <= 0xffff_ffff_ffff_ffff,
                0 <= bps <= 0xffff_ffff_ffff_ffff,
        ;
    }
    let bytes: u128 = (remaining as u128 * bps as u128) / 1_000_000_000;
    if bytes > 0xffff_ffff_ffff_ffff {
        u64::MAX
    } else {
        bytes as u64
    }
}

/// A pair of nodes regardless of order.
pub open spec fn unordered(a: NodeId, b: NodeId) -> (NodeId, NodeId) {
    if a.0 <= b.0 {
        (a, b)
    } else {
        (b, a)
    }
}

/// Brings a pair of nodes into a fixed order.
pub fn partition_key(a: NodeId, b: NodeId) -> (r: (NodeId, NodeId))
    ensures
        r == unordered(a, b),
{
    if a.0 <= b.0 {
        (a, b)
    } else {
        (b, a)
    }
}

/// A message on its way along its path, hop by hop, as its admission is decided.
#[verifier::ext_equal]
pub struct Passage {
    /// Where it stands.
    pub node: NodeId,
    /// When its first byte is ready there.
    pub time: nat,
    /// The sum of the latencies of the links it has passed.
    pub latency: nat,
    /// For each limited link it has passed, until when it will keep it busy.
    pub admissions: Seq<((NodeId, NodeId), nat)>,
    /// The state of the generator.
    pub rng: RngState,
}

/// How the admission of a message along its path ends.
#[verifier::ext_equal]
pub enum Admission {
    /// It passes every link.
    Through(Passage),
    /// The path breaks off, which no path of a message that has a route does.
    Astray(Passage),
    /// A link will not take it.
    Refused(Passage),
    /// The routes lead in a circle, which those to a node that can be reached never do.
    Endless(Passage),
}

impl Admission {
    /// How far the message has come.
    pub open spec fn passage(self) -> Passage {
        match self {
            Admission::Through(p) => p,
            Admission::Astray(p) => p,
            Admission::Refused(p) => p,
            Admission::Endless(p) => p,
        }
    }
}

/// The value of a pair, or zero.
pub open spec fn busy_until(busy: Map<(NodeId, NodeId), Time>, pair: (NodeId, NodeId)) -> nat {
    if busy.contains_key(pair) {
        busy[pair].0 as nat
    } else {
        0
    }
}

impl Passage {
    /// The passage after the link to `next`, or the refusal of that link.
    pub open spec fn over(
        self,
        link: Option<Link>,
        next: NodeId,
        size_bytes: u64,
        busy: Map<(NodeId, NodeId), Time>,
    ) -> Admission {
        let latency: nat = match link {
            Some(l) => l.latency.0 as nat,
            None => 0,
        };
        let bandwidth = match link {
            Some(l) => l.bandwidth,
            None => None,
        };
        match bandwidth {
            Some(bps) => {
                let busy_to = busy_until(busy, (self.node, next));
                let pending = pending_bytes(bps, busy_to as int, self.time as int);
                let (refused, rng) = match link->0.buffer_bytes {
                    Some(room) => {
                        let (early, rng) = link->0.drop_policy.drops(pending, self.rng);
                        (early || pending + size_bytes > room, rng)
                    },
                    None => (false, self.rng),
                };
                if refused {
                    Admission::Refused(Passage { rng, ..self })
                } else {
                    let start = if self.time >= busy_to {
                        self.time
                    } else {
                        busy_to
                    };
                    let free_at = start + transmission(bps, size_bytes) as nat;
                    Admission::Through(
                        Passage {
                            node: next,
                            time: free_at + latency,
                            latency: self.latency + latency,
                            admissions: self.admissions.push(((self.node, next), free_at)),
                            rng,
                        },
                    )
                }
            },
            None => Admission::Through(
                Passage {
                    node: next,
                    time: self.time + latency,
                    latency: self.latency + latency,
                    ..self
                },
            ),
        }
    }

    /// The admission along the routes to `dst`, over at most `hops` links.
    pub open spec fn onward(
        self,
        g: Graph,
        dst: NodeId,
        size_bytes: u64,
        busy: Map<(NodeId, NodeId), Time>,
        hops: nat,
    ) -> Admission
        decreases hops,
    {
        if self.node == dst {
            Admission::Through(self)
        } else if hops == 0 {
            Admission::Endless(self)
        } else {
            match route_of(g, self.node, dst) {
                Some(r) => {
                    match self.over(
                        link_of(g, self.node, r.next_hop),
                        r.next_hop,
                        size_bytes,
                        busy,
                    ) {
                        Admission::Through(p) => p.onward(
                            g,
                            dst,
                            size_bytes,
                            busy,
                            (hops - 1) as nat,
                        ),
                        refused => refused,
                    }
                },
                None => Admission::Astray(self),
            }
        }
    }
}

/// The busy times after taking over all admissions.
pub open spec fn committed(
    busy: Map<(NodeId, NodeId), Time>,
    admissions: Seq<((NodeId, NodeId), nat)>,
) -> Map<(NodeId, NodeId), Time>
    decreases admissions.len(),
{
    if admissions.len() == 0 {
        busy
    } else {
        committed(busy, admissions.drop_last()).insert(
            admissions.last().0,
            Time(admissions.last().1 as u64),
        )
    }
}

/// Time only passes along a path.
proof fn lemma_onward_later(
    p: Passage,
    g: Graph,
    dst: NodeId,
    size_bytes: u64,
    busy: Map<(NodeId, NodeId), Time>,
    hops: nat,
)
    ensures
        p.onward(g, dst, size_bytes, busy, hops).passage().time >= p.time,
    decreases hops,
{
    if p.node != dst && hops > 0 {
        if let Some(r) = route_of(g, p.node, dst) {
            if let Admission::Through(q) = p.over(
                link_of(g, p.node, r.next_hop),
                r.next_hop,
                size_bytes,
                busy,
            ) {
                lemma_onward_later(q, g, dst, size_bytes, busy, (hops - 1) as nat);
            }
        }
    }
}

/// What decides the fate of messages, as plain values.
#[verifier::ext_equal]
pub struct FabricState<L> {
    /// The topology.
    pub graph: Graph,
    /// The latency model.
    pub model: L,
    /// The state of the generator.
    pub rng: RngState,
    /// The number of messages sent so far.
    pub next_message_id: u64,
    /// The configuration.
    pub config: NetConfig,
    /// The pairs of nodes that are partitioned from each other.
    pub partitions: Set<(NodeId, NodeId)>,
    /// The bandwidth limits between pairs of nodes.
    pub bandwidths: Map<(NodeId, NodeId), BandwidthState>,
    /// Until when each link of limited bandwidth is busy.
    pub link_busy: Map<(NodeId, NodeId), Time>,
}

/// What becomes of a message: an event at a time.
#[verifier::ext_equal]
pub struct Dispatch<P, L> {
    /// The state after deciding it.
    pub state: FabricState<L>,
    /// When the event is due.
    pub time: Time,
    /// The event.
    pub event: NetEvent<P>,
}

/// The state and fate of a message that is dropped at once.
pub open spec fn dropped<P, L>(
    state: FabricState<L>,
    time: Time,
    message: Message<P>,
    reason: DropReason,
) -> Option<Dispatch<P, L>> {
    Some(Dispatch { state, time, event: NetEvent::Drop { message, reason } })
}

impl<L: LatencyModel> FabricState<L> {
    /// The passage of a message that is ready at `src` at `time`.
    pub open spec fn departing(self, src: NodeId, time: nat) -> Passage {
        Passage { node: src, time, latency: 0, admissions: Seq::empty(), rng: self.rng }
    }

    /// The admission of a message of `size_bytes` that is ready at `src` at `time`.
    pub open spec fn admission(self, src: NodeId, dst: NodeId, size_bytes: u64, time: nat)
        -> Admission {
        self.departing(src, time).onward(
            self.graph,
            dst,
            size_bytes,
            self.link_busy,
            self.graph.links.len(),
        )
    }
}

impl<L: LatencyModel> FabricState<L> {
    /// Whether `a` and `b` are partitioned from each other.
    pub open spec fn partitioned(self, a: NodeId, b: NodeId) -> bool {
        self.partitions.contains(unordered(a, b))
    }

    /// The state after taking a number for a message and deciding whether it is
    /// lost. Where messages are never lost there is no draw.
    pub open spec fn tossed(self) -> (bool, FabricState<L>) {
        let counted = FabricState {
            next_message_id: (self.next_message_id + 1) as u64,
            ..self
        };
        if self.config.packet_loss is Never {
            (false, counted)
        } else {
            let (lost, rng) = self.rng.toss(self.config.packet_loss);
            (lost, FabricState { rng, ..counted })
        }
    }

    /// When a message of `size_bytes` that is sent at `time` starts to be
    /// transmitted under the bandwidth limit between its ends, and how long its
    /// transmission takes.
    pub open spec fn paced(self, src: NodeId, dst: NodeId, size_bytes: u64, time: Time) -> (
        nat,
        nat,
    ) {
        if size_bytes > 0 && self.bandwidths.contains_key((src, dst)) {
            let limit = self.bandwidths[(src, dst)];
            (
                if time.0 >= limit.link_free_at.0 {
                    time.0 as nat
                } else {
                    limit.link_free_at.0 as nat
                },
                transmission(limit.bps, size_bytes) as nat,
            )
        } else {
            (time.0 as nat, 0)
        }
    }

    /// The state after a transmission under the bandwidth limit between two
    /// nodes that is over at `free_at`.
    pub open spec fn occupied(self, src: NodeId, dst: NodeId, size_bytes: u64, free_at: nat)
        -> FabricState<L> {
        if size_bytes > 0 && self.bandwidths.contains_key((src, dst)) {
            FabricState {
                bandwidths: self.bandwidths.insert(
                    (src, dst),
                    BandwidthState {
                        link_free_at: Time(free_at as u64),
                        ..self.bandwidths[(src, dst)]
                    },
                ),
                ..self
            }
        } else {
            self
        }
    }

    /// What becomes of a message that has a route and is transmitted under the
    /// bandwidth limits; `None` if it would arrive beyond the end of time.
    pub open spec fn carried<P>(
        self,
        time: Time,
        message: Message<P>,
        size_bytes: u64,
        latency: Duration,
    ) -> Option<Dispatch<P, L>> {
        let (departure, pair_tx) = self.paced(message.src, message.dst, size_bytes, time);
        let ready = departure + pair_tx;
        let occupied = self.occupied(message.src, message.dst, size_bytes, ready);
        if ready > u64::MAX {
            None
        } else if size_bytes == 0 {
            occupied.arriving(ready + latency.0 as nat, message)
        } else {
            let end = occupied.admission(message.src, message.dst, size_bytes, ready);
            let p = end.passage();
            let moved = FabricState { rng: p.rng, ..occupied };
            if p.time > u64::MAX {
                None
            } else {
                match end {
                    Admission::Through(p) => FabricState {
                        link_busy: committed(moved.link_busy, p.admissions),
                        ..moved
                    }.arriving(
                        ready + latency.0 as nat + saturated(
                            saturated(p.time - ready) - p.latency,
                        ) as nat,
                        message,
                    ),
                    Admission::Refused(p) => dropped(
                        moved,
                        time,
                        message,
                        DropReason::BufferOverflow,
                    ),
                    Admission::Astray(p) => moved.arriving(ready + latency.0 as nat, message),
                    Admission::Endless(p) => None,
                }
            }
        }
    }

    /// What becomes of a message that arrives at `at`.
    pub open spec fn arriving<P>(self, at: nat, message: Message<P>) -> Option<Dispatch<P, L>> {
        if at > u64::MAX {
            None
        } else {
            Some(
                Dispatch { state: self, time: Time(at as u64), event: NetEvent::Deliver(message) },
            )
        }
    }

    /// What becomes of a message of `size_bytes` that is sent at `time`: it is
    /// dropped if its ends are partitioned from each other, if it is lost, if
    /// there is no route or if a link refuses it, and otherwise it arrives.
    /// `None` if there is no number left for it, if it would go between working
    /// nodes one of which is not in the topology, or if a time along its way cannot
    /// be represented.
    pub open spec fn dispatch<P>(
        self,
        time: Time,
        src: NodeId,
        dst: NodeId,
        payload: P,
        size_bytes: u64,
    ) -> Option<Dispatch<P, L>> {
        let message = Message { id: MessageId(self.next_message_id), src, dst, payload };
        let (lost, tossed) = self.tossed();
        if self.next_message_id == u64::MAX {
            None
        } else if self.partitioned(src, dst) {
            dropped(
                FabricState { next_message_id: (self.next_message_id + 1) as u64, ..self },
                time,
                message,
                DropReason::Partitioned,
            )
        } else if lost {
            dropped(tossed, time, message, DropReason::PacketLoss)
        } else if !self.graph.spans(src, dst) {
            None
        } else {
            match route_of(self.graph, src, dst) {
                None => dropped(tossed, time, message, DropReason::NoRoute),
                Some(route) => {
                    if !self.model.admits(route.total_latency, tossed.rng) {
                        None
                    } else {
                        let (latency, model, rng) = self.model.computed(
                            route.total_latency,
                            tossed.rng,
                        );
                        FabricState { model, rng, ..tossed }.carried(
                            time,
                            message,
                            size_bytes,
                            latency,
                        )
                    }
                },
            }
        }
    }
}

/// Message fates are decided here.
#[derive(Debug)]
pub struct Fabric<L> {
    topology: Topology,
    latency_model: L,
    rng: SimRng,
    next_message_id: u64,
    config: NetConfig,
    partitions: PairSet,
    bandwidths: PairMap<BandwidthState>,
    link_busy: PairMap<Time>,
}

impl<L> View for Fabric<L> {
    type V = FabricState<L>;

    closed spec fn view(&self) -> FabricState<L> {
        FabricState {
            graph: self.topology@,
            model: self.latency_model,
            rng: self.rng@,
            next_message_id: self.next_message_id,
            config: self.config,
            partitions: self.partitions@,
            bandwidths: self.bandwidths@,
            link_busy: self.link_busy@,
        }
    }
}

/// Whether the first `n` executable admissions are the given ones.
spec fn same_admissions(
    found: Seq<((NodeId, NodeId), Time)>,
    expected: Seq<((NodeId, NodeId), nat)>,
) -> bool {
    &&& found.len() == expected.len()
    &&& forall|i: int|
        0 <= i < found.len() ==> (#[trigger] found[i]).0 == expected[i].0 && found[i].1.0
            == expected[i].1
}

/// What the admission of a message along its path comes to.
enum PerLinkOutcome {
    /// It passes, with this delay on top of the latencies of the links.
    Admitted(Duration),
    /// A link will not take it.
    Overflow,
    /// It would go on beyond the end of time.
    OutOfRange,
}

/// What the crossing of one link comes to.
enum Crossing {
    /// The message is ready at the far end at `time`; a link of limited
    /// bandwidth is busy until `free_at`.
    Crossed {
        /// Until when the link is busy.
        free_at: Option<Time>,
        /// When the message is ready at the far end.
        time: u64,
    },
    /// The link will not take it.
    Refused,
    /// It would take until beyond the end of time.
    OutOfRange,
}

/// Decides on the crossing of a link by a message that has come as far as `p`.
fn cross_link(
    link: Option<Link>,
    current: NodeId,
    next: NodeId,
    size_bytes: u64,
    time: u64,
    link_busy: &PairMap<Time>,
    rng: &mut SimRng,
    Ghost(p): Ghost<Passage>,
) -> (r: Crossing)
    requires
        p.node == current,
        p.time == time,
        p.rng == old(rng)@,
    ensures
        match p.over(link, next, size_bytes, link_busy@) {
            Admission::Through(q) => {
                &&& final(rng)@ == q.rng
                &&& if q.time > u64::MAX {
                    r is OutOfRange
                } else {
                    r matches Crossing::Crossed { free_at, time: t } && t == q.time
                        && q.admissions == (match free_at {
                        Some(f) => p.admissions.push(((current, next), f.0 as nat)),
                        None => p.admissions,
                    })
                }
            },
            Admission::Refused(q) => r is Refused && final(rng)@ == q.rng,
            _ => true,
        },
{
    let link: Link = match link {
        Some(l) => l,
        None => {
            return Crossing::Crossed { free_at: None, time };
        },
    };
    let bps: u64 = match link.bandwidth {
        Some(b) => b,
        None => {
            return match time.checked_add(link.latency.0) {
                Some(t) => Crossing::Crossed { free_at: None, time: t },
                None => Crossing::OutOfRange,
            };
        },
    };
    let busy: Time = match link_busy.get(current, next) {
        Some(t) => t,
        None => Time(0),
    };
    if let Some(room) = link.buffer_bytes {
        let pending: u64 = pending_bytes_at(bps, busy, Time(time));
        if policy_wants_drop(link.drop_policy, pending, rng) {
            return Crossing::Refused;
        }
        if size_bytes > room || pending > room - size_bytes {
            return Crossing::Refused;
        }
    }
    let tx: Duration = transmission_duration(bps, size_bytes);
    let departure: u64 = if time >= busy.0 {
        time
    } else {
        busy.0
    };
    match departure.checked_add(tx.0) {
        Some(free_at) => {
            match free_at.checked_add(link.latency.0) {
                Some(t) => Crossing::Crossed { free_at: Some(Time(free_at)), time: t },
                None => Crossing::OutOfRange,
            }
        },
        None => Crossing::OutOfRange,
    }
}

impl<L: LatencyModel> Fabric<L> {
    /// Decides the admission of a message along its path. Only a message that
    /// passes every link leaves them busy.
    fn walk_per_link_bandwidth(
        &mut self,
        src: NodeId,
        dst: NodeId,
        size_bytes: u64,
        start: Time,
    ) -> (r: PerLinkOutcome)
        requires
            old(self)@.graph.has(src),
            old(self)@.graph.has(dst),
        ensures
            ({
                let end = old(self)@.admission(src, dst, size_bytes, start.0 as nat);
                let p = end.passage();
                if end is Endless || p.time > u64::MAX {
                    r is OutOfRange
                } else {
                    &&& final(self)@ == (FabricState {
                        rng: p.rng,
                        link_busy: if end is Through {
                            committed(old(self)@.link_busy, p.admissions)
                        } else {
                            old(self)@.link_busy
                        },
                        ..old(self)@
                    })
                    &&& match end {
                        Admission::Through(p) => r == PerLinkOutcome::Admitted(
                            Duration(saturated(saturated(p.time - start.0) - p.latency)),
                        ),
                        Admission::Refused(p) => r is Overflow,
                        _ => r == PerLinkOutcome::Admitted(Duration(0)),
                    }
                }
            }),
    {
        let ghost before = self@;
        let ghost g = self@.graph;
        let ghost busy = self@.link_busy;
        let n: usize = self.topology.node_count();
        let mut current: NodeId = src;
        let mut time: u64 = start.0;
        let mut latency: u64 = 0;
        let mut admissions: Vec<((NodeId, NodeId), Time)> = Vec::new();
        let ghost mut p = self@.departing(src, start.0 as nat);
        let ghost end = before.admission(src, dst, size_bytes, start.0 as nat);
        let mut hops: usize = 0;
        while current != dst
            invariant
                before == old(self)@,
                end == before.admission(src, dst, size_bytes, start.0 as nat),
                g == before.graph,
                busy == before.link_busy,
                n == g.links.len(),
                hops <= n,
                g.has(current),
                g.has(dst),
                g.wf(),
                self@ == (FabricState { rng: p.rng, ..before }),
                p.node == current,
                p.time == time,
                p.latency == latency,
                p.latency <= p.time,
                same_admissions(admissions@, p.admissions),
                end == p.onward(g, dst, size_bytes, busy, (n - hops) as nat),
            decreases n - hops,
        {
            if hops == n {
                return PerLinkOutcome::OutOfRange;
            }
            let next: NodeId = match self.topology.route(current, dst) {
                Some(r) => r.next_hop,
                None => {
                    return PerLinkOutcome::Admitted(Duration(0));
                },
            };
            proof {
                crate::net::graph::route_is_shortest_path(g, current, dst);
            }
            let link: Option<Link> = match self.topology.link_between(current, next) {
                Some(l) => Some(*l),
                None => None,
            };
            let link_latency: u64 = match link {
                Some(l) => l.latency.0,
                None => 0,
            };
            let ghost step = p.over(link, next, size_bytes, busy);
            let crossing = cross_link(
                link,
                current,
                next,
                size_bytes,
                time,
                &self.link_busy,
                &mut self.rng,
                Ghost(p),
            );
            proof {
                if let Admission::Through(q) = step {
                    lemma_onward_later(q, g, dst, size_bytes, busy, (n - hops - 1) as nat);
                }
            }
            match crossing {
                Crossing::Refused => {
                    return PerLinkOutcome::Overflow;
                },
                Crossing::OutOfRange => {
                    return PerLinkOutcome::OutOfRange;
                },
                Crossing::Crossed { free_at, time: t } => {
                    if let Some(f) = free_at {
                        admissions.push(((current, next), f));
                    }
                    proof {
                        p = step.passage();
                    }
                    time = t;
                    latency = latency + link_latency;
                    current = next;
                },
            }
            hops = hops + 1;
        }
        let mut i: usize = 0;
        while i < admissions.len()
            invariant
                i <= admissions.len(),
                same_admissions(admissions@, p.admissions),
                self@ == (FabricState {
                    rng: p.rng,
                    link_busy: committed(busy, p.admissions.take(i as int)),
                    ..before
                }),
            decreases admissions.len() - i,
        {
            let (pair, free_at) = admissions[i];
            proof {
                assert(p.admissions.take(i + 1).drop_last() =~= p.admissions.take(i as int));
                assert(admissions@[i as int].0 == p.admissions[i as int].0);
            }
            self.link_busy.insert(pair.0, pair.1, free_at);
            i = i + 1;
        }
        assert(p.admissions.take(p.admissions.len() as int) =~= p.admissions);
        let elapsed: Duration = Time(time).saturating_duration_since(start);
        PerLinkOutcome::Admitted(elapsed.saturating_sub(Duration(latency)))
    }
}

/// What becomes of a message.
pub(crate) struct Fate<P> {
    /// When the event is due.
    pub(crate) time: Time,
    /// The event.
    pub(crate) event: NetEvent<P>,
}

impl<L: LatencyModel> Fabric<L> {
    /// Decides what becomes of a message, if that can be represented.
    pub(crate) fn dispatch<P>(
        &mut self,
        time: Time,
        src: NodeId,
        dst: NodeId,
        payload: P,
        size_bytes: u64,
    ) -> (r: Option<Fate<P>>)
        ensures
            match old(self)@.dispatch(time, src, dst, payload, size_bytes) {
                Some(d) => r matches Some(fate) && fate.time == d.time && fate.event == d.event
                    && final(self)@ == d.state,
                None => r is None,
            },
    {
        if self.next_message_id == u64::MAX {
            return None;
        }
        let message = Message { id: MessageId(self.next_message_id), src, dst, payload };
        self.next_message_id = self.next_message_id + 1;
        if self.is_partitioned(src, dst) {
            return Some(
                Fate { time, event: NetEvent::Drop { message, reason: DropReason::Partitioned } },
            );
        }
        let lost: bool = match self.config.packet_loss {
            Probability::Never => false,
            chance => self.rng.bool(chance),
        };
        if lost {
            return Some(
                Fate { time, event: NetEvent::Drop { message, reason: DropReason::PacketLoss } },
            );
        }
        if !self.topology.can_route(src, dst) {
            return None;
        }
        let route: Route = match self.topology.route(src, dst) {
            Some(r) => r,
            None => {
                return Some(
                    Fate { time, event: NetEvent::Drop { message, reason: DropReason::NoRoute } },
                );
            },
        };
        if self.latency_model.foresee(route.total_latency, &self.rng).is_none() {
            return None;
        }
        let latency: Duration = self.latency_model.compute(route.total_latency, &mut self.rng);
        self.carry(time, message, size_bytes, latency)
    }

    /// Decides what becomes of a message that has a route.
    fn carry<P>(&mut self, time: Time, message: Message<P>, size_bytes: u64, latency: Duration)
        -> (r: Option<Fate<P>>)
        requires
            message.src == message.dst || (old(self)@.graph.has(message.src)
                && old(self)@.graph.has(message.dst)),
        ensures
            match old(self)@.carried(time, message, size_bytes, latency) {
                Some(d) => r matches Some(fate) && fate.time == d.time && fate.event == d.event
                    && final(self)@ == d.state,
                None => r is None,
            },
    {
        let src: NodeId = message.src;
        let dst: NodeId = message.dst;
        let mut ready: u64 = time.0;
        if size_bytes > 0 {
            if let Some(limit) = self.bandwidths.get(src, dst) {
                let earliest: Time = time.later(limit.link_free_at);
                let tx: Duration = transmission_duration(limit.bps, size_bytes);
                ready = match earliest.0.checked_add(tx.0) {
                    Some(t) => t,
                    None => {
                        return None;
                    },
                };
                self.bandwidths.insert(
                    src,
                    dst,
                    BandwidthState { bps: limit.bps, link_free_at: Time(ready) },
                );
            }
        }
        let mut delay: Duration = Duration(0);
        if size_bytes > 0 {
            if src != dst {
                match self.walk_per_link_bandwidth(src, dst, size_bytes, Time(ready)) {
                    PerLinkOutcome::Admitted(d) => {
                        delay = d;
                    },
                    PerLinkOutcome::Overflow => {
                        return Some(
                            Fate {
                                time,
                                event: NetEvent::Drop {
                                    message,
                                    reason: DropReason::BufferOverflow,
                                },
                            },
                        );
                    },
                    PerLinkOutcome::OutOfRange => {
                        return None;
                    },
                }
            }
        }
        let at: u64 = match ready.checked_add(latency.0) {
            Some(t) => t,
            None => {
                return None;
            },
        };
        match at.checked_add(delay.0) {
            Some(t) => Some(Fate { time: Time(t), event: NetEvent::Deliver(message) }),
            None => None,
        }
    }
}

impl<L> FabricState<L> {
    /// A network in which nothing has been sent yet.
    pub open spec fn initial(graph: Graph, model: L, seed: u64) -> FabricState<L> {
        FabricState {
            graph,
            model,
            rng: RngState::start(chacha8_key(seed)),
            next_message_id: 0,
            config: NetConfig { packet_loss: Probability::Never, drop_in_flight_on_failure: false },
            partitions: Set::empty(),
            bandwidths: Map::empty(),
            link_busy: Map::empty(),
        }
    }

    /// The state with the bandwidth limit between two nodes set, or lifted where
    /// `bps` is zero. A new limit on a pair that has one keeps its queue.
    pub open spec fn with_bandwidth(self, src: NodeId, dst: NodeId, bps: u64) -> FabricState<L> {
        FabricState {
            bandwidths: if bps == 0 {
                self.bandwidths.remove((src, dst))
            } else if self.bandwidths.contains_key((src, dst)) {
                self.bandwidths.insert(
                    (src, dst),
                    BandwidthState { bps, ..self.bandwidths[(src, dst)] },
                )
            } else {
                self.bandwidths.insert((src, dst), BandwidthState { bps, link_free_at: Time(0) })
            },
            ..self
        }
    }

    /// The bandwidth limit between two nodes.
    pub open spec fn bandwidth(self, src: NodeId, dst: NodeId) -> Option<u64> {
        if self.bandwidths.contains_key((src, dst)) {
            Some(self.bandwidths[(src, dst)].bps)
        } else {
            None
        }
    }

    /// The state with `a` and `b` partitioned from each other.
    pub open spec fn with_partition(self, a: NodeId, b: NodeId) -> FabricState<L> {
        FabricState { partitions: self.partitions.insert(unordered(a, b)), ..self }
    }

    /// The state with `a` and `b` no longer partitioned from each other.
    pub open spec fn without_partition(self, a: NodeId, b: NodeId) -> FabricState<L> {
        FabricState { partitions: self.partitions.remove(unordered(a, b)), ..self }
    }

    /// The state with another topology.
    pub open spec fn with_graph(self, graph: Graph) -> FabricState<L> {
        FabricState { graph, ..self }
    }
}

impl<L: LatencyModel> Fabric<L> {
    /// Creates a network in which nothing has been sent yet.
    pub(crate) fn new(topology: Topology, latency_model: L, seed: u64) -> (f: Fabric<L>)
        ensures
            f@ == FabricState::initial(topology@, latency_model, seed),
    {
        Fabric {
            topology,
            latency_model,
            rng: SimRng::new(seed),
            next_message_id: 0,
            config: NetConfig { packet_loss: Probability::Never, drop_in_flight_on_failure: false },
            partitions: PairSet::new(),
            bandwidths: PairMap::new(),
            link_busy: PairMap::new(),
        }
    }

    /// The number of messages sent so far.
    pub(crate) fn messages_sent(&self) -> (n: u64)
        ensures
            n == self@.next_message_id,
    {
        self.next_message_id
    }

    /// The configuration.
    pub(crate) fn config(&self) -> (c: NetConfig)
        ensures
            c == self@.config,
    {
        self.config
    }

    /// Sets the configuration.
    pub(crate) fn set_config(&mut self, config: NetConfig)
        ensures
            final(self)@ == (FabricState { config, ..old(self)@ }),
    {
        self.config = config;
    }

    /// The topology.
    pub(crate) fn topology(&self) -> (t: &Topology)
        ensures
            t@ == self@.graph,
    {
        &self.topology
    }

    /// The topology, for changes.
    pub(crate) fn topology_mut(&mut self) -> (t: &mut Topology)
        ensures
            t@ == old(self)@.graph,
            final(self)@ == old(self)@.with_graph(final(t)@),
    {
        &mut self.topology
    }

    /// The generator.
    pub(crate) fn rng(&mut self) -> (r: &mut SimRng)
        ensures
            r@ == old(self)@.rng,
            final(self)@ == (FabricState { rng: final(r)@, ..old(self)@ }),
    {
        &mut self.rng
    }

    /// Sets the bandwidth limit between two nodes, or lifts it where `bps` is zero.
    pub(crate) fn set_bandwidth(&mut self, src: NodeId, dst: NodeId, bps: u64)
        ensures
            final(self)@ == old(self)@.with_bandwidth(src, dst, bps),
    {
        if bps == 0 {
            self.bandwidths.remove(src, dst);
        } else {
            let link_free_at: Time = match self.bandwidths.get(src, dst) {
                Some(limit) => limit.link_free_at,
                None => Time(0),
            };
            self.bandwidths.insert(src, dst, BandwidthState { bps, link_free_at });
        }
    }

    /// The bandwidth limit between two nodes.
    pub(crate) fn bandwidth(&self, src: NodeId, dst: NodeId) -> (r: Option<u64>)
        ensures
            r == self@.bandwidth(src, dst),
    {
        match self.bandwidths.get(src, dst) {
            Some(limit) => Some(limit.bps),
            None => None,
        }
    }

    /// Partitions `a` and `b` from each other.
    pub(crate) fn partition(&mut self, a: NodeId, b: NodeId)
        ensures
            final(self)@ == old(self)@.with_partition(a, b),
    {
        let key = partition_key(a, b);
        self.partitions.insert(key.0, key.1);
    }

    /// Lifts the partition between `a` and `b`.
    pub(crate) fn heal(&mut self, a: NodeId, b: NodeId)
        ensures
            final(self)@ == old(self)@.without_partition(a, b),
    {
        let key = partition_key(a, b);
        self.partitions.remove(key.0, key.1);
    }

    /// Whether `a` and `b` are partitioned from each other.
    pub(crate) fn is_partitioned(&self, a: NodeId, b: NodeId) -> (r: bool)
        ensures
            r == self@.partitioned(a, b),
    {
        let key = partition_key(a, b);
        self.partitions.contains(key.0, key.1)
    }

    /// Whether there is a route from `src` to `dst`.
    pub(crate) fn has_route(&mut self, src: NodeId, dst: NodeId) -> (r: bool)
        requires
            old(self)@.graph.spans(src, dst),
        ensures
            r == route_of(old(self)@.graph, src, dst) is Some,
            final(self)@ == old(self)@,
    {
        self.topology.route(src, dst).is_some()
    }
}

} // verus!
