//! A network simulation.

use vstd::prelude::*;

use crate::net::fabric::{Fabric, FabricState};
use crate::net::graph::route_of;
use crate::net::latency::{FixedLatency, LatencyModel};
use crate::net::message::{DropReason, NetConfig, NetEvent};
use crate::net::node::{MessageId, NodeId};
use crate::net::topology::Topology;
use crate::queue::{QueueState, Scheduled};
use crate::sim::{SimState, Simulation};
use crate::time::{Duration, Time};

verus! {

/// What a failure makes of a waiting event: a delivery between partitioned
/// nodes, or without a route, becomes a drop at `now`; everything else stays.
/// `None` for a delivery between working nodes one of which is not in the topology.
pub open spec fn swept<P, L: LatencyModel>(
    fabric: FabricState<L>,
    now: Time,
    s: Scheduled<NetEvent<P>>,
) -> Option<(Time, NetEvent<P>)> {
    match s.event {
        NetEvent::Deliver(message) => {
            if fabric.partitioned(message.src, message.dst) {
                Some((now, NetEvent::Drop { message, reason: DropReason::Partitioned }))
            } else if !fabric.graph.spans(message.src, message.dst) {
                None
            } else if route_of(fabric.graph, message.src, message.dst) is None {
                Some((now, NetEvent::Drop { message, reason: DropReason::NoRoute }))
            } else {
                Some((s.time, s.event))
            }
        },
        NetEvent::Drop { .. } => Some((s.time, s.event)),
    }
}

/// Whether a sweep of the queue can be represented: the topology tells about the
/// ends of every waiting delivery, and there are numbers left to schedule every
/// event anew.
pub open spec fn sweepable<P, L: LatencyModel>(
    fabric: FabricState<L>,
    queue: QueueState<NetEvent<P>>,
) -> bool {
    &&& queue.next_sequence + queue.pending.len() <= u64::MAX
    &&& forall|i: int|
        0 <= i < queue.pending.len() ==> swept(fabric, Time(0), #[trigger] queue.pending[i]) is Some
}

/// The queue after a failure sweep: every event is looked at in processing
/// order and scheduled anew.
pub open spec fn swept_queue<P, L: LatencyModel>(
    fabric: FabricState<L>,
    now: Time,
    queue: QueueState<NetEvent<P>>,
) -> QueueState<NetEvent<P>> {
    queue.cleared().schedule_all(
        queue.pending.map_values(|s: Scheduled<NetEvent<P>>| swept(fabric, now, s)->0),
    )
}

/// Drops the deliveries on their way that can no longer be routed. Returns
/// `false` if that cannot be represented.
pub(crate) fn sweep_failure_drops<P, L: LatencyModel>(
    sim: &mut Simulation<NetEvent<P>>,
    fabric: &mut Fabric<L>,
    now: Time,
) -> (done: bool)
    ensures
        done == sweepable(old(fabric)@, old(sim)@.queue),
        done ==> final(sim)@ == (SimState {
            queue: swept_queue(old(fabric)@, now, old(sim)@.queue),
            ..old(sim)@
        }),
        final(fabric)@ == old(fabric)@,
{
    let ghost queue = sim@.queue;
    if sim.pending_events() as u64 > u64::MAX - sim.total_scheduled() {
        return false;
    }
    let events: Vec<Scheduled<NetEvent<P>>> = sim.drain();
    let ghost all = events@;
    let mut items: Vec<(Time, NetEvent<P>)> = Vec::new();
    for s in it: events
        invariant
            it.seq() == all,
            queue == old(sim)@.queue,
            all == queue.pending,
            fabric@ == old(fabric)@,
            items.len() == it.index(),
            forall|i: int|
                0 <= i < it.index() ==> swept(fabric@, Time(0), #[trigger] all[i]) is Some,
            forall|i: int|
                0 <= i < it.index() ==> #[trigger] items@[i] == swept(fabric@, now, all[i])->0,
    {
        let ghost k = it.index();
        match s.event {
            NetEvent::Deliver(message) => {
                if fabric.is_partitioned(message.src, message.dst) {
                    items.push(
                        (now, NetEvent::Drop { message, reason: DropReason::Partitioned }),
                    );
                } else {
                    if !fabric.topology().can_route(message.src, message.dst) {
                        assert(swept(fabric@, Time(0), all[k]) is None);
                        return false;
                    }
                    if fabric.has_route(message.src, message.dst) {
                        items.push((s.time, NetEvent::Deliver(message)));
                    } else {
                        items.push((now, NetEvent::Drop { message, reason: DropReason::NoRoute }));
                    }
                }
            },
            other => {
                items.push((s.time, other));
            },
        }
    }
    proof {
        assert(items@ =~= queue.pending.map_values(
            |s: Scheduled<NetEvent<P>>| swept(fabric@, now, s)->0,
        ));
    }
    sim.schedule_all(items);
    true
}

/// What a network simulation holds.
#[verifier::ext_equal]
pub struct NetState<P, L> {
    /// The clock and the waiting events.
    pub sim: SimState<NetEvent<P>>,
    /// What decides the fate of messages.
    pub fabric: FabricState<L>,
}

impl<P, L: LatencyModel> NetState<P, L> {
    /// The network after a change of what decides the fate of messages, where
    /// the change is a failure: if so configured, deliveries on their way that
    /// can no longer be routed become drops.
    pub open spec fn failing(self, fabric: FabricState<L>) -> NetState<P, L> {
        NetState {
            sim: if fabric.config.drop_in_flight_on_failure {
                SimState {
                    queue: swept_queue(fabric, self.sim.now, self.sim.queue),
                    ..self.sim
                }
            } else {
                self.sim
            },
            fabric,
        }
    }

    /// Whether the change of a failure can be represented.
    pub open spec fn can_fail(self, fabric: FabricState<L>) -> bool {
        fabric.config.drop_in_flight_on_failure ==> sweepable(fabric, self.sim.queue)
    }

    /// The network after sending a message of `size_bytes` at `time`, if what
    /// becomes of it can be represented.
    pub open spec fn sending(
        self,
        time: Time,
        src: NodeId,
        dst: NodeId,
        payload: P,
        size_bytes: u64,
    ) -> Option<NetState<P, L>> {
        match self.fabric.dispatch(time, src, dst, payload, size_bytes) {
            Some(d) => {
                if self.sim.queue.next_sequence < u64::MAX {
                    Some(NetState { sim: self.sim.schedule(d.time, d.event), fabric: d.state })
                } else {
                    None
                }
            },
            None => None,
        }
    }

    /// Whether a message is not dropped for want of a route.
    pub open spec fn finds_route(
        self,
        time: Time,
        src: NodeId,
        dst: NodeId,
        payload: P,
        size_bytes: u64,
    ) -> bool {
        match self.fabric.dispatch(time, src, dst, payload, size_bytes) {
            Some(d) => match d.event {
                NetEvent::Drop { reason: DropReason::NoRoute, .. } => false,
                _ => true,
            },
            None => false,
        }
    }

    /// The number of the next message to be sent.
    pub open spec fn next_id(self) -> MessageId {
        MessageId(self.fabric.next_message_id)
    }

    /// What sending a message now and without a size returns: its number, unless it has
    /// no route.
    pub open spec fn receipt(self, src: NodeId, dst: NodeId, payload: P) -> Option<MessageId> {
        if self.finds_route(self.sim.now, src, dst, payload, 0) {
            Some(self.next_id())
        } else {
            None
        }
    }
}

/// Decides what becomes of a message and schedules it, if it can be represented. Returns
/// the number of the message, and whether there was a route for it.
pub(crate) fn post<P, L: LatencyModel>(
    sim: &mut Simulation<NetEvent<P>>,
    fabric: &mut Fabric<L>,
    time: Time,
    src: NodeId,
    dst: NodeId,
    payload: P,
    size_bytes: u64,
) -> (r: Option<(MessageId, bool)>)
    ensures
        ({
            let before = NetState { sim: old(sim)@, fabric: old(fabric)@ };
            match before.sending(time, src, dst, payload, size_bytes) {
                Some(after) => {
                    &&& after == NetState { sim: final(sim)@, fabric: final(fabric)@ }
                    &&& r == Some(
                        (
                            before.next_id(),
                            before.finds_route(time, src, dst, payload, size_bytes),
                        ),
                    )
                },
                None => r is None && final(sim)@ == old(sim)@,
            }
        }),
{
    if sim.total_scheduled() == u64::MAX {
        return None;
    }
    let id: MessageId = MessageId(fabric.messages_sent());
    match fabric.dispatch(time, src, dst, payload, size_bytes) {
        Some(fate) => {
            let routed: bool = match &fate.event {
                NetEvent::Drop { reason, .. } => match reason {
                    DropReason::NoRoute => false,
                    _ => true,
                },
                _ => true,
            };
            sim.schedule(fate.time, fate.event);
            Some((id, routed))
        },
        None => None,
    }
}

/// A network simulation: a topology on which messages are sent, and the events
/// that they lead to.
#[derive(Debug)]
pub struct Network<P, L: LatencyModel = FixedLatency> {
    sim: Simulation<NetEvent<P>>,
    fabric: Fabric<L>,
}

impl<P, L: LatencyModel> View for Network<P, L> {
    type V = NetState<P, L>;

    closed spec fn view(&self) -> NetState<P, L> {
        NetState { sim: self.sim@, fabric: self.fabric@ }
    }
}

impl<P> Network<P, FixedLatency> {
    /// Creates a network whose messages take exactly the latency of their route.
    pub fn new(topology: Topology, seed: u64) -> (n: Network<P, FixedLatency>)
        ensures
            n@ == (NetState::<P, FixedLatency> {
                sim: SimState::<NetEvent<P>>::initial(),
                fabric: FabricState::initial(topology@, FixedLatency, seed),
            }),
    {
        Network { sim: Simulation::new(), fabric: Fabric::new(topology, FixedLatency, seed) }
    }
}

impl<P, L: LatencyModel> Network<P, L> {
    /// Creates a network with the given latency model.
    pub fn with_latency_model(topology: Topology, latency_model: L, seed: u64) -> (n: Network<P, L>)
        ensures
            n@ == (NetState::<P, L> {
                sim: SimState::<NetEvent<P>>::initial(),
                fabric: FabricState::initial(topology@, latency_model, seed),
            }),
    {
        Network { sim: Simulation::new(), fabric: Fabric::new(topology, latency_model, seed) }
    }

    /// Sets the configuration.
    pub fn with_config(self, config: NetConfig) -> (n: Network<P, L>)
        ensures
            n@ == (NetState::<P, L> { fabric: FabricState { config, ..self@.fabric }, ..self@ }),
    {
        let mut network = self;
        network.fabric.set_config(config);
        network
    }

    /// Limits the bandwidth of messages from `src` to `dst`, in bytes per second,
    /// or lifts the limit where `bps` is zero. Only messages with a size are
    /// subject to it.
    pub fn set_bandwidth(&mut self, src: NodeId, dst: NodeId, bps: u64)
        ensures
            final(self)@ == (NetState {
                fabric: old(self)@.fabric.with_bandwidth(src, dst, bps),
                ..old(self)@
            }),
    {
        self.fabric.set_bandwidth(src, dst, bps);
    }

    /// The bandwidth limit from `src` to `dst`.
    pub fn bandwidth(&self, src: NodeId, dst: NodeId) -> (r: Option<u64>)
        ensures
            r == self@.fabric.bandwidth(src, dst),
    {
        self.fabric.bandwidth(src, dst)
    }

    /// Drops the deliveries on their way that can no longer be routed, if so
    /// configured.
    fn maybe_sweep_in_flight(&mut self)
        requires
            old(self)@.can_fail(old(self)@.fabric),
        ensures
            final(self)@ == old(self)@.failing(old(self)@.fabric),
    {
        if self.fabric.config().drop_in_flight_on_failure {
            let now: Time = self.sim.now();
            sweep_failure_drops(&mut self.sim, &mut self.fabric, now);
        }
    }

    /// Partitions `a` and `b` from each other: messages between them are dropped.
    pub fn partition(&mut self, a: NodeId, b: NodeId)
        requires
            old(self)@.can_fail(old(self)@.fabric.with_partition(a, b)),
        ensures
            final(self)@ == old(self)@.failing(old(self)@.fabric.with_partition(a, b)),
    {
        self.fabric.partition(a, b);
        self.maybe_sweep_in_flight();
    }

    /// Lifts the partition between `a` and `b`.
    pub fn heal(&mut self, a: NodeId, b: NodeId)
        ensures
            final(self)@ == (NetState {
                fabric: old(self)@.fabric.without_partition(a, b),
                ..old(self)@
            }),
    {
        self.fabric.heal(a, b);
    }

    /// Whether `a` and `b` are partitioned from each other.
    pub fn is_partitioned(&self, a: NodeId, b: NodeId) -> (r: bool)
        ensures
            r == self@.fabric.partitioned(a, b),
    {
        self.fabric.is_partitioned(a, b)
    }

    /// Fails the edges between `a` and `b` in both directions.
    pub fn fail_link(&mut self, a: NodeId, b: NodeId)
        requires
            old(self)@.can_fail(
                old(self)@.fabric.with_graph(old(self)@.fabric.graph.with_failed_link(a, b).with_failed_link(
                    b,
                    a,
                )),
            ),
        ensures
            final(self)@ == old(self)@.failing(
                old(self)@.fabric.with_graph(old(self)@.fabric.graph.with_failed_link(a, b).with_failed_link(
                    b,
                    a,
                )),
            ),
    {
        self.fabric.topology_mut().fail_link(a, b);
        self.maybe_sweep_in_flight();
    }

    /// Restores the edges between `a` and `b` in both directions.
    pub fn heal_link(&mut self, a: NodeId, b: NodeId)
        ensures
            final(self)@ == (NetState {
                fabric: old(self)@.fabric.with_graph(old(self)@.fabric.graph.with_healed_link(a, b).with_healed_link(
                    b,
                    a,
                )),
                ..old(self)@
            }),
    {
        self.fabric.topology_mut().heal_link(a, b);
    }

    /// Whether the edges between `a` and `b` have failed in both directions.
    pub fn is_link_failed(&self, a: NodeId, b: NodeId) -> (r: bool)
        ensures
            r == (self@.fabric.graph.failed_links.contains((a, b))
                && self@.fabric.graph.failed_links.contains((b, a))),
    {
        self.fabric.topology().is_link_failed(a, b)
    }

    /// Fails the directed edge from `src` to `dst`.
    pub fn fail_link_directed(&mut self, src: NodeId, dst: NodeId)
        requires
            old(self)@.can_fail(
                old(self)@.fabric.with_graph(old(self)@.fabric.graph.with_failed_link(src, dst)),
            ),
        ensures
            final(self)@ == old(self)@.failing(
                old(self)@.fabric.with_graph(old(self)@.fabric.graph.with_failed_link(src, dst)),
            ),
    {
        self.fabric.topology_mut().fail_link_directed(src, dst);
        self.maybe_sweep_in_flight();
    }

    /// Restores the directed edge from `src` to `dst`.
    pub fn heal_link_directed(&mut self, src: NodeId, dst: NodeId)
        ensures
            final(self)@ == (NetState {
                fabric: old(self)@.fabric.with_graph(old(self)@.fabric.graph.with_healed_link(src, dst)),
                ..old(self)@
            }),
    {
        self.fabric.topology_mut().heal_link_directed(src, dst);
    }

    /// Whether the directed edge from `src` to `dst` has failed.
    pub fn is_link_failed_directed(&self, src: NodeId, dst: NodeId) -> (r: bool)
        ensures
            r == self@.fabric.graph.failed_links.contains((src, dst)),
    {
        self.fabric.topology().is_link_failed_directed(src, dst)
    }

    /// Fails `node`: no route starts, ends or passes there.
    pub fn fail_node(&mut self, node: NodeId)
        requires
            old(self)@.can_fail(
                old(self)@.fabric.with_graph(old(self)@.fabric.graph.with_failed_node(node)),
            ),
        ensures
            final(self)@ == old(self)@.failing(
                old(self)@.fabric.with_graph(old(self)@.fabric.graph.with_failed_node(node)),
            ),
    {
        self.fabric.topology_mut().fail_node(node);
        self.maybe_sweep_in_flight();
    }

    /// Restores `node`.
    pub fn heal_node(&mut self, node: NodeId)
        ensures
            final(self)@ == (NetState {
                fabric: old(self)@.fabric.with_graph(old(self)@.fabric.graph.with_healed_node(node)),
                ..old(self)@
            }),
    {
        self.fabric.topology_mut().heal_node(node);
    }

    /// Whether `node` has failed.
    pub fn is_node_failed(&self, node: NodeId) -> (r: bool)
        ensures
            r == self@.fabric.graph.failed_nodes.contains(node),
    {
        self.fabric.topology().is_node_failed(node)
    }

    /// The current simulated time.
    pub fn now(&self) -> (t: Time)
        ensures
            t == self@.sim.now,
    {
        self.sim.now()
    }

    /// The topology.
    pub fn topology(&self) -> (t: &Topology)
        ensures
            t@ == self@.fabric.graph,
    {
        self.fabric.topology()
    }

    /// The topology, for changes.
    pub fn topology_mut(&mut self) -> (t: &mut Topology)
        ensures
            t@ == old(self)@.fabric.graph,
            final(self)@ == (NetState {
                fabric: old(self)@.fabric.with_graph(final(t)@),
                ..old(self)@
            }),
    {
        self.fabric.topology_mut()
    }

    /// Sends a message of `size_bytes` at `time`, if what becomes of it can be
    /// represented. Returns its number, or `None`, without an event, if it cannot.
    pub fn try_send_at_sized(
        &mut self,
        time: Time,
        src: NodeId,
        dst: NodeId,
        payload: P,
        size_bytes: u64,
    ) -> (r: Option<MessageId>)
        ensures
            match old(self)@.sending(time, src, dst, payload, size_bytes) {
                Some(after) => final(self)@ == after && r == Some(old(self)@.next_id()),
                None => r is None && final(self)@.sim == old(self)@.sim,
            },
    {
        match post(&mut self.sim, &mut self.fabric, time, src, dst, payload, size_bytes) {
            Some((id, _)) => Some(id),
            None => None,
        }
    }

    /// Sends a message of `size_bytes` at `time`. Returns its number.
    pub fn send_at_sized(
        &mut self,
        time: Time,
        src: NodeId,
        dst: NodeId,
        payload: P,
        size_bytes: u64,
    ) -> (r: Option<MessageId>)
        requires
            old(self)@.sending(time, src, dst, payload, size_bytes) is Some,
        ensures
            Some(final(self)@) == old(self)@.sending(time, src, dst, payload, size_bytes),
            r == Some(old(self)@.next_id()),
    {
        self.try_send_at_sized(time, src, dst, payload, size_bytes)
    }

    /// Sends a message at `time`, without a size: bandwidth limits do not apply. Returns
    /// its number.
    pub fn send_at(&mut self, time: Time, src: NodeId, dst: NodeId, payload: P) -> (r: Option<
        MessageId,
    >)
        requires
            old(self)@.sending(time, src, dst, payload, 0) is Some,
        ensures
            Some(final(self)@) == old(self)@.sending(time, src, dst, payload, 0),
            r == Some(old(self)@.next_id()),
    {
        self.send_at_sized(time, src, dst, payload, 0)
    }

    /// Sends a message of `size_bytes` now. Returns its number.
    pub fn send_sized(&mut self, src: NodeId, dst: NodeId, payload: P, size_bytes: u64) -> (r:
        Option<MessageId>)
        requires
            old(self)@.sending(old(self)@.sim.now, src, dst, payload, size_bytes) is Some,
        ensures
            Some(final(self)@) == old(self)@.sending(
                old(self)@.sim.now,
                src,
                dst,
                payload,
                size_bytes,
            ),
            r == Some(old(self)@.next_id()),
    {
        let now: Time = self.sim.now();
        self.send_at_sized(now, src, dst, payload, size_bytes)
    }

    /// Sends a message now, without a size: bandwidth limits do not apply. Returns its
    /// number, or `None` if there is no route for it.
    pub fn send(&mut self, src: NodeId, dst: NodeId, payload: P) -> (r: Option<MessageId>)
        requires
            old(self)@.sending(old(self)@.sim.now, src, dst, payload, 0) is Some,
        ensures
            Some(final(self)@) == old(self)@.sending(old(self)@.sim.now, src, dst, payload, 0),
            r == old(self)@.receipt(src, dst, payload),
    {
        let now: Time = self.sim.now();
        match post(&mut self.sim, &mut self.fabric, now, src, dst, payload, 0) {
            Some((id, routed)) => if routed {
                Some(id)
            } else {
                None
            },
            None => None,
        }
    }

    /// Schedules an event at `time` and returns the number it was given.
    pub fn schedule(&mut self, time: Time, event: NetEvent<P>) -> (sequence: u64)
        requires
            old(self)@.sim.queue.next_sequence < u64::MAX,
        ensures
            sequence == old(self)@.sim.queue.next_sequence,
            final(self)@ == (NetState { sim: old(self)@.sim.schedule(time, event), ..old(self)@ }),
    {
        self.sim.schedule(time, event)
    }

    /// Schedules an event after `delay` and returns the number it was given.
    pub fn schedule_in(&mut self, delay: Duration, event: NetEvent<P>) -> (sequence: u64)
        requires
            old(self)@.sim.queue.next_sequence < u64::MAX,
            old(self)@.sim.now.0 + delay.0 <= u64::MAX,
        ensures
            sequence == old(self)@.sim.queue.next_sequence,
            final(self)@ == (NetState {
                sim: old(self)@.sim.schedule(
                    Time((old(self)@.sim.now.0 + delay.0) as u64),
                    event,
                ),
                ..old(self)@
            }),
    {
        self.sim.schedule_in(delay, event)
    }

    /// The number of messages sent so far.
    pub fn messages_sent(&self) -> (n: u64)
        ensures
            n == self@.fabric.next_message_id,
    {
        self.fabric.messages_sent()
    }

    /// Parts the network into its clock with the waiting events and the rest.
    pub(crate) fn into_parts(self) -> (parts: (Simulation<NetEvent<P>>, Fabric<L>))
        ensures
            parts.0@ == self@.sim,
            parts.1@ == self@.fabric,
    {
        (self.sim, self.fabric)
    }
}

} // verus!
