//! Network simulations that record a trace.

use vstd::prelude::*;
use vstd::std_specs::cmp::PartialEqSpecImpl;

use crate::net::fabric::FabricState;
use crate::net::latency::{FixedLatency, LatencyModel};
use crate::net::message::{DropReason, NetConfig, NetEvent, NetworkStats};
use crate::net::network::{NetState, Network};
use crate::net::node::{MessageId, NodeId};
use crate::net::run::{
    is_net_run, lemma_net_run_extends, may_meet, never_overflows, CtxState, Round, RunContext,
    RunState, Runner,
};
use crate::net::topology::Topology;
use crate::sim::SimState;
use crate::time::Time;
use crate::trace::{Trace, TraceEvent, TraceRecorder, TraceState};

verus! {

/// Why a message was dropped, as a trace tells it.
#[derive(Debug, Clone, Copy, PartialEq, Eq, Structural)]
pub enum NetTraceDropReason {
    /// There was no route to the destination.
    NoRoute,
    /// It was lost at random.
    PacketLoss,
    /// Source and destination were partitioned from each other.
    Partitioned,
    /// A link on its path would not take it.
    BufferOverflow,
}

impl From<DropReason> for NetTraceDropReason {
    fn from(reason: DropReason) -> (r: NetTraceDropReason) {
        match reason {
            DropReason::NoRoute => NetTraceDropReason::NoRoute,
            DropReason::PacketLoss => NetTraceDropReason::PacketLoss,
            DropReason::Partitioned => NetTraceDropReason::Partitioned,
            DropReason::BufferOverflow => NetTraceDropReason::BufferOverflow,
        }
    }
}

impl vstd::std_specs::convert::FromSpecImpl<DropReason> for NetTraceDropReason {
    open spec fn obeys_from_spec() -> bool {
        true
    }

    open spec fn from_spec(reason: DropReason) -> NetTraceDropReason {
        match reason {
            DropReason::NoRoute => NetTraceDropReason::NoRoute,
            DropReason::PacketLoss => NetTraceDropReason::PacketLoss,
            DropReason::Partitioned => NetTraceDropReason::Partitioned,
            DropReason::BufferOverflow => NetTraceDropReason::BufferOverflow,
        }
    }
}

/// An event of a network simulation as a trace tells it, without the payload.
#[derive(Debug, Clone, Copy)]
pub enum NetTraceEvent {
    /// A message arrived.
    Delivered {
        /// The number of the message.
        message_id: u64,
        /// The node that sent it.
        src: u32,
        /// The node that it was for.
        dst: u32,
    },
    /// A message was dropped.
    Dropped {
        /// The number of the message.
        message_id: u64,
        /// The node that sent it.
        src: u32,
        /// The node that it was for.
        dst: u32,
        /// Why it was dropped.
        reason: NetTraceDropReason,
    },
}

impl PartialEq for NetTraceEvent {
    fn eq(&self, other: &NetTraceEvent) -> (r: bool) {
        match (*self, *other) {
            (
                NetTraceEvent::Delivered { message_id, src, dst },
                NetTraceEvent::Delivered { message_id: its_id, src: its_src, dst: its_dst },
            ) => message_id == its_id && src == its_src && dst == its_dst,
            (
                NetTraceEvent::Dropped { message_id, src, dst, reason },
                NetTraceEvent::Dropped {
                    message_id: its_id,
                    src: its_src,
                    dst: its_dst,
                    reason: its_reason,
                },
            ) => message_id == its_id && src == its_src && dst == its_dst && reason == its_reason,
            _ => false,
        }
    }
}

impl PartialEqSpecImpl for NetTraceEvent {
    open spec fn obeys_eq_spec() -> bool {
        true
    }

    open spec fn eq_spec(&self, other: &NetTraceEvent) -> bool {
        *self == *other
    }
}

impl Eq for NetTraceEvent {

}

/// An event as a trace tells it.
pub open spec fn told<P>(event: NetEvent<P>) -> NetTraceEvent {
    match event {
        NetEvent::Deliver(m) => NetTraceEvent::Delivered {
            message_id: m.id.0,
            src: m.src.0,
            dst: m.dst.0,
        },
        NetEvent::Drop { message: m, reason } => NetTraceEvent::Dropped {
            message_id: m.id.0,
            src: m.src.0,
            dst: m.dst.0,
            reason: <NetTraceDropReason as vstd::std_specs::convert::FromSpec<DropReason>>::from_spec(reason),
        },
    }
}

/// Turns an event into what a trace tells of it.
pub fn trace_event<P>(event: &NetEvent<P>) -> (t: NetTraceEvent)
    ensures
        t == told(*event),
{
    match event {
        NetEvent::Deliver(m) => NetTraceEvent::Delivered {
            message_id: m.id.0,
            src: m.src.0,
            dst: m.dst.0,
        },
        NetEvent::Drop { message: m, reason } => NetTraceEvent::Dropped {
            message_id: m.id.0,
            src: m.src.0,
            dst: m.dst.0,
            reason: NetTraceDropReason::from(*reason),
        },
    }
}

/// The events of a run, in the order in which they were handled.
pub open spec fn run_trace<P, L>(states: Seq<RunState<P, L>>) -> Seq<TraceEvent<NetTraceEvent>> {
    Seq::new(
        (states.len() - 1) as nat,
        |i: int|
            TraceEvent {
                time_ns: states[i].sim.queue.pending[0].time.0,
                sequence: i as u64,
                event: told(states[i].sim.queue.pending[0].event),
            },
    )
}

/// The trace of a run to its end: the seed, the events and the time at the end.
pub open spec fn recorded<P, L: LatencyModel>(seed: u64, states: Seq<RunState<P, L>>) -> TraceState<
    NetTraceEvent,
> {
    TraceState {
        seed,
        events: run_trace(states),
        final_time_ns: states.last().stats().final_time.0,
    }
}

/// What a traced network holds.
#[verifier::ext_equal]
pub struct TracedState<P, L> {
    /// The network.
    pub net: NetState<P, L>,
    /// The seed of its generator.
    pub seed: u64,
}

/// A network simulation that records a trace.
#[derive(Debug)]
pub struct TracedNetwork<P, L: LatencyModel> {
    network: Network<P, L>,
    seed: u64,
}

impl<P, L: LatencyModel> View for TracedNetwork<P, L> {
    type V = TracedState<P, L>;

    closed spec fn view(&self) -> TracedState<P, L> {
        TracedState { net: self.network@, seed: self.seed }
    }
}

impl<P> TracedNetwork<P, FixedLatency> {
    /// Creates a network whose messages take exactly the latency of their route.
    pub fn new(topology: Topology, seed: u64) -> (n: TracedNetwork<P, FixedLatency>)
        ensures
            n@.seed == seed,
            n@.net == (NetState::<P, FixedLatency> {
                sim: SimState::<NetEvent<P>>::initial(),
                fabric: FabricState::initial(topology@, FixedLatency, seed),
            }),
    {
        TracedNetwork { network: Network::new(topology, seed), seed }
    }
}

impl<P, L: LatencyModel> TracedNetwork<P, L> {
    /// Creates a network with the given latency model.
    pub fn with_latency_model(topology: Topology, latency_model: L, seed: u64) -> (n: TracedNetwork<
        P,
        L,
    >)
        ensures
            n@.seed == seed,
            n@.net == (NetState::<P, L> {
                sim: SimState::<NetEvent<P>>::initial(),
                fabric: FabricState::initial(topology@, latency_model, seed),
            }),
    {
        TracedNetwork {
            network: Network::with_latency_model(topology, latency_model, seed),
            seed,
        }
    }

    /// Sets the configuration.
    pub fn with_config(self, config: NetConfig) -> (n: TracedNetwork<P, L>)
        ensures
            n@ == (TracedState {
                net: NetState {
                    fabric: FabricState { config, ..self@.net.fabric },
                    ..self@.net
                },
                ..self@
            }),
    {
        TracedNetwork { network: self.network.with_config(config), seed: self.seed }
    }

    /// Partitions `a` and `b` from each other.
    pub fn partition(&mut self, a: NodeId, b: NodeId)
        requires
            old(self)@.net.can_fail(old(self)@.net.fabric.with_partition(a, b)),
        ensures
            final(self)@ == (TracedState {
                net: old(self)@.net.failing(old(self)@.net.fabric.with_partition(a, b)),
                ..old(self)@
            }),
    {
        self.network.partition(a, b);
    }

    /// Lifts the partition between `a` and `b`.
    pub fn heal(&mut self, a: NodeId, b: NodeId)
        ensures
            final(self)@ == (TracedState {
                net: NetState { fabric: old(self)@.net.fabric.without_partition(a, b), ..old(self)@.net },
                ..old(self)@
            }),
    {
        self.network.heal(a, b);
    }

    /// Whether `a` and `b` are partitioned from each other.
    pub fn is_partitioned(&self, a: NodeId, b: NodeId) -> (r: bool)
        ensures
            r == self@.net.fabric.partitioned(a, b),
    {
        self.network.is_partitioned(a, b)
    }

    /// Limits the bandwidth from `src` to `dst`, or lifts the limit where `bps` is zero.
    pub fn set_bandwidth(&mut self, src: NodeId, dst: NodeId, bps: u64)
        ensures
            final(self)@ == (TracedState {
                net: NetState { fabric: old(self)@.net.fabric.with_bandwidth(src, dst, bps), ..old(self)@.net },
                ..old(self)@
            }),
    {
        self.network.set_bandwidth(src, dst, bps);
    }

    /// Fails the edges between `a` and `b` in both directions.
    pub fn fail_link(&mut self, a: NodeId, b: NodeId)
        requires
            old(self)@.net.can_fail(old(self)@.net.fabric.with_graph(old(self)@.net.fabric.graph.with_failed_link(a, b).with_failed_link(b, a))),
        ensures
            final(self)@ == (TracedState {
                net: old(self)@.net.failing(old(self)@.net.fabric.with_graph(old(self)@.net.fabric.graph.with_failed_link(a, b).with_failed_link(b, a))),
                ..old(self)@
            }),
    {
        self.network.fail_link(a, b);
    }

    /// Restores the edges between `a` and `b` in both directions.
    pub fn heal_link(&mut self, a: NodeId, b: NodeId)
        ensures
            final(self)@ == (TracedState {
                net: NetState { fabric: old(self)@.net.fabric.with_graph(old(self)@.net.fabric.graph.with_healed_link(a, b).with_healed_link(b, a)), ..old(self)@.net },
                ..old(self)@
            }),
    {
        self.network.heal_link(a, b);
    }

    /// Fails the directed edge from `src` to `dst`.
    pub fn fail_link_directed(&mut self, src: NodeId, dst: NodeId)
        requires
            old(self)@.net.can_fail(old(self)@.net.fabric.with_graph(old(self)@.net.fabric.graph.with_failed_link(src, dst))),
        ensures
            final(self)@ == (TracedState {
                net: old(self)@.net.failing(old(self)@.net.fabric.with_graph(old(self)@.net.fabric.graph.with_failed_link(src, dst))),
                ..old(self)@
            }),
    {
        self.network.fail_link_directed(src, dst);
    }

    /// Restores the directed edge from `src` to `dst`.
    pub fn heal_link_directed(&mut self, src: NodeId, dst: NodeId)
        ensures
            final(self)@ == (TracedState {
                net: NetState { fabric: old(self)@.net.fabric.with_graph(old(self)@.net.fabric.graph.with_healed_link(src, dst)), ..old(self)@.net },
                ..old(self)@
            }),
    {
        self.network.heal_link_directed(src, dst);
    }

    /// Fails `node`.
    pub fn fail_node(&mut self, node: NodeId)
        requires
            old(self)@.net.can_fail(old(self)@.net.fabric.with_graph(old(self)@.net.fabric.graph.with_failed_node(node))),
        ensures
            final(self)@ == (TracedState {
                net: old(self)@.net.failing(old(self)@.net.fabric.with_graph(old(self)@.net.fabric.graph.with_failed_node(node))),
                ..old(self)@
            }),
    {
        self.network.fail_node(node);
    }

    /// Restores `node`.
    pub fn heal_node(&mut self, node: NodeId)
        ensures
            final(self)@ == (TracedState {
                net: NetState { fabric: old(self)@.net.fabric.with_graph(old(self)@.net.fabric.graph.with_healed_node(node)), ..old(self)@.net },
                ..old(self)@
            }),
    {
        self.network.heal_node(node);
    }

    /// The current simulated time.
    pub fn now(&self) -> (t: Time)
        ensures
            t == self@.net.sim.now,
    {
        self.network.now()
    }

    /// The topology.
    pub fn topology(&self) -> (t: &Topology)
        ensures
            t@ == self@.net.fabric.graph,
    {
        self.network.topology()
    }

    /// The topology, for changes.
    pub fn topology_mut(&mut self) -> (t: &mut Topology)
        ensures
            t@ == old(self)@.net.fabric.graph,
            final(self)@ == (TracedState {
                net: NetState {
                    fabric: old(self)@.net.fabric.with_graph(final(t)@),
                    ..old(self)@.net
                },
                ..old(self)@
            }),
    {
        self.network.topology_mut()
    }

    /// Sends a message now, without a size. Returns its number, or `None` if there is no
    /// route for it.
    pub fn send(&mut self, src: NodeId, dst: NodeId, payload: P) -> (r: Option<MessageId>)
        requires
            old(self)@.net.sending(old(self)@.net.sim.now, src, dst, payload, 0) is Some,
        ensures
            final(self)@ == (TracedState {
                net: old(self)@.net.sending(old(self)@.net.sim.now, src, dst, payload, 0)->0,
                ..old(self)@
            }),
            r == old(self)@.net.receipt(src, dst, payload),
    {
        self.network.send(src, dst, payload)
    }

    /// Sends a message of `size_bytes` now. Returns its number.
    pub fn send_sized(&mut self, src: NodeId, dst: NodeId, payload: P, size_bytes: u64) -> (r: Option<MessageId>)
        requires
            old(self)@.net.sending(old(self)@.net.sim.now, src, dst, payload, size_bytes) is Some,
        ensures
            final(self)@ == (TracedState {
                net: old(self)@.net.sending(old(self)@.net.sim.now, src, dst, payload, size_bytes)->0,
                ..old(self)@
            }),
            r == Some(old(self)@.net.next_id()),
    {
        self.network.send_sized(src, dst, payload, size_bytes)
    }

    /// Sends a message at `time`, without a size. Returns its number.
    pub fn send_at(&mut self, time: Time, src: NodeId, dst: NodeId, payload: P) -> (r: Option<MessageId>)
        requires
            old(self)@.net.sending(time, src, dst, payload, 0) is Some,
        ensures
            final(self)@ == (TracedState {
                net: old(self)@.net.sending(time, src, dst, payload, 0)->0,
                ..old(self)@
            }),
            r == Some(old(self)@.net.next_id()),
    {
        self.network.send_at(time, src, dst, payload)
    }

    /// Sends a message of `size_bytes` at `time`. Returns its number.
    pub fn send_at_sized(&mut self, time: Time, src: NodeId, dst: NodeId, payload: P, size_bytes: u64) -> (r: Option<MessageId>)
        requires
            old(self)@.net.sending(time, src, dst, payload, size_bytes) is Some,
        ensures
            final(self)@ == (TracedState {
                net: old(self)@.net.sending(time, src, dst, payload, size_bytes)->0,
                ..old(self)@
            }),
            r == Some(old(self)@.net.next_id()),
    {
        self.network.send_at_sized(time, src, dst, payload, size_bytes)
    }

    /// Hands every event to `handler`, in processing order, until none waits, and
    /// records it before it is handled. Returns `None` if on the way something
    /// comes up that cannot be represented.
    pub fn try_run_traced<F>(self, handler: F) -> (r: Option<
        (NetworkStats, Trace<NetTraceEvent>),
    >) where F: FnMut(&mut RunContext<P, L>, &NetEvent<P>)
        requires
            forall|c: &mut RunContext<P, L>, e: NetEvent<P>|
                may_meet(
                    |c0: CtxState<P, L>, e: NetEvent<P>, c1: CtxState<P, L>|
                        exists|c: &mut RunContext<P, L>|
                            c@ == c0 && final(c)@ == c1 && #[trigger] call_ensures(
                                handler,
                                (c, &e),
                                (),
                            ),
                    RunState::initial(self@.net),
                    c@,
                    e,
                ) ==> #[trigger] call_requires(handler, (c, &e)),
        ensures
            exists|states: Seq<RunState<P, L>>|
                #![trigger states.last()]
                states[0] == RunState::initial(self@.net) && is_net_run(
                    |c0: CtxState<P, L>, e: NetEvent<P>, c1: CtxState<P, L>|
                        exists|c: &mut RunContext<P, L>|
                            c@ == c0 && final(c)@ == c1 && #[trigger] call_ensures(
                                handler,
                                (c, &e),
                                (),
                            ),
                    states,
                ) && match r {
                    Some((stats, trace)) => {
                        &&& states.last().sim.queue.pending.len() == 0
                        &&& stats == states.last().stats()
                        &&& trace@ == recorded(self@.seed, states)
                    },
                    None => states.last().may_overflow(
                        |c0: CtxState<P, L>, e: NetEvent<P>, c1: CtxState<P, L>|
                            exists|c: &mut RunContext<P, L>|
                                c@ == c0 && final(c)@ == c1 && #[trigger] call_ensures(
                                    handler,
                                    (c, &e),
                                    (),
                                ),
                    ),
                },
    {
        let ghost given = handler;
        let mut handler = handler;
        let ghost handles = |c0: CtxState<P, L>, e: NetEvent<P>, c1: CtxState<P, L>|
            exists|c: &mut RunContext<P, L>|
                c@ == c0 && final(c)@ == c1 && #[trigger] call_ensures(
                    handler,
                    (c, &e),
                    (),
                );
        let ghost mut states: Seq<RunState<P, L>> = seq![RunState::initial(self@.net)];
        let ghost start = self@;
        let mut recorder: TraceRecorder<NetTraceEvent> = TraceRecorder::new(self.seed);
        let mut runner = Runner::start(self.network);
        let mut running: bool = true;
        let mut fits: bool = true;
        assert(run_trace(states) =~= Seq::<TraceEvent<NetTraceEvent>>::empty());
        while running && fits
            invariant
                handler == given,
                forall|c: &mut RunContext<P, L>, e: NetEvent<P>|
                    may_meet(handles, RunState::initial(start.net), c@, e) ==> #[trigger] call_requires(
                        handler,
                        (c, &e),
                    ),
                handles == (|c0: CtxState<P, L>, e: NetEvent<P>, c1: CtxState<P, L>|
                    exists|c: &mut RunContext<P, L>|
                        c@ == c0 && final(c)@ == c1 && #[trigger] call_ensures(
                            handler,
                            (c, &e),
                            (),
                        )),
                is_net_run(handles, states),
                states[0] == RunState::initial(start.net),
                fits ==> states.last() == runner@,
                fits ==> recorder@.seed == start.seed && recorder@.events == run_trace(states),
                !running ==> fits && states.last().sim.queue.pending.len() == 0,
                !fits ==> states.last().may_overflow(handles),
            decreases
                    (if running && fits {
                        1int
                    } else {
                        0int
                    }),
                    u64::MAX - runner@.sim.events_processed,
        {
            let ghost before = runner@;
            match runner.next() {
                Round::Finished => {
                    running = false;
                },
                Round::OutOfRange => {
                    fits = false;
                },
                Round::Event(event) => {
                    let ghost e = event;
                    let ghost c0 = runner@.ctx;
                    assert(may_meet(handles, RunState::initial(start.net), c0, e));
                    let ghost recorded = recorder@.events;
                    let now: Time = runner.context().now();
                    recorder.record(now, trace_event(&event));
                    handler(runner.context(), &event);
                    let ghost c1 = runner@.ctx;
                    assert(handles(c0, e, c1));
                    fits = runner.absorb();
                    proof {
                        if fits {
                            assert(before.leads_to(handles, runner@));
                            lemma_net_run_extends(handles, states, runner@);
                            let longer = states.push(runner@);
                            assert(recorder@.events =~= run_trace(longer)) by {
                                assert forall|i: int| 0 <= i < recorded.len() implies recorded[i]
                                    == run_trace(longer)[i] by {
                                    assert(longer[i] == states[i]);
                                }
                                assert(longer[states.len() - 1] == before);
                            }
                            states = longer;
                        } else {
                            assert(RunState::absorbed(before.sim.advanced(), c1) is None);
                        }
                    }
                },
            }
        }
        if fits {
            let stats: NetworkStats = runner.stats();
            let mut trace: Trace<NetTraceEvent> = recorder.finish();
            trace.set_final_time(stats.final_time);
            Some((stats, trace))
        } else {
            None
        }
    }

    /// Hands every event to `handler`, in processing order, until none waits, and
    /// records it before it is handled.
    pub fn run_traced<F>(self, handler: F) -> (r: (NetworkStats, Trace<NetTraceEvent>)) where
        F: FnMut(&mut RunContext<P, L>, &NetEvent<P>),

        requires
            forall|c: &mut RunContext<P, L>, e: NetEvent<P>|
                may_meet(
                    |c0: CtxState<P, L>, e: NetEvent<P>, c1: CtxState<P, L>|
                        exists|c: &mut RunContext<P, L>|
                            c@ == c0 && final(c)@ == c1 && #[trigger] call_ensures(
                                handler,
                                (c, &e),
                                (),
                            ),
                    RunState::initial(self@.net),
                    c@,
                    e,
                ) ==> #[trigger] call_requires(handler, (c, &e)),
            never_overflows(
                |c0: CtxState<P, L>, e: NetEvent<P>, c1: CtxState<P, L>|
                    exists|c: &mut RunContext<P, L>|
                        c@ == c0 && final(c)@ == c1 && #[trigger] call_ensures(
                            handler,
                            (c, &e),
                            (),
                        ),
                RunState::initial(self@.net),
            ),
        ensures
            exists|states: Seq<RunState<P, L>>|
                #![trigger states.last()]
                states[0] == RunState::initial(self@.net) && is_net_run(
                    |c0: CtxState<P, L>, e: NetEvent<P>, c1: CtxState<P, L>|
                        exists|c: &mut RunContext<P, L>|
                            c@ == c0 && final(c)@ == c1 && #[trigger] call_ensures(
                                handler,
                                (c, &e),
                                (),
                            ),
                    states,
                ) && states.last().sim.queue.pending.len() == 0 && r.0 == states.last().stats()
                    && r.1@ == recorded(self@.seed, states),
    {
        let ghost handles = |c0: CtxState<P, L>, e: NetEvent<P>, c1: CtxState<P, L>|
            exists|c: &mut RunContext<P, L>|
                c@ == c0 && final(c)@ == c1 && #[trigger] call_ensures(
                    handler,
                    (c, &e),
                    (),
                );
        let seed: u64 = self.seed;
        match self.try_run_traced(handler) {
            Some(r) => r,
            None => {
                proof {
                    let states = choose|states: Seq<RunState<P, L>>|
                        #![trigger states.last()]
                        states[0] == RunState::initial(self@.net) && is_net_run(handles, states)
                            && states.last().may_overflow(handles);
                    assert(is_net_run(handles, states));
                    assert(false);
                }
                (NetworkStats::default(), Trace::new(seed))
            },
        }
    }
}

} // verus!
