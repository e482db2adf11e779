//! Running a network simulation.

use vstd::prelude::*;

use crate::net::fabric::{Fabric, FabricState};
use crate::net::latency::LatencyModel;
use crate::net::message::{NetEvent, NetworkStats};
use crate::net::network::{post, sweep_failure_drops, sweepable, swept_queue, NetState, Network};
use crate::net::node::NodeId;
use crate::net::topology::Topology;
use crate::rng::SimRng;
use crate::sim::{SimState, Simulation};
use crate::time::Time;

verus! {

/// A message that a handler wants sent: source, destination, payload and size.
pub type SendRequest<P> = (NodeId, NodeId, P, u64);

/// What a handler can see and change during a run.
#[verifier::ext_equal]
pub struct CtxState<P, L> {
    /// The current simulated time.
    pub now: Time,
    /// What decides the fate of messages.
    pub fabric: FabricState<L>,
    /// The number of deliveries so far.
    pub delivered: u64,
    /// The number of drops so far.
    pub dropped: u64,
    /// The messages to send when the handler is done.
    pub pending_sends: Seq<SendRequest<P>>,
    /// Whether something has failed since the handler was called.
    pub needs_failure_sweep: bool,
}

/// A run of a network simulation between two events.
#[verifier::ext_equal]
pub struct RunState<P, L> {
    /// The clock and the waiting events.
    pub sim: SimState<NetEvent<P>>,
    /// What the handler sees.
    pub ctx: CtxState<P, L>,
}

/// The network after sending every message of `requests` in turn, if what
/// becomes of them can be represented.
pub open spec fn sending_all<P, L: LatencyModel>(
    net: NetState<P, L>,
    requests: Seq<SendRequest<P>>,
) -> Option<NetState<P, L>>
    decreases requests.len(),
{
    if requests.len() == 0 {
        Some(net)
    } else {
        let (src, dst, payload, size_bytes) = requests.last();
        match sending_all(net, requests.drop_last()) {
            Some(before) => before.sending(before.sim.now, src, dst, payload, size_bytes),
            None => None,
        }
    }
}

impl<P, L: LatencyModel> RunState<P, L> {
    /// What the handler of the next event sees: the clock stands at the event's
    /// time, and the event is counted. `None` if a count cannot be represented.
    pub open spec fn entered(self) -> Option<CtxState<P, L>> {
        let now = self.sim.advanced().now;
        if self.sim.events_processed == u64::MAX {
            None
        } else {
            match self.sim.queue.pending[0].event {
                NetEvent::Deliver(_) => if self.ctx.delivered == u64::MAX {
                    None
                } else {
                    Some(
                        CtxState {
                            now,
                            delivered: (self.ctx.delivered + 1) as u64,
                            ..self.ctx
                        },
                    )
                },
                NetEvent::Drop { .. } => if self.ctx.dropped == u64::MAX {
                    None
                } else {
                    Some(CtxState { now, dropped: (self.ctx.dropped + 1) as u64, ..self.ctx })
                },
            }
        }
    }

    /// The run after a handler has left `ctx`: first the deliveries that a
    /// failure has made impossible are dropped, if so configured, then the
    /// messages that the handler wants sent are sent. `None` if that cannot be
    /// represented.
    pub open spec fn absorbed(sim: SimState<NetEvent<P>>, ctx: CtxState<P, L>) -> Option<
        RunState<P, L>,
    > {
        let sweeps = ctx.needs_failure_sweep && ctx.fabric.config.drop_in_flight_on_failure;
        if sweeps && !sweepable(ctx.fabric, sim.queue) {
            None
        } else {
            let net = NetState {
                sim: if sweeps {
                    SimState { queue: swept_queue(ctx.fabric, sim.now, sim.queue), ..sim }
                } else {
                    sim
                },
                fabric: ctx.fabric,
            };
            match sending_all(net, ctx.pending_sends) {
                Some(after) => Some(
                    RunState {
                        sim: after.sim,
                        ctx: CtxState {
                            fabric: after.fabric,
                            pending_sends: Seq::empty(),
                            needs_failure_sweep: false,
                            ..ctx
                        },
                    },
                ),
                None => None,
            }
        }
    }

    /// The figures of a run that ends here.
    pub open spec fn stats(self) -> NetworkStats {
        NetworkStats {
            events_processed: self.sim.events_processed,
            final_time: self.sim.now,
            messages_sent: self.ctx.fabric.next_message_id,
            messages_delivered: self.ctx.delivered,
            messages_dropped: self.ctx.dropped,
        }
    }

    /// The run of a network at its start.
    pub open spec fn initial(net: NetState<P, L>) -> RunState<P, L> {
        RunState {
            sim: net.sim,
            ctx: CtxState {
                now: Time(0),
                fabric: net.fabric,
                delivered: 0,
                dropped: 0,
                pending_sends: Seq::empty(),
                needs_failure_sweep: false,
            },
        }
    }

    /// Whether the handling of the next event may lead from here to `next`.
    /// `handles(c, e, d)` says that the handler, given context `c` and event
    /// `e`, may leave context `d`.
    pub open spec fn leads_to(
        self,
        handles: spec_fn(CtxState<P, L>, NetEvent<P>, CtxState<P, L>) -> bool,
        next: RunState<P, L>,
    ) -> bool {
        self.sim.queue.pending.len() > 0 && self.entered() is Some && exists|ctx: CtxState<P, L>|
            #![trigger RunState::absorbed(self.sim.advanced(), ctx)]
            handles(self.entered()->0, self.sim.queue.pending[0].event, ctx) && RunState::absorbed(
                self.sim.advanced(),
                ctx,
            ) == Some(next)
    }

    /// Whether the handling of the next event may lead to something that cannot
    /// be represented.
    pub open spec fn may_overflow(
        self,
        handles: spec_fn(CtxState<P, L>, NetEvent<P>, CtxState<P, L>) -> bool,
    ) -> bool {
        self.sim.queue.pending.len() > 0 && (self.entered() is None || exists|ctx: CtxState<P, L>|
            #![trigger RunState::absorbed(self.sim.advanced(), ctx)]
            handles(self.entered()->0, self.sim.queue.pending[0].event, ctx) && RunState::absorbed(
                self.sim.advanced(),
                ctx,
            ) is None)
    }
}

/// Whether `states` follows a run from event to event.
pub open spec fn is_net_run<P, L: LatencyModel>(
    handles: spec_fn(CtxState<P, L>, NetEvent<P>, CtxState<P, L>) -> bool,
    states: Seq<RunState<P, L>>,
) -> bool {
    &&& states.len() > 0
    &&& forall|i: int|
        0 <= i < states.len() - 1 ==> (#[trigger] states[i]).leads_to(handles, states[i + 1])
}

/// Whether a run from `start` may come to hand `event` to the handler with context `given`.
pub open spec fn may_meet<P, L: LatencyModel>(
    handles: spec_fn(CtxState<P, L>, NetEvent<P>, CtxState<P, L>) -> bool,
    start: RunState<P, L>,
    given: CtxState<P, L>,
    event: NetEvent<P>,
) -> bool {
    exists|states: Seq<RunState<P, L>>|
        {
            &&& #[trigger] is_net_run(handles, states)
            &&& states[0] == start
            &&& states.last().sim.queue.pending.len() > 0
            &&& states.last().entered() == Some(given)
            &&& event == states.last().sim.queue.pending[0].event
        }
}

/// Whether no run from `start` ever comes to something that cannot be represented.
pub open spec fn never_overflows<P, L: LatencyModel>(
    handles: spec_fn(CtxState<P, L>, NetEvent<P>, CtxState<P, L>) -> bool,
    start: RunState<P, L>,
) -> bool {
    forall|states: Seq<RunState<P, L>>|
        #![trigger is_net_run(handles, states)]
        is_net_run(handles, states) && states[0] == start ==> !states.last().may_overflow(handles)
}

/// A run stays a run when the next event is handled.
pub(crate) proof fn lemma_net_run_extends<P, L: LatencyModel>(
    handles: spec_fn(CtxState<P, L>, NetEvent<P>, CtxState<P, L>) -> bool,
    states: Seq<RunState<P, L>>,
    next: RunState<P, L>,
)
    requires
        is_net_run(handles, states),
        states.last().leads_to(handles, next),
    ensures
        is_net_run(handles, states.push(next)),
{
    let longer = states.push(next);
    assert forall|i: int| 0 <= i < longer.len() - 1 implies (#[trigger] longer[i]).leads_to(
        handles,
        longer[i + 1],
    ) by {
        assert(longer[i] == states[i]);
        if i < states.len() - 1 {
            assert(longer[i + 1] == states[i + 1]);
        }
    }
}

/// What a handler works with during a run: it can send messages and cause and
/// repair failures.
#[derive(Debug)]
pub struct RunContext<P, L: LatencyModel> {
    now: Time,
    fabric: Fabric<L>,
    delivered: u64,
    dropped: u64,
    pending_sends: Vec<SendRequest<P>>,
    needs_failure_sweep: bool,
}

impl<P, L: LatencyModel> View for RunContext<P, L> {
    type V = CtxState<P, L>;

    closed spec fn view(&self) -> CtxState<P, L> {
        CtxState {
            now: self.now,
            fabric: self.fabric@,
            delivered: self.delivered,
            dropped: self.dropped,
            pending_sends: self.pending_sends@,
            needs_failure_sweep: self.needs_failure_sweep,
        }
    }
}

/// What comes next in a run.
pub(crate) enum Round<P> {
    /// An event to handle.
    Event(NetEvent<P>),
    /// No event waits.
    Finished,
    /// A count cannot be represented.
    OutOfRange,
}

/// A run of a network simulation.
pub(crate) struct Runner<P, L: LatencyModel> {
    sim: Simulation<NetEvent<P>>,
    ctx: RunContext<P, L>,
}

impl<P, L: LatencyModel> View for Runner<P, L> {
    type V = RunState<P, L>;

    closed spec fn view(&self) -> RunState<P, L> {
        RunState { sim: self.sim@, ctx: self.ctx@ }
    }
}

impl<P, L: LatencyModel> Runner<P, L> {
    /// The context for the handler of the event that was taken off the queue.
    pub(crate) fn context(&mut self) -> (c: &mut RunContext<P, L>)
        ensures
            c@ == old(self)@.ctx,
            final(self)@ == (RunState { ctx: final(c)@, ..old(self)@ }),
    {
        &mut self.ctx
    }

    /// Starts the run of a network.
    pub(crate) fn start(network: Network<P, L>) -> (r: Runner<P, L>)
        ensures
            r@ == RunState::initial(network@),
    {
        let (sim, fabric) = network.into_parts();
        let r = Runner {
            sim,
            ctx: RunContext {
                now: Time(0),
                fabric,
                delivered: 0,
                dropped: 0,
                pending_sends: Vec::new(),
                needs_failure_sweep: false,
            },
        };
        assert(r@.ctx.pending_sends =~= Seq::empty());
        r
    }

    /// Takes the next event off the queue and counts it.
    pub(crate) fn next(&mut self) -> (round: Round<P>)
        ensures
            if old(self)@.sim.queue.pending.len() == 0 {
                round is Finished && final(self)@ == old(self)@
            } else {
                match old(self)@.entered() {
                    Some(ctx) => round == Round::Event(old(self)@.sim.queue.pending[0].event)
                        && final(self)@ == (RunState { sim: old(self)@.sim.advanced(), ctx }),
                    None => round is OutOfRange,
                }
            },
    {
        if self.sim.is_empty() {
            return Round::Finished;
        }
        if self.sim.events_processed() == u64::MAX {
            return Round::OutOfRange;
        }
        match self.sim.step() {
            Some(scheduled) => {
                self.ctx.now = scheduled.time;
                match &scheduled.event {
                    NetEvent::Deliver(_) => {
                        if self.ctx.delivered == u64::MAX {
                            return Round::OutOfRange;
                        }
                        self.ctx.delivered = self.ctx.delivered + 1;
                    },
                    NetEvent::Drop { .. } => {
                        if self.ctx.dropped == u64::MAX {
                            return Round::OutOfRange;
                        }
                        self.ctx.dropped = self.ctx.dropped + 1;
                    },
                }
                Round::Event(scheduled.event)
            },
            None => Round::Finished,
        }
    }

    /// Does what the handler of an event has left to do. Returns `false` if that
    /// cannot be represented.
    pub(crate) fn absorb(&mut self) -> (done: bool)
        ensures
            match RunState::absorbed(old(self)@.sim, old(self)@.ctx) {
                Some(after) => done && final(self)@ == after,
                None => !done,
            },
            done ==> final(self)@.sim.events_processed == old(self)@.sim.events_processed,
    {
        let ghost before = self@;
        let sweeps: bool = self.ctx.needs_failure_sweep
            && self.ctx.fabric.config().drop_in_flight_on_failure;
        self.ctx.needs_failure_sweep = false;
        if sweeps {
            let now: Time = self.sim.now();
            if !sweep_failure_drops(&mut self.sim, &mut self.ctx.fabric, now) {
                return false;
            }
        }
        let ghost net = NetState { sim: self.sim@, fabric: self.ctx.fabric@ };
        let mut requests: Vec<SendRequest<P>> = Vec::new();
        core::mem::swap(&mut requests, &mut self.ctx.pending_sends);
        let ghost all = requests@;
        let ghost ctx = self.ctx@;
        for request in it: requests
            invariant
                it.seq() == all,
                all == before.ctx.pending_sends,
                before == old(self)@,
                ctx == (CtxState {
                    needs_failure_sweep: false,
                    pending_sends: Seq::empty(),
                    ..before.ctx
                }),
                RunState::absorbed(before.sim, before.ctx) == (match sending_all(net, all) {
                    Some(after) => Some(
                        RunState { sim: after.sim, ctx: CtxState { fabric: after.fabric, ..ctx } },
                    ),
                    None => None,
                }),
                self@.ctx == (CtxState { fabric: self@.ctx.fabric, ..ctx }),
                sending_all(net, all.take(it.index())) == Some(
                    NetState { sim: self@.sim, fabric: self@.ctx.fabric },
                ),
                self@.sim.events_processed == old(self)@.sim.events_processed,
        {
            let ghost k = it.index();
            proof {
                assert(all.take(k + 1).drop_last() =~= all.take(k));
            }
            let (src, dst, payload, size_bytes) = request;
            let now: Time = self.sim.now();
            if post(
                &mut self.sim,
                &mut self.ctx.fabric,
                now,
                src,
                dst,
                payload,
                size_bytes,
            ).is_none() {
                proof {
                    lemma_sending_all_prefix(net, all, k + 1);
                }
                return false;
            }
        }
        assert(all.take(all.len() as int) =~= all);
        true
    }

    /// The figures of a run that ends here.
    pub(crate) fn stats(&self) -> (s: NetworkStats)
        ensures
            s == self@.stats(),
    {
        NetworkStats {
            events_processed: self.sim.events_processed(),
            final_time: self.sim.now(),
            messages_sent: self.ctx.fabric.messages_sent(),
            messages_delivered: self.ctx.delivered,
            messages_dropped: self.ctx.dropped,
        }
    }
}

/// If some of the messages cannot be sent, not all can.
proof fn lemma_sending_all_prefix<P, L: LatencyModel>(
    net: NetState<P, L>,
    requests: Seq<SendRequest<P>>,
    k: int,
)
    requires
        0 <= k <= requests.len(),
        sending_all(net, requests.take(k)) is None,
    ensures
        sending_all(net, requests) is None,
    decreases requests.len() - k,
{
    if k < requests.len() {
        assert(requests.take(k + 1).drop_last() =~= requests.take(k));
        lemma_sending_all_prefix(net, requests, k + 1);
    } else {
        assert(requests.take(k) =~= requests);
    }
}

impl<P, L: LatencyModel> Network<P, L> {
    /// Hands every event to `handler`, in processing order, until none waits.
    /// Returns `None` if on the way something comes up that cannot be
    /// represented: a count or a time beyond the last one, or a message with an
    /// end outside the topology.
    pub fn try_run<F>(self, handler: F) -> (r: Option<NetworkStats>) where
        F: FnMut(&mut RunContext<P, L>, NetEvent<P>),

        requires
            forall|c: &mut RunContext<P, L>, e: NetEvent<P>|
                may_meet(
                    |c0: CtxState<P, L>, e: NetEvent<P>, c1: CtxState<P, L>|
                        exists|c: &mut RunContext<P, L>|
                            c@ == c0 && final(c)@ == c1 && #[trigger] call_ensures(
                                handler,
                                (c, e),
                                (),
                            ),
                    RunState::initial(self@),
                    c@,
                    e,
                ) ==> #[trigger] call_requires(handler, (c, e)),
        ensures
            exists|states: Seq<RunState<P, L>>|
                #![trigger states.last()]
                states[0] == RunState::initial(self@) && is_net_run(
                    |c0: CtxState<P, L>, e: NetEvent<P>, c1: CtxState<P, L>|
                        exists|c: &mut RunContext<P, L>|
                            c@ == c0 && final(c)@ == c1 && #[trigger] call_ensures(
                                handler,
                                (c, e),
                                (),
                            ),
                    states,
                ) && match r {
                    Some(stats) => states.last().sim.queue.pending.len() == 0 && stats
                        == states.last().stats(),
                    None => states.last().may_overflow(
                        |c0: CtxState<P, L>, e: NetEvent<P>, c1: CtxState<P, L>|
                            exists|c: &mut RunContext<P, L>|
                                c@ == c0 && final(c)@ == c1 && #[trigger] call_ensures(
                                    handler,
                                    (c, e),
                                    (),
                                ),
                    ),
                },
    {
        let ghost given = handler;
        let mut handler = handler;
        let ghost handles = |c0: CtxState<P, L>, e: NetEvent<P>, c1: CtxState<P, L>|
            exists|c: &mut RunContext<P, L>|
                c@ == c0 && final(c)@ == c1 && #[trigger] call_ensures(handler, (c, e), ());
        let ghost mut states: Seq<RunState<P, L>> = seq![RunState::initial(self@)];
        let ghost start = self@;
        let mut runner = Runner::start(self);
        let mut running: bool = true;
        let mut fits: bool = true;
        while running && fits
            invariant
                handler == given,
                forall|c: &mut RunContext<P, L>, e: NetEvent<P>|
                    may_meet(handles, RunState::initial(start), c@, e) ==> #[trigger] call_requires(
                        handler,
                        (c, e),
                    ),
                handles == (|c0: CtxState<P, L>, e: NetEvent<P>, c1: CtxState<P, L>|
                    exists|c: &mut RunContext<P, L>|
                        c@ == c0 && final(c)@ == c1 && #[trigger] call_ensures(
                            handler,
                            (c, e),
                            (),
                        )),
                is_net_run(handles, states),
                states[0] == RunState::initial(start),
                fits ==> states.last() == runner@,
                !running ==> fits && states.last().sim.queue.pending.len() == 0,
                !fits ==> states.last().may_overflow(handles),
            decreases
                    (if running && fits {
                        1int
                    } else {
                        0int
                    }),
                    u64::MAX - runner@.sim.events_processed,
        {
            let ghost before = runner@;
            match runner.next() {
                Round::Finished => {
                    running = false;
                },
                Round::OutOfRange => {
                    fits = false;
                },
                Round::Event(event) => {
                    let ghost e = event;
                    let ghost c0 = runner@.ctx;
                    assert(may_meet(handles, RunState::initial(start), c0, e));
                    handler(runner.context(), event);
                    let ghost c1 = runner@.ctx;
                    assert(handles(c0, e, c1));
                    fits = runner.absorb();
                    proof {
                        if fits {
                            assert(before.leads_to(handles, runner@));
                            lemma_net_run_extends(handles, states, runner@);
                            states = states.push(runner@);
                        } else {
                            assert(RunState::absorbed(before.sim.advanced(), c1) is None);
                        }
                    }
                },
            }
        }
        if fits {
            Some(runner.stats())
        } else {
            None
        }
    }

    /// Hands every event to `handler`, in processing order, until none waits.
    /// The handler may send messages and cause and repair failures; what it
    /// wants sent is sent when it is done.
    pub fn run<F>(self, handler: F) -> (stats: NetworkStats) where
        F: FnMut(&mut RunContext<P, L>, NetEvent<P>),

        requires
            forall|c: &mut RunContext<P, L>, e: NetEvent<P>|
                may_meet(
                    |c0: CtxState<P, L>, e: NetEvent<P>, c1: CtxState<P, L>|
                        exists|c: &mut RunContext<P, L>|
                            c@ == c0 && final(c)@ == c1 && #[trigger] call_ensures(
                                handler,
                                (c, e),
                                (),
                            ),
                    RunState::initial(self@),
                    c@,
                    e,
                ) ==> #[trigger] call_requires(handler, (c, e)),
            never_overflows(
                |c0: CtxState<P, L>, e: NetEvent<P>, c1: CtxState<P, L>|
                    exists|c: &mut RunContext<P, L>|
                        c@ == c0 && final(c)@ == c1 && #[trigger] call_ensures(
                            handler,
                            (c, e),
                            (),
                        ),
                RunState::initial(self@),
            ),
        ensures
            exists|states: Seq<RunState<P, L>>|
                #![trigger states.last()]
                states[0] == RunState::initial(self@) && is_net_run(
                    |c0: CtxState<P, L>, e: NetEvent<P>, c1: CtxState<P, L>|
                        exists|c: &mut RunContext<P, L>|
                            c@ == c0 && final(c)@ == c1 && #[trigger] call_ensures(
                                handler,
                                (c, e),
                                (),
                            ),
                    states,
                ) && states.last().sim.queue.pending.len() == 0 && stats == states.last().stats(),
    {
        let ghost handles = |c0: CtxState<P, L>, e: NetEvent<P>, c1: CtxState<P, L>|
            exists|c: &mut RunContext<P, L>|
                c@ == c0 && final(c)@ == c1 && #[trigger] call_ensures(
                    handler,
                    (c, e),
                    (),
                );
        match self.try_run(handler) {
            Some(stats) => stats,
            None => {
                proof {
                    let states = choose|states: Seq<RunState<P, L>>|
                        #![trigger states.last()]
                        states[0] == RunState::initial(self@) && is_net_run(handles, states)
                            && states.last().may_overflow(handles);
                    assert(is_net_run(handles, states));
                    assert(false);
                }
                NetworkStats::default()
            },
        }
    }
}

impl<P, L: LatencyModel> RunContext<P, L> {
    /// The current simulated time.
    pub fn now(&self) -> (t: Time)
        ensures
            t == self@.now,
    {
        self.now
    }

    /// Sends a message when the handler is done, without a size.
    pub fn send(&mut self, src: NodeId, dst: NodeId, payload: P)
        ensures
            final(self)@ == (CtxState {
                pending_sends: old(self)@.pending_sends.push((src, dst, payload, 0)),
                ..old(self)@
            }),
    {
        self.pending_sends.push((src, dst, payload, 0));
    }

    /// Sends a message of `size_bytes` when the handler is done.
    pub fn send_sized(&mut self, src: NodeId, dst: NodeId, payload: P, size_bytes: u64)
        ensures
            final(self)@ == (CtxState {
                pending_sends: old(self)@.pending_sends.push((src, dst, payload, size_bytes)),
                ..old(self)@
            }),
    {
        self.pending_sends.push((src, dst, payload, size_bytes));
    }

    /// Limits the bandwidth from `src` to `dst`, or lifts the limit where `bps` is zero.
    pub fn set_bandwidth(&mut self, src: NodeId, dst: NodeId, bps: u64)
        ensures
            final(self)@ == (CtxState { fabric: old(self)@.fabric.with_bandwidth(src, dst, bps), ..old(self)@ }),
    {
        self.fabric.set_bandwidth(src, dst, bps);
    }

    /// The bandwidth limit from `src` to `dst`.
    pub fn bandwidth(&self, src: NodeId, dst: NodeId) -> (r: Option<u64>)
        ensures
            r == self@.fabric.bandwidth(src, dst),
    {
        self.fabric.bandwidth(src, dst)
    }

    /// Partitions `a` and `b` from each other.
    pub fn partition(&mut self, a: NodeId, b: NodeId)
        ensures
            final(self)@ == (CtxState {
                fabric: old(self)@.fabric.with_partition(a, b),
                needs_failure_sweep: true,
                ..old(self)@
            }),
    {
        self.fabric.partition(a, b);
        self.needs_failure_sweep = true;
    }

    /// Lifts the partition between `a` and `b`.
    pub fn heal(&mut self, a: NodeId, b: NodeId)
        ensures
            final(self)@ == (CtxState { fabric: old(self)@.fabric.without_partition(a, b), ..old(self)@ }),
    {
        self.fabric.heal(a, b);
    }

    /// Whether `a` and `b` are partitioned from each other.
    pub fn is_partitioned(&self, a: NodeId, b: NodeId) -> (r: bool)
        ensures
            r == self@.fabric.partitioned(a, b),
    {
        self.fabric.is_partitioned(a, b)
    }

    /// Fails the edges between `a` and `b` in both directions.
    pub fn fail_link(&mut self, a: NodeId, b: NodeId)
        ensures
            final(self)@ == (CtxState {
                fabric: old(self)@.fabric.with_graph(
                    old(self)@.fabric.graph.with_failed_link(a, b).with_failed_link(b, a),
                ),
                needs_failure_sweep: true,
                ..old(self)@
            }),
    {
        self.fabric.topology_mut().fail_link(a, b);
        self.needs_failure_sweep = true;
    }

    /// Restores the edges between `a` and `b` in both directions.
    pub fn heal_link(&mut self, a: NodeId, b: NodeId)
        ensures
            final(self)@ == (CtxState {
                fabric: old(self)@.fabric.with_graph(
                    old(self)@.fabric.graph.with_healed_link(a, b).with_healed_link(b, a),
                ),
                ..old(self)@
            }),
    {
        self.fabric.topology_mut().heal_link(a, b);
    }

    /// Whether the edges between `a` and `b` have failed in both directions.
    pub fn is_link_failed(&self, a: NodeId, b: NodeId) -> (r: bool)
        ensures
            r == (self@.fabric.graph.failed_links.contains((a, b))
                && self@.fabric.graph.failed_links.contains((b, a))),
    {
        self.fabric.topology().is_link_failed(a, b)
    }

    /// Fails the directed edge from `src` to `dst`.
    pub fn fail_link_directed(&mut self, src: NodeId, dst: NodeId)
        ensures
            final(self)@ == (CtxState {
                fabric: old(self)@.fabric.with_graph(
                    old(self)@.fabric.graph.with_failed_link(src, dst),
                ),
                needs_failure_sweep: true,
                ..old(self)@
            }),
    {
        self.fabric.topology_mut().fail_link_directed(src, dst);
        self.needs_failure_sweep = true;
    }

    /// Restores the directed edge from `src` to `dst`.
    pub fn heal_link_directed(&mut self, src: NodeId, dst: NodeId)
        ensures
            final(self)@ == (CtxState {
                fabric: old(self)@.fabric.with_graph(
                    old(self)@.fabric.graph.with_healed_link(src, dst),
                ),
                ..old(self)@
            }),
    {
        self.fabric.topology_mut().heal_link_directed(src, dst);
    }

    /// Whether the directed edge from `src` to `dst` has failed.
    pub fn is_link_failed_directed(&self, src: NodeId, dst: NodeId) -> (r: bool)
        ensures
            r == self@.fabric.graph.failed_links.contains((src, dst)),
    {
        self.fabric.topology().is_link_failed_directed(src, dst)
    }

    /// Fails `node`.
    pub fn fail_node(&mut self, node: NodeId)
        ensures
            final(self)@ == (CtxState {
                fabric: old(self)@.fabric.with_graph(
                    old(self)@.fabric.graph.with_failed_node(node),
                ),
                needs_failure_sweep: true,
                ..old(self)@
            }),
    {
        self.fabric.topology_mut().fail_node(node);
        self.needs_failure_sweep = true;
    }

    /// Restores `node`.
    pub fn heal_node(&mut self, node: NodeId)
        ensures
            final(self)@ == (CtxState {
                fabric: old(self)@.fabric.with_graph(
                    old(self)@.fabric.graph.with_healed_node(node),
                ),
                ..old(self)@
            }),
    {
        self.fabric.topology_mut().heal_node(node);
    }

    /// Whether `node` has failed.
    pub fn is_node_failed(&self, node: NodeId) -> (r: bool)
        ensures
            r == self@.fabric.graph.failed_nodes.contains(node),
    {
        self.fabric.topology().is_node_failed(node)
    }

    /// The topology.
    pub fn topology(&self) -> (t: &Topology)
        ensures
            t@ == self@.fabric.graph,
    {
        self.fabric.topology()
    }

    /// The topology, for changes.
    pub fn topology_mut(&mut self) -> (t: &mut Topology)
        ensures
            t@ == old(self)@.fabric.graph,
            final(self)@ == (CtxState {
                fabric: old(self)@.fabric.with_graph(final(t)@),
                ..old(self)@
            }),
    {
        self.fabric.topology_mut()
    }

    /// The generator, for handlers that need randomness of their own.
    pub fn rng(&mut self) -> (r: &mut SimRng)
        ensures
            r@ == old(self)@.fabric.rng,
            final(self)@ == (CtxState {
                fabric: FabricState { rng: final(r)@, ..old(self)@.fabric },
                ..old(self)@
            }),
    {
        self.fabric.rng()
    }
}

} // verus!
