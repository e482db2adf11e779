//! Scenarios: a topology, messages that are sent at the start, failures at fixed
//! times and a limit on the simulated time.

use vstd::prelude::*;

use crate::net::node::NodeId;
use crate::net::topology::Topology;
use crate::task::builder::TaskSimBuilder;
use crate::task::context::{contexts_of, node_contexts, NodeContext};
use crate::task::event::{FailureAction, TaskEvent, TaskId, TaskSimStats};
use crate::task::run::{
    acting, lemma_failing_grows, lemma_finishing_grows, lemma_polling_grows, may_fail, may_poll,
    may_return,
};
use crate::task::sim::TaskSim;
use crate::task::state::TaskState;
use crate::time::{Duration, Time};

verus! {

/// A task-based simulation with what is to happen in it.
#[derive(Debug)]
pub struct Scenario<M> {
    /// The topology.
    pub topology: Topology,
    /// The seed.
    pub seed: u64,
    /// The messages that are sent before any task runs: source, destination and
    /// what they carry.
    pub injections: Vec<(NodeId, NodeId, M)>,
    /// The failures and repairs with their times.
    pub failures: Vec<(Time, FailureAction)>,
    /// The time after which no event is processed.
    pub run_until: Option<Time>,
}

/// The state after messages were sent one after the other, if what becomes of
/// them can be represented.
pub open spec fn injecting<M>(state: TaskState<M>, injections: Seq<(NodeId, NodeId, M)>) -> Option<
    TaskState<M>,
>
    decreases injections.len(),
{
    if injections.len() == 0 {
        Some(state)
    } else {
        let last = injections.last();
        match injecting(state, injections.drop_last()) {
            Some(s) => s.posting(last.0, last.1, last.2),
            None => None,
        }
    }
}

/// The state after failures and repairs were scheduled one after the other, if
/// they can be numbered.
pub open spec fn arranging<M>(state: TaskState<M>, failures: Seq<(Time, FailureAction)>) -> Option<
    TaskState<M>,
>
    decreases failures.len(),
{
    if failures.len() == 0 {
        Some(state)
    } else {
        let last = failures.last();
        match arranging(state, failures.drop_last()) {
            Some(s) => s.scheduling(last.0, TaskEvent::ApplyFailure(last.1)),
            None => None,
        }
    }
}

/// The state after the messages were sent in order and then the failures and repairs
/// were scheduled in order, if that can be represented.
pub open spec fn prepared<M>(
    state: TaskState<M>,
    injections: Seq<(NodeId, NodeId, M)>,
    failures: Seq<(Time, FailureAction)>,
) -> Option<TaskState<M>> {
    match injecting(state, injections) {
        Some(s) => arranging(s, failures),
        None => None,
    }
}

/// If messages cannot all be sent, they cannot be sent with more after them.
proof fn lemma_injecting_stops<M>(state: TaskState<M>, all: Seq<(NodeId, NodeId, M)>, k: int)
    requires
        0 <= k <= all.len(),
        injecting(state, all.take(k)) is None,
    ensures
        injecting(state, all) is None,
    decreases all.len() - k,
{
    if k < all.len() {
        assert(all.take(k + 1).drop_last() =~= all.take(k));
        lemma_injecting_stops(state, all, k + 1);
    } else {
        assert(all.take(k) =~= all);
    }
}

proof fn lemma_arranging_stops<M>(state: TaskState<M>, all: Seq<(Time, FailureAction)>, k: int)
    requires
        0 <= k <= all.len(),
        arranging(state, all.take(k)) is None,
    ensures
        arranging(state, all) is None,
    decreases all.len() - k,
{
    if k < all.len() {
        assert(all.take(k + 1).drop_last() =~= all.take(k));
        lemma_arranging_stops(state, all, k + 1);
    } else {
        assert(all.take(k) =~= all);
    }
}

/// Sends the messages in order and then schedules the failures and repairs in order.
/// Returns `false` if that cannot be represented; nothing is said of the simulation then.
pub fn prepare<M>(
    sim: &mut TaskSim<M>,
    injections: Vec<(NodeId, NodeId, M)>,
    failures: Vec<(Time, FailureAction)>,
) -> (done: bool)
    requires
        old(sim)@.wf(),
    ensures
        done == (prepared(old(sim)@, injections@, failures@) is Some),
        done ==> Some(final(sim)@) == prepared(old(sim)@, injections@, failures@),
        final(sim)@.wf(),
        final(sim)@.graph == old(sim)@.graph,
{
    let ghost start = sim@;
    let ghost messages = injections@;
    for injection in it: injections
        invariant
            it.seq() == messages,
            messages == injections@,
            start == old(sim)@,
            sim@.wf(),
            sim@.graph == start.graph,
            injecting(start, messages.take(it.index())) == Some(sim@),
    {
        assert(messages.take(it.index() + 1).drop_last() =~= messages.take(it.index()));
        if !sim.try_inject(injection.0, injection.1, injection.2) {
            proof {
                lemma_injecting_stops(start, messages, it.index() + 1);
            }
            return false;
        }
    }
    assert(messages.take(messages.len() as int) =~= messages);
    let ghost sent = sim@;
    let ghost actions = failures@;
    for failure in it: failures
        invariant
            it.seq() == actions,
            actions == failures@,
            start == old(sim)@,
            injecting(start, injections@) == Some(sent),
            sim@.wf(),
            sim@.graph == start.graph,
            arranging(sent, actions.take(it.index())) == Some(sim@),
    {
        assert(actions.take(it.index() + 1).drop_last() =~= actions.take(it.index()));
        if !sim.try_schedule_failure(failure.0, failure.1) {
            proof {
                lemma_arranging_stops(sent, actions, it.index() + 1);
            }
            return false;
        }
    }
    assert(actions.take(actions.len() as int) =~= actions);
    true
}

impl<M> Scenario<M> {
    /// Begins with a topology and a seed.
    pub fn new(topology: Topology, seed: u64) -> (s: Scenario<M>)
        ensures
            s.topology == topology,
            s.seed == seed,
            s.injections@ == Seq::<(NodeId, NodeId, M)>::empty(),
            s.failures@ == Seq::<(Time, FailureAction)>::empty(),
            s.run_until is None,
    {
        Scenario {
            topology,
            seed,
            injections: Vec::new(),
            failures: Vec::new(),
            run_until: None,
        }
    }

    /// Adds a failure or a repair at `time`.
    pub fn fail_at(self, time: Time, action: FailureAction) -> (s: Scenario<M>)
        ensures
            s.failures@ == self.failures@.push((time, action)),
            s == (Scenario { failures: s.failures, ..self }),
    {
        let mut s = self;
        s.failures.push((time, action));
        s
    }

    /// Adds a message that is sent before any task runs.
    pub fn inject(self, src: NodeId, dst: NodeId, payload: M) -> (s: Scenario<M>)
        ensures
            s.injections@ == self.injections@.push((src, dst, payload)),
            s == (Scenario { injections: s.injections, ..self }),
    {
        let mut s = self;
        s.injections.push((src, dst, payload));
        s
    }

    /// Limits the run to `duration` of simulated time.
    pub fn run_for(self, duration: Duration) -> (s: Scenario<M>)
        ensures
            s == (Scenario { run_until: Some(Time(duration.0)), ..self }),
    {
        Scenario { run_until: Some(Time(duration.0)), ..self }
    }

    /// The simulation at the start of the run, if it can be represented.
    pub open spec fn staged(self) -> Option<TaskState<M>> {
        prepared(
            TaskState::initial(self.topology@, self.seed, false, false),
            self.injections@,
            self.failures@,
        )
    }

    /// What the task of each node works with.
    pub fn contexts(&self) -> (contexts: Vec<NodeContext>)
        ensures
            contexts@ == contexts_of(self.topology@.links.len()),
    {
        node_contexts(self.topology.node_count())
    }

    /// Sets the simulation up for the run.
    pub fn stage(self) -> (r: Option<TaskSim<M>>)
        ensures
            match r {
                Some(sim) => self.staged() == Some(sim@) && sim@.wf() && sim@.graph.links.len()
                    == self.topology@.links.len(),
                None => self.staged() is None,
            },
    {
        let mut sim = TaskSimBuilder::<M>::new(self.topology, self.seed).build();
        if prepare(&mut sim, self.injections, self.failures) {
            Some(sim)
        } else {
            None
        }
    }

    /// Runs the scenario, until no event and no task is left or the limit is reached.
    /// `poll` polls a task and says whether it is done. Returns `None` if at the start
    /// or on the way something comes up that cannot be represented.
    pub fn try_run<P>(self, poll: P) -> (r: Option<TaskSimStats>) where
        P: FnMut(&mut TaskSim<M>, TaskId) -> bool,

        requires
            forall|s: &mut TaskSim<M>, id: TaskId|
                s@.wf() && id.0 < self.topology@.links.len() && may_poll(
                    acting(
                        |s0: TaskState<M>, id: TaskId, ready: bool, s1: TaskState<M>|
                            exists|s: &mut TaskSim<M>|
                                s@ == s0 && final(s)@ == s1 && #[trigger] call_ensures(
                                    poll,
                                    (s, id),
                                    ready,
                                ),
                        |t: Time, go_on: bool| go_on == within(self.run_until, t),
                    ),
                    self.staged()->0,
                    s@,
                    id,
                ) ==> #[trigger] call_requires(poll, (s, id)),
            forall|s: &mut TaskSim<M>, id: TaskId, ready: bool|
                s@.wf() && id.0 < self.topology@.links.len() && may_poll(
                    acting(
                        |s0: TaskState<M>, id: TaskId, ready: bool, s1: TaskState<M>|
                            exists|s: &mut TaskSim<M>|
                                s@ == s0 && final(s)@ == s1 && #[trigger] call_ensures(
                                    poll,
                                    (s, id),
                                    ready,
                                ),
                        |t: Time, go_on: bool| go_on == within(self.run_until, t),
                    ),
                    self.staged()->0,
                    s@,
                    id,
                ) && #[trigger] call_ensures(poll, (s, id), ready) ==> final(s)@.wf(),
        ensures
            match r {
                Some(stats) => self.staged() is Some && may_return(
                    acting(
                        |s0: TaskState<M>, id: TaskId, ready: bool, s1: TaskState<M>|
                            exists|s: &mut TaskSim<M>|
                                s@ == s0 && final(s)@ == s1 && #[trigger] call_ensures(
                                    poll,
                                    (s, id),
                                    ready,
                                ),
                        |t: Time, go_on: bool| go_on == within(self.run_until, t),
                    ),
                    self.staged()->0,
                    stats,
                ),
                None => self.staged() is None || may_fail(
                    acting(
                        |s0: TaskState<M>, id: TaskId, ready: bool, s1: TaskState<M>|
                            exists|s: &mut TaskSim<M>|
                                s@ == s0 && final(s)@ == s1 && #[trigger] call_ensures(
                                    poll,
                                    (s, id),
                                    ready,
                                ),
                        |t: Time, go_on: bool| go_on == within(self.run_until, t),
                    ),
                    self.staged()->0,
                ),
            },
    {
        let run_until: Option<Time> = self.run_until;
        let ghost polls = |s0: TaskState<M>, id: TaskId, ready: bool, s1: TaskState<M>|
            exists|s: &mut TaskSim<M>|
                s@ == s0 && final(s)@ == s1 && #[trigger] call_ensures(poll, (s, id), ready);
        let continue_fn = |t: Time| -> (go_on: bool)
            ensures
                go_on == within(run_until, t),
            { goes_on(run_until, t) };
        let ghost asks = |t: Time, go_on: bool| call_ensures(continue_fn, (t,), go_on);
        let ghost decides = |t: Time, go_on: bool| go_on == within(run_until, t);
        match self.stage() {
            Some(staged) => {
                let mut sim = staged;
                let ghost start = sim@;
                proof {
                    assert forall|s: &mut TaskSim<M>, id: TaskId|
                        s@.wf() && id.0 < start.graph.links.len() && may_poll(acting(polls, asks), start, s@, id) implies #[trigger] call_requires(
                        poll,
                        (s, id),
                    ) by {
                        lemma_polling_grows(acting(polls, asks), acting(polls, decides), start, s@, id);
                    }
                    assert forall|s: &mut TaskSim<M>, id: TaskId, ready: bool|
                        s@.wf() && id.0 < start.graph.links.len() && may_poll(acting(polls, asks), start, s@, id) && #[trigger] call_ensures(
                            poll,
                            (s, id),
                            ready,
                        ) implies final(s)@.wf() by {
                        lemma_polling_grows(acting(polls, asks), acting(polls, decides), start, s@, id);
                    }
                }
                match sim.try_run_until(poll, continue_fn) {
                    Some(stats) => {
                        proof {
                            lemma_finishing_grows(
                                acting(polls, asks),
                                acting(polls, decides),
                                start,
                                stats,
                                sim@,
                            );
                        }
                        Some(stats)
                    },
                    None => {
                        proof {
                            lemma_failing_grows(
                                acting(polls, asks),
                                acting(polls, decides),
                                start,
                            );
                        }
                        None
                    },
                }
            },
            None => None,
        }
    }

    /// Runs the scenario, until no event and no task is left or the limit is reached.
    pub fn run<P>(self, poll: P) -> (stats: TaskSimStats) where
        P: FnMut(&mut TaskSim<M>, TaskId) -> bool,

        requires
            forall|s: &mut TaskSim<M>, id: TaskId|
                s@.wf() && id.0 < self.topology@.links.len() && may_poll(
                    acting(
                        |s0: TaskState<M>, id: TaskId, ready: bool, s1: TaskState<M>|
                            exists|s: &mut TaskSim<M>|
                                s@ == s0 && final(s)@ == s1 && #[trigger] call_ensures(
                                    poll,
                                    (s, id),
                                    ready,
                                ),
                        |t: Time, go_on: bool| go_on == within(self.run_until, t),
                    ),
                    self.staged()->0,
                    s@,
                    id,
                ) ==> #[trigger] call_requires(poll, (s, id)),
            forall|s: &mut TaskSim<M>, id: TaskId, ready: bool|
                s@.wf() && id.0 < self.topology@.links.len() && may_poll(
                    acting(
                        |s0: TaskState<M>, id: TaskId, ready: bool, s1: TaskState<M>|
                            exists|s: &mut TaskSim<M>|
                                s@ == s0 && final(s)@ == s1 && #[trigger] call_ensures(
                                    poll,
                                    (s, id),
                                    ready,
                                ),
                        |t: Time, go_on: bool| go_on == within(self.run_until, t),
                    ),
                    self.staged()->0,
                    s@,
                    id,
                ) && #[trigger] call_ensures(poll, (s, id), ready) ==> final(s)@.wf(),
            self.staged() is Some,
            !may_fail(
                acting(
                    |s0: TaskState<M>, id: TaskId, ready: bool, s1: TaskState<M>|
                        exists|s: &mut TaskSim<M>|
                            s@ == s0 && final(s)@ == s1 && #[trigger] call_ensures(
                                poll,
                                (s, id),
                                ready,
                            ),
                    |t: Time, go_on: bool| go_on == within(self.run_until, t),
                ),
                self.staged()->0,
            ),
        ensures
            may_return(
                acting(
                    |s0: TaskState<M>, id: TaskId, ready: bool, s1: TaskState<M>|
                        exists|s: &mut TaskSim<M>|
                            s@ == s0 && final(s)@ == s1 && #[trigger] call_ensures(
                                poll,
                                (s, id),
                                ready,
                            ),
                    |t: Time, go_on: bool| go_on == within(self.run_until, t),
                ),
                self.staged()->0,
                stats,
            ),
    {
        match self.try_run(poll) {
            Some(stats) => stats,
            None => TaskSimStats::default(),
        }
    }
}

/// Whether a run with the limit `run_until` goes on to an event that is due at
/// `time`.
pub open spec fn within(run_until: Option<Time>, time: Time) -> bool {
    run_until matches Some(deadline) ==> time.0 <= deadline.0
}

/// Whether a run with the limit `run_until` goes on to an event that is due at
/// `time`.
pub fn goes_on(run_until: Option<Time>, time: Time) -> (r: bool)
    ensures
        r == within(run_until, time),
{
    match run_until {
        Some(deadline) => time.0 <= deadline.0,
        None => true,
    }
}

/// Messages are sent one after the other, the first one first: `states` follows them.
pub proof fn messages_are_injected_in_turn<M>(
    state: TaskState<M>,
    injections: Seq<(NodeId, NodeId, M)>,
) -> (states: Seq<TaskState<M>>)
    requires
        injecting(state, injections) is Some,
    ensures
        states.len() == injections.len() + 1,
        states[0] == state,
        states.last() == injecting(state, injections)->0,
        forall|k: int|
            #![trigger injections[k]]
            0 <= k < injections.len() ==> states[k].posting(
                injections[k].0,
                injections[k].1,
                injections[k].2,
            ) == Some(states[k + 1]),
    decreases injections.len(),
{
    if injections.len() == 0 {
        seq![state]
    } else {
        let fewer = injections.drop_last();
        let before = messages_are_injected_in_turn(state, fewer);
        let states = before.push(injecting(state, injections)->0);
        assert(states[0] == before[0]);
        assert forall|k: int|
            #![trigger injections[k]]
            0 <= k < injections.len() implies states[k].posting(
            injections[k].0,
            injections[k].1,
            injections[k].2,
        ) == Some(states[k + 1]) by {
            assert(states[k] == before[k]);
            if k < fewer.len() {
                assert(fewer[k] == injections[k]);
                assert(states[k + 1] == before[k + 1]);
            }
        }
        states
    }
}

/// Failures and repairs are scheduled one after the other, the first one first, each to take
/// effect at its time: `states` follows them.
pub proof fn failures_are_arranged_in_turn<M>(
    state: TaskState<M>,
    failures: Seq<(Time, FailureAction)>,
) -> (states: Seq<TaskState<M>>)
    requires
        arranging(state, failures) is Some,
    ensures
        states.len() == failures.len() + 1,
        states[0] == state,
        states.last() == arranging(state, failures)->0,
        forall|k: int|
            #![trigger failures[k]]
            0 <= k < failures.len() ==> states[k].scheduling(
                failures[k].0,
                TaskEvent::ApplyFailure(failures[k].1),
            ) == Some(states[k + 1]),
    decreases failures.len(),
{
    if failures.len() == 0 {
        seq![state]
    } else {
        let fewer = failures.drop_last();
        let before = failures_are_arranged_in_turn(state, fewer);
        let states = before.push(arranging(state, failures)->0);
        assert(states[0] == before[0]);
        assert forall|k: int|
            #![trigger failures[k]]
            0 <= k < failures.len() implies states[k].scheduling(
            failures[k].0,
            TaskEvent::ApplyFailure(failures[k].1),
        ) == Some(states[k + 1]) by {
            assert(states[k] == before[k]);
            if k < fewer.len() {
                assert(fewer[k] == failures[k]);
                assert(states[k + 1] == before[k + 1]);
            }
        }
        states
    }
}

/// A scenario starts from a new simulation of its topology and its seed, without a trace and
/// without drops of what is on its way, in which all its messages are sent before any of its
/// failures is scheduled. `sent` is the simulation in between.
pub proof fn scenarios_send_before_they_fail<M>(scenario: Scenario<M>) -> (sent: TaskState<M>)
    requires
        scenario.staged() is Some,
    ensures
        ({
            let start = TaskState::<M>::initial(
                scenario.topology@,
                scenario.seed,
                false,
                false,
            );
            &&& injecting(start, scenario.injections@) == Some(sent)
            &&& arranging(sent, scenario.failures@) == scenario.staged()
        }),
{
    injecting(
        TaskState::<M>::initial(scenario.topology@, scenario.seed, false, false),
        scenario.injections@,
    )->0
}

/// A run goes on to everything that is due by its limit, at the limit as well, and to nothing
/// that is due later; without a limit it goes on to everything.
pub proof fn runs_go_on_to_their_limit(limit: Time, time: Time)
    ensures
        within(None, time),
        within(Some(limit), limit),
        time.0 < limit.0 ==> within(Some(limit), time),
        time.0 > limit.0 ==> !within(Some(limit), time),
{
}

} // verus!
