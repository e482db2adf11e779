//! The core simulation engine.

use vstd::prelude::*;

use crate::queue::{
    earliest_first, kept, schedule_adds_one_event, schedule_keeps_order, EventQueue, QueueState,
    Scheduled,
};
use crate::time::{Duration, Time};

verus! {

/// Figures about a simulation run.
#[derive(Debug, Clone, PartialEq, Eq, Structural)]
pub struct SimulationStats {
    /// The number of events processed.
    pub events_processed: u64,
    /// The simulated time at the end of the run.
    pub final_time: Time,
    /// The number of events ever scheduled, processed or not.
    pub events_scheduled: u64,
}

impl Default for SimulationStats {
    fn default() -> (s: SimulationStats)
        ensures
            s == (SimulationStats { events_processed: 0, final_time: Time(0), events_scheduled: 0 }),
    {
        SimulationStats { events_processed: 0, final_time: Time(0), events_scheduled: 0 }
    }
}

/// What a simulation holds.
#[verifier::ext_equal]
pub struct SimState<E> {
    /// The current simulated time.
    pub now: Time,
    /// The events that wait.
    pub queue: QueueState<E>,
    /// The number of events processed so far.
    pub events_processed: u64,
}

impl<E> SimState<E> {
    /// A simulation at its start, with nothing scheduled.
    pub open spec fn initial() -> SimState<E> {
        SimState { now: Time(0), queue: QueueState::empty(), events_processed: 0 }
    }

    /// The simulation after taking its next event off the queue: the clock
    /// stands at that event's time.
    pub open spec fn advanced(self) -> SimState<E> {
        SimState {
            now: self.queue.pending[0].time,
            queue: self.queue.rest(),
            events_processed: (self.events_processed + 1) as u64,
        }
    }

    /// The simulation after scheduling `event` at `time`.
    pub open spec fn schedule(self, time: Time, event: E) -> SimState<E> {
        SimState { queue: self.queue.schedule(time, event), ..self }
    }

    /// The figures of a run that ends here.
    pub open spec fn stats(self) -> SimulationStats {
        SimulationStats {
            events_processed: self.events_processed,
            final_time: self.now,
            events_scheduled: self.queue.next_sequence,
        }
    }
}

/// Whether `states` follows a simulation from event to event: from each state
/// but the last the next event is taken off the queue and handed to the
/// handler, which leaves the state that comes next. `handles(s, e, t)` says
/// that the handler, given state `s` and event `e`, may leave state `t`.
pub open spec fn is_run<E>(
    handles: spec_fn(SimState<E>, E, SimState<E>) -> bool,
    states: Seq<SimState<E>>,
) -> bool {
    &&& states.len() > 0
    &&& forall|i: int|
        0 <= i < states.len() - 1 ==> {
            &&& (#[trigger] states[i]).queue.pending.len() > 0
            &&& handles(states[i].advanced(), states[i].queue.pending[0].event, states[i + 1])
        }
}

/// Whether a run from `start` may come to hand `event` to the handler in state `given`.
pub open spec fn may_meet<E>(
    handles: spec_fn(SimState<E>, E, SimState<E>) -> bool,
    start: SimState<E>,
    given: SimState<E>,
    event: E,
) -> bool {
    exists|states: Seq<SimState<E>>|
        {
            &&& #[trigger] is_run(handles, states)
            &&& states[0] == start
            &&& states.last().queue.pending.len() > 0
            &&& given == states.last().advanced()
            &&& event == states.last().queue.pending[0].event
        }
}

/// Whether every run from `start` ends before the event counter overflows.
pub open spec fn runs_end<E>(
    handles: spec_fn(SimState<E>, E, SimState<E>) -> bool,
    start: SimState<E>,
) -> bool {
    forall|states: Seq<SimState<E>>|
        #![trigger is_run(handles, states)]
        is_run(handles, states) && states[0] == start && states.last().queue.pending.len() > 0 ==> {
            &&& states.len() < u64::MAX
            &&& states.last().events_processed < u64::MAX
        }
}

/// A run stays a run when its last state's next event is handled.
proof fn lemma_run_extends<E>(
    handles: spec_fn(SimState<E>, E, SimState<E>) -> bool,
    states: Seq<SimState<E>>,
    next: SimState<E>,
)
    requires
        is_run(handles, states),
        states.last().queue.pending.len() > 0,
        handles(states.last().advanced(), states.last().queue.pending[0].event, next),
    ensures
        is_run(handles, states.push(next)),
{
    let longer = states.push(next);
    assert forall|i: int| 0 <= i < longer.len() - 1 implies {
        &&& (#[trigger] longer[i]).queue.pending.len() > 0
        &&& handles(longer[i].advanced(), longer[i].queue.pending[0].event, longer[i + 1])
    } by {
        assert(longer[i] == states[i]);
        if i < states.len() - 1 {
            assert(longer[i + 1] == states[i + 1]);
        }
    }
}

/// Whether a handler, given the same state and the same event, always leaves the
/// same state.
pub open spec fn handles_alike<E>(
    handles: spec_fn(SimState<E>, E, SimState<E>) -> bool,
) -> bool {
    forall|s: SimState<E>, e: E, t: SimState<E>, u: SimState<E>|
        #![trigger handles(s, e, t), handles(s, e, u)]
        handles(s, e, t) && handles(s, e, u) ==> t == u
}

/// A simulation is deterministic: two runs from the same start, with a handler
/// that always does the same, go through the same states as far as both go, and
/// are the same run if both end with no event waiting.
pub proof fn runs_are_deterministic<E>(
    handles: spec_fn(SimState<E>, E, SimState<E>) -> bool,
    a: Seq<SimState<E>>,
    b: Seq<SimState<E>>,
)
    requires
        handles_alike(handles),
        is_run(handles, a),
        is_run(handles, b),
        a[0] == b[0],
    ensures
        forall|i: int| 0 <= i < a.len() && i < b.len() ==> #[trigger] a[i] == b[i],
        a.last().queue.pending.len() == 0 && b.last().queue.pending.len() == 0 ==> a == b,
{
    let n = if a.len() <= b.len() {
        a.len()
    } else {
        b.len()
    };
    lemma_runs_agree(handles, a, b, n);
    if a.last().queue.pending.len() == 0 && b.last().queue.pending.len() == 0 {
        if a.len() < b.len() {
            assert(b[a.len() - 1].queue.pending.len() > 0);
        }
        if b.len() < a.len() {
            assert(a[b.len() - 1].queue.pending.len() > 0);
        }
        assert(a =~= b);
    }
}

proof fn lemma_runs_agree<E>(
    handles: spec_fn(SimState<E>, E, SimState<E>) -> bool,
    a: Seq<SimState<E>>,
    b: Seq<SimState<E>>,
    n: nat,
)
    requires
        handles_alike(handles),
        is_run(handles, a),
        is_run(handles, b),
        a[0] == b[0],
        n <= a.len(),
        n <= b.len(),
    ensures
        forall|i: int| 0 <= i < n ==> #[trigger] a[i] == b[i],
    decreases n,
{
    if n > 1 {
        lemma_runs_agree(handles, a, b, (n - 1) as nat);
        let i = n - 2;
        assert(a[i] == b[i]);
        assert(handles(a[i].advanced(), a[i].queue.pending[0].event, a[i + 1]));
        assert(handles(b[i].advanced(), b[i].queue.pending[0].event, b[i + 1]));
    }
}

/// Whether `points` follows a run whose handler remembers something, from event to
/// event: each point is what the handler remembers and the state of the simulation.
/// `handles(d, s, e, f, t)` says that the handler with memory `d`, given state `s` and
/// event `e`, may come to memory `f` and leave state `t`.
pub open spec fn is_remembering_run<E, D>(
    handles: spec_fn(D, SimState<E>, E, D, SimState<E>) -> bool,
    points: Seq<(D, SimState<E>)>,
) -> bool {
    &&& points.len() > 0
    &&& forall|i: int|
        0 <= i < points.len() - 1 ==> {
            let (memory, state) = #[trigger] points[i];
            &&& state.queue.pending.len() > 0
            &&& handles(
                memory,
                state.advanced(),
                state.queue.pending[0].event,
                points[i + 1].0,
                points[i + 1].1,
            )
        }
}

/// Whether a handler, with the same memory and given the same state and the same event,
/// always comes to the same memory and leaves the same state.
pub open spec fn remembers_alike<E, D>(
    handles: spec_fn(D, SimState<E>, E, D, SimState<E>) -> bool,
) -> bool {
    forall|d: D, s: SimState<E>, e: E, f: D, t: SimState<E>, g: D, u: SimState<E>|
        #![trigger handles(d, s, e, f, t), handles(d, s, e, g, u)]
        handles(d, s, e, f, t) && handles(d, s, e, g, u) ==> f == g && t == u
}

/// A simulation is deterministic for a handler with a memory, too: two runs from the
/// same start and the same memory, with a handler that always does the same, go through
/// the same points as far as both go, and are the same run if both end with no event
/// waiting.
pub proof fn remembering_runs_are_deterministic<E, D>(
    handles: spec_fn(D, SimState<E>, E, D, SimState<E>) -> bool,
    a: Seq<(D, SimState<E>)>,
    b: Seq<(D, SimState<E>)>,
)
    requires
        remembers_alike(handles),
        is_remembering_run(handles, a),
        is_remembering_run(handles, b),
        a[0] == b[0],
    ensures
        forall|i: int| 0 <= i < a.len() && i < b.len() ==> #[trigger] a[i] == b[i],
        a.last().1.queue.pending.len() == 0 && b.last().1.queue.pending.len() == 0 ==> a == b,
{
    let n = if a.len() <= b.len() {
        a.len()
    } else {
        b.len()
    };
    lemma_remembering_runs_agree(handles, a, b, n);
    if a.last().1.queue.pending.len() == 0 && b.last().1.queue.pending.len() == 0 {
        if a.len() < b.len() {
            assert(b[a.len() - 1].1.queue.pending.len() > 0);
        }
        if b.len() < a.len() {
            assert(a[b.len() - 1].1.queue.pending.len() > 0);
        }
        assert(a =~= b);
    }
}

proof fn lemma_remembering_runs_agree<E, D>(
    handles: spec_fn(D, SimState<E>, E, D, SimState<E>) -> bool,
    a: Seq<(D, SimState<E>)>,
    b: Seq<(D, SimState<E>)>,
    n: nat,
)
    requires
        remembers_alike(handles),
        is_remembering_run(handles, a),
        is_remembering_run(handles, b),
        a[0] == b[0],
        n <= a.len(),
        n <= b.len(),
    ensures
        forall|i: int| 0 <= i < n ==> #[trigger] a[i] == b[i],
    decreases n,
{
    if n > 1 {
        lemma_remembering_runs_agree(handles, a, b, (n - 1) as nat);
        let i = n - 2;
        assert(a[i] == b[i]);
        let (memory, state) = a[i];
        let event = state.queue.pending[0].event;
        assert(handles(memory, state.advanced(), event, a[i + 1].0, a[i + 1].1));
        assert(handles(memory, state.advanced(), event, b[i + 1].0, b[i + 1].1));
    }
}

impl<E> SimState<E> {
    /// Whether nothing that waits is overdue.
    pub open spec fn timely(self) -> bool {
        &&& self.queue.wf()
        &&& forall|i: int|
            0 <= i < self.queue.pending.len() ==> self.now.0 <= (
            #[trigger] self.queue.pending[i]).time.0
    }

    /// Scheduling for now or later leaves nothing overdue.
    pub proof fn scheduling_ahead_is_timely(self, time: Time, event: E)
        requires
            self.timely(),
            self.now.0 <= time.0,
            self.queue.next_sequence < u64::MAX,
        ensures
            self.schedule(time, event).timely(),
    {
        schedule_keeps_order(self.queue, time, event);
        schedule_adds_one_event(self.queue, time, event);
        let after = self.schedule(time, event);
        assert forall|i: int| 0 <= i < after.queue.pending.len() implies after.now.0 <= (
        #[trigger] after.queue.pending[i]).time.0 by {
            if self.queue.pending.contains(after.queue.pending[i]) {
                let j = choose|j: int|
                    0 <= j < self.queue.pending.len() && self.queue.pending[j]
                        == after.queue.pending[i];
                assert(self.now.0 <= self.queue.pending[j].time.0);
            }
        }
    }

    /// The clock never goes back while nothing is overdue, and nothing is overdue
    /// after the next event was taken off the queue.
    pub proof fn clock_never_goes_back(self)
        requires
            self.timely(),
            self.queue.pending.len() > 0,
        ensures
            self.now.0 <= self.advanced().now.0,
            self.advanced().timely(),
    {
        earliest_first(self.queue);
    }
}

/// The clock never goes back during a run, if nothing is overdue at the start and
/// the handler schedules nothing in the past.
pub proof fn clock_is_monotone<E>(
    handles: spec_fn(SimState<E>, E, SimState<E>) -> bool,
    states: Seq<SimState<E>>,
    i: int,
    j: int,
)
    requires
        is_run(handles, states),
        states[0].timely(),
        forall|s: SimState<E>, e: E, t: SimState<E>| #[trigger]
            handles(s, e, t) && s.timely() ==> t.timely() && t.now == s.now,
        0 <= i <= j < states.len(),
    ensures
        states[j].timely(),
        states[i].now.0 <= states[j].now.0,
    decreases j,
{
    if j > 0 {
        clock_is_monotone(
            handles,
            states,
            if i < j {
                i
            } else {
                j - 1
            },
            j - 1,
        );
        let before = states[j - 1];
        assert(before.queue.pending.len() > 0);
        before.clock_never_goes_back();
        assert(handles(before.advanced(), before.queue.pending[0].event, states[j - 1 + 1]));
    }
}

/// A discrete-event simulator: it processes events in time order and leaves
/// what they mean to a handler.
#[derive(Debug)]
pub struct Simulation<E> {
    now: Time,
    queue: EventQueue<E>,
    events_processed: u64,
}

impl<E> View for Simulation<E> {
    type V = SimState<E>;

    closed spec fn view(&self) -> SimState<E> {
        SimState { now: self.now, queue: self.queue@, events_processed: self.events_processed }
    }
}

impl<E> Simulation<E> {
    /// Creates a simulation at time zero.
    pub fn new() -> (s: Simulation<E>)
        ensures
            s@ == SimState::<E>::initial(),
    {
        Simulation { now: Time(0), queue: EventQueue::new(), events_processed: 0 }
    }

    /// Creates a simulation at time zero with room for `capacity` waiting events.
    pub fn with_capacity(capacity: usize) -> (s: Simulation<E>)
        ensures
            s@ == SimState::<E>::initial(),
    {
        Simulation { now: Time(0), queue: EventQueue::with_capacity(capacity), events_processed: 0 }
    }

    /// The current simulated time.
    pub fn now(&self) -> (t: Time)
        ensures
            t == self@.now,
    {
        self.now
    }

    /// The number of events processed so far.
    pub fn events_processed(&self) -> (n: u64)
        ensures
            n == self@.events_processed,
    {
        self.events_processed
    }

    /// The number of events that wait.
    pub fn pending_events(&self) -> (n: usize)
        ensures
            n == self@.queue.pending.len(),
    {
        self.queue.len()
    }

    /// Whether no event waits.
    pub fn is_empty(&self) -> (r: bool)
        ensures
            r == (self@.queue.pending.len() == 0),
    {
        self.queue.is_empty()
    }

    /// Schedules `event` at `time` and returns the number it was given. A time
    /// before the current one is allowed: the clock then steps back to it when
    /// the event's turn comes.
    pub fn schedule(&mut self, time: Time, event: E) -> (sequence: u64)
        requires
            old(self)@.queue.next_sequence < u64::MAX,
        ensures
            sequence == old(self)@.queue.next_sequence,
            final(self)@ == old(self)@.schedule(time, event),
    {
        self.queue.schedule(time, event)
    }

    /// Schedules `event` after `delay` and returns the number it was given.
    pub fn schedule_in(&mut self, delay: Duration, event: E) -> (sequence: u64)
        requires
            old(self)@.queue.next_sequence < u64::MAX,
            old(self)@.now.0 + delay.0 <= u64::MAX,
        ensures
            sequence == old(self)@.queue.next_sequence,
            final(self)@ == old(self)@.schedule(Time((old(self)@.now.0 + delay.0) as u64), event),
    {
        self.queue.schedule(self.now + delay, event)
    }

    /// The next event to process.
    pub fn peek(&self) -> (next: Option<&Scheduled<E>>)
        ensures
            self@.queue.wf(),
            self@.queue.pending.len() == 0 ==> next is None,
            self@.queue.pending.len() > 0 ==> next == Some(&self@.queue.pending[0]),
    {
        self.queue.peek()
    }

    /// Takes the next event off the queue, sets the clock to its time and
    /// returns it. Returns `None`, with nothing changed, if no event waits.
    pub fn step(&mut self) -> (next: Option<Scheduled<E>>)
        requires
            old(self)@.queue.pending.len() > 0 ==> old(self)@.events_processed < u64::MAX,
        ensures
            old(self)@.queue.wf(),
            final(self)@.queue.wf(),
            old(self)@.queue.pending.len() == 0 ==> next is None && final(self)@ == old(self)@,
            old(self)@.queue.pending.len() > 0 ==> next == Some(old(self)@.queue.pending[0])
                && final(self)@ == old(self)@.advanced(),
    {
        match self.queue.pop() {
            Some(scheduled) => {
                self.now = scheduled.time;
                self.events_processed = self.events_processed + 1;
                Some(scheduled)
            },
            None => None,
        }
    }

    /// Schedules every event of `items` in turn.
    pub(crate) fn schedule_all(&mut self, items: Vec<(Time, E)>)
        requires
            old(self)@.queue.next_sequence + items.len() <= u64::MAX,
        ensures
            final(self)@ == (SimState { queue: old(self)@.queue.schedule_all(items@), ..old(self)@ }),
    {
        self.queue.schedule_all(items);
    }

    /// Hands every waiting event to `f`, in processing order. What `f` returns is
    /// scheduled anew; where it returns nothing, the event is gone.
    pub fn rewrite_queue<F>(&mut self, f: F) where F: FnMut(Scheduled<E>) -> Option<(Time, E)>
        requires
            forall|s: Scheduled<E>| call_requires(f, (s,)),
            old(self)@.queue.next_sequence + old(self)@.queue.pending.len() <= u64::MAX,
        ensures
            exists|outcomes: Seq<Option<(Time, E)>>|
                {
                    &&& outcomes.len() == old(self)@.queue.pending.len()
                    &&& forall|i: int|
                        0 <= i < outcomes.len() ==> call_ensures(
                            f,
                            (old(self)@.queue.pending[i],),
                            #[trigger] outcomes[i],
                        )
                    &&& final(self)@ == (SimState {
                        queue: old(self)@.queue.cleared().schedule_all(#[trigger] kept(outcomes)),
                        ..old(self)@
                    })
                },
    {
        self.queue.rewrite(f);
    }

    /// Takes all waiting events off the queue, in processing order.
    pub(crate) fn drain(&mut self) -> (events: Vec<Scheduled<E>>)
        ensures
            events@ == old(self)@.queue.pending,
            final(self)@ == (SimState { queue: old(self)@.queue.cleared(), ..old(self)@ }),
    {
        self.queue.drain()
    }

    /// The number of events that were ever scheduled.
    pub fn total_scheduled(&self) -> (n: u64)
        ensures
            n == self@.queue.next_sequence,
    {
        self.queue.total_scheduled()
    }

    /// Drops all waiting events.
    pub fn clear(&mut self)
        ensures
            final(self)@ == (SimState { queue: old(self)@.queue.cleared(), ..old(self)@ }),
    {
        self.queue.clear();
    }

    /// The figures of a run that ends here.
    fn stats(&self) -> (s: SimulationStats)
        ensures
            s == self@.stats(),
    {
        SimulationStats {
            events_processed: self.events_processed,
            final_time: self.now,
            events_scheduled: self.total_scheduled(),
        }
    }

    /// Hands every event to `handler`, in processing order, until none waits.
    /// The handler may schedule further events.
    pub fn run<F>(self, handler: F) -> (stats: SimulationStats) where F: FnMut(&mut Self, E)
        requires
            forall|s: &mut Self, e: E|
                may_meet(
                    |s0: SimState<E>, e: E, s1: SimState<E>|
                        exists|s: &mut Self|
                            s@ == s0 && final(s)@ == s1 && #[trigger] call_ensures(
                                handler,
                                (s, e),
                                (),
                            ),
                    self@,
                    s@,
                    e,
                ) ==> #[trigger] call_requires(handler, (s, e)),
            runs_end(
                |s0: SimState<E>, e: E, s1: SimState<E>|
                    exists|s: &mut Self|
                        s@ == s0 && final(s)@ == s1 && #[trigger] call_ensures(handler, (s, e), ()),
                self@,
            ),
        ensures
            exists|states: Seq<SimState<E>>|
                #![trigger states.last()]
                states[0] == self@ && states.last().queue.pending.len() == 0 && stats
                    == states.last().stats() && is_run(
                    |s0: SimState<E>, e: E, s1: SimState<E>|
                        exists|s: &mut Self|
                            s@ == s0 && final(s)@ == s1 && #[trigger] call_ensures(
                                handler,
                                (s, e),
                                (),
                            ),
                    states,
                ),
    {
        let mut sim = self;
        let ghost given = handler;
        let mut handler = handler;
        let ghost handles = |s0: SimState<E>, e: E, s1: SimState<E>|
            exists|s: &mut Self|
                s@ == s0 && final(s)@ == s1 && #[trigger] call_ensures(handler, (s, e), ());
        let ghost mut states: Seq<SimState<E>> = seq![self@];
        while !sim.is_empty()
            invariant
                handler == given,
                forall|s: &mut Self, e: E|
                    may_meet(handles, self@, s@, e) ==> #[trigger] call_requires(handler, (s, e)),
                handles == (|s0: SimState<E>, e: E, s1: SimState<E>|
                    exists|s: &mut Self|
                        s@ == s0 && final(s)@ == s1 && #[trigger] call_ensures(handler, (s, e), ())),
                runs_end(handles, self@),
                is_run(handles, states),
                states[0] == self@,
                states.last() == sim@,
            decreases u64::MAX - states.len(),
        {
            let ghost s0 = sim@;
            match sim.step() {
                Some(scheduled) => {
                    let ghost e = scheduled.event;
                    assert(may_meet(handles, self@, sim@, e));
                    handler(&mut sim, scheduled.event);
                    proof {
                        assert(handles(s0.advanced(), e, sim@));
                        lemma_run_extends(handles, states, sim@);
                        states = states.push(sim@);
                    }
                },
                None => {},
            }
        }
        sim.stats()
    }

    /// Hands every event to `handler`, in processing order, until none waits or
    /// the handler returns `false`. The second result tells whether the run
    /// went on until no event waited.
    pub fn run_until<F>(self, handler: F) -> (result: (SimulationStats, bool)) where
        F: FnMut(&mut Self, E) -> bool,

        requires
            forall|s: &mut Self, e: E|
                may_meet(
                    |s0: SimState<E>, e: E, s1: SimState<E>|
                        exists|s: &mut Self|
                            s@ == s0 && final(s)@ == s1 && #[trigger] call_ensures(
                                handler,
                                (s, e),
                                true,
                            ),
                    self@,
                    s@,
                    e,
                ) ==> #[trigger] call_requires(handler, (s, e)),
            runs_end(
                |s0: SimState<E>, e: E, s1: SimState<E>|
                    exists|s: &mut Self|
                        s@ == s0 && final(s)@ == s1 && #[trigger] call_ensures(
                            handler,
                            (s, e),
                            true,
                        ),
                self@,
            ),
        ensures
            exists|states: Seq<SimState<E>>, end: SimState<E>|
                #![trigger states.last(), end.stats()]
                states[0] == self@ && is_run(
                    |s0: SimState<E>, e: E, s1: SimState<E>|
                        exists|s: &mut Self|
                            s@ == s0 && final(s)@ == s1 && #[trigger] call_ensures(
                                handler,
                                (s, e),
                                true,
                            ),
                    states,
                ) && result.0 == end.stats() && if result.1 {
                    states.last().queue.pending.len() == 0 && end == states.last()
                } else {
                    states.last().queue.pending.len() > 0 && exists|s: &mut Self|
                        s@ == states.last().advanced() && final(s)@ == end
                            && #[trigger] call_ensures(
                            handler,
                            (s, states.last().queue.pending[0].event),
                            false,
                        )
                },
    {
        let mut sim = self;
        let ghost given = handler;
        let mut handler = handler;
        let ghost handles = |s0: SimState<E>, e: E, s1: SimState<E>|
            exists|s: &mut Self|
                s@ == s0 && final(s)@ == s1 && #[trigger] call_ensures(handler, (s, e), true);
        let ghost mut states: Seq<SimState<E>> = seq![self@];
        let mut go_on: bool = true;
        while go_on && !sim.is_empty()
            invariant
                handler == given,
                forall|s: &mut Self, e: E|
                    may_meet(handles, self@, s@, e) ==> #[trigger] call_requires(handler, (s, e)),
                handles == (|s0: SimState<E>, e: E, s1: SimState<E>|
                    exists|s: &mut Self|
                        s@ == s0 && final(s)@ == s1 && #[trigger] call_ensures(
                            handler,
                            (s, e),
                            true,
                        )),
                runs_end(handles, self@),
                is_run(handles, states),
                states[0] == self@,
                go_on ==> states.last() == sim@,
                !go_on ==> states.last().queue.pending.len() > 0 && exists|s: &mut Self|
                    s@ == states.last().advanced() && final(s)@ == sim@ && #[trigger] call_ensures(
                        handler,
                        (s, states.last().queue.pending[0].event),
                        false,
                    ),
            decreases u64::MAX - states.len(), (if go_on { 1int } else { 0int }),
        {
            let ghost s0 = sim@;
            match sim.step() {
                Some(scheduled) => {
                    let ghost e = scheduled.event;
                    assert(may_meet(handles, self@, sim@, e));
                    go_on = handler(&mut sim, scheduled.event);
                    proof {
                        if go_on {
                            assert(handles(s0.advanced(), e, sim@));
                            lemma_run_extends(handles, states, sim@);
                            states = states.push(sim@);
                        }
                    }
                },
                None => {},
            }
        }
        let stats = sim.stats();
        assert(stats == sim@.stats());
        (stats, go_on)
    }
}

impl<E> Default for Simulation<E> {
    fn default() -> (s: Simulation<E>)
        ensures
            s@ == SimState::<E>::initial(),
    {
        Simulation::new()
    }
}

} // verus!
