//! Running a task-based simulation, step by step.
//!
//! Whoever drives a run polls the tasks and is asked whether to go on; what is
//! done in between is decided here.

use vstd::prelude::*;

use crate::queue::Scheduled;
use crate::task::event::{TaskEvent, TaskId, TaskSimStats, TaskTraceEvent};
use crate::task::sim::TaskSim;
use crate::task::state::TaskState;
use crate::time::Time;
use crate::trace::{Trace, TraceState};

verus! {

/// What the driver of a run reports.
#[derive(Debug, Clone, Copy, PartialEq, Eq, Structural)]
pub enum Reply {
    /// The run begins.
    Begin,
    /// The task was polled.
    Polled {
        /// Whether it is done.
        ready: bool,
    },
    /// Whether to go on was decided.
    Answer {
        /// Whether the run goes on.
        go_on: bool,
    },
}

/// What the driver of a run does next.
#[derive(Debug, Clone, Copy, PartialEq, Eq, Structural)]
pub enum Step {
    /// Poll a task.
    Poll(TaskId),
    /// Decide whether to go on to the event that is due at a time.
    Ask(Time),
    /// Nothing: the run is over.
    Finished(TaskSimStats),
    /// Give up: a counter, a number or a time would be too large.
    Overflow,
}

/// What a run waits for.
#[derive(Debug)]
pub enum Awaited<M> {
    /// Its beginning.
    Begin,
    /// The result of polling a task.
    Poll(TaskId),
    /// The decision whether to go on to an event.
    Answer(Scheduled<TaskEvent<M>>),
    /// Nothing: it is over.
    Nothing,
}

/// A run of a task-based simulation.
#[verifier::ext_equal]
pub struct RunState<M> {
    /// The tasks to poll before the next event, in order.
    pub batch: Seq<TaskId>,
    /// How many of them had their turn.
    pub position: nat,
    /// Which tasks are done.
    pub completed: Seq<bool>,
    /// What the run waits for.
    pub awaited: Awaited<M>,
    /// The figures so far.
    pub stats: TaskSimStats,
}

/// The first place from `from` on at which a task stands that exists and is not
/// done.
pub open spec fn upcoming(batch: Seq<TaskId>, completed: Seq<bool>, from: nat) -> Option<nat>
    decreases batch.len() - from,
{
    if from >= batch.len() {
        None
    } else if batch[from as int].0 < completed.len() && !completed[batch[from as int].0 as int] {
        Some(from)
    } else {
        upcoming(batch, completed, from + 1)
    }
}

/// Whether processing an event puts a message into an inbox.
pub open spec fn arrives<M>(sim: TaskState<M>, event: TaskEvent<M>) -> bool {
    event matches TaskEvent::Deliver { dst, .. } && sim.graph.has(dst)
}

/// A run and its simulation after a step, and what the driver does next.
#[verifier::ext_equal]
pub struct Outcome<M> {
    /// The run.
    pub run: RunState<M>,
    /// The simulation.
    pub sim: TaskState<M>,
    /// What the driver does next.
    pub step: Step,
}

impl<M> RunState<M> {
    /// A run that is to begin.
    pub open spec fn initial(sim: TaskState<M>) -> RunState<M> {
        RunState {
            batch: Seq::empty(),
            position: 0,
            completed: Seq::new(sim.graph.links.len(), |i: int| false),
            awaited: Awaited::Begin,
            stats: TaskSimStats {
                final_time: Time(0),
                events_processed: 0,
                messages_delivered: 0,
                task_polls: 0,
                tasks_completed: 0,
                messages_dropped: 0,
            },
        }
    }

    /// No more tasks had their turn than there are to poll, and a task that was
    /// asked for exists.
    pub open spec fn wf(self) -> bool {
        &&& self.position <= self.batch.len()
        &&& self.awaited matches Awaited::Poll(id) ==> id.0 < self.completed.len()
    }

    /// Whether `reply` is what the run waits for.
    pub open spec fn expects(self, reply: Reply) -> bool {
        match self.awaited {
            Awaited::Begin => reply is Begin,
            Awaited::Poll(_) => reply is Polled,
            Awaited::Answer(_) => reply is Answer,
            Awaited::Nothing => false,
        }
    }

    /// The run with the tasks that are ready as the next to poll.
    pub open spec fn reloaded(self, sim: TaskState<M>) -> RunState<M> {
        RunState { batch: sim.ready, position: 0, ..self }
    }

    /// The end of the run.
    pub open spec fn finish(self, sim: TaskState<M>) -> Option<Outcome<M>> {
        let stats = TaskSimStats {
            final_time: sim.now,
            messages_dropped: sim.messages_dropped,
            ..self.stats
        };
        Some(
            Outcome {
                run: RunState { awaited: Awaited::Nothing, stats, ..self },
                sim,
                step: Step::Finished(stats),
            },
        )
    }

    /// What comes next: the next task that is to be polled and not done; without
    /// one, the next event; without one, the tasks that have become ready; without
    /// one, the end. `None` if a counter would be too large.
    pub open spec fn proceed(self, sim: TaskState<M>) -> Option<Outcome<M>>
        decreases sim.ready.len(),
    {
        match upcoming(self.batch, self.completed, self.position) {
            Some(k) => if self.stats.task_polls < u64::MAX {
                Some(
                    Outcome {
                        run: RunState {
                            position: k + 1,
                            awaited: Awaited::Poll(self.batch[k as int]),
                            stats: TaskSimStats {
                                task_polls: (self.stats.task_polls + 1) as u64,
                                ..self.stats
                            },
                            ..self
                        },
                        sim,
                        step: Step::Poll(self.batch[k as int]),
                    },
                )
            } else {
                None
            },
            None => if sim.queue.pending.len() > 0 {
                let next = sim.queue.pending[0];
                Some(
                    Outcome {
                        run: RunState {
                            position: self.batch.len(),
                            awaited: Awaited::Answer(next),
                            ..self
                        },
                        sim: TaskState { queue: sim.queue.rest(), ..sim },
                        step: Step::Ask(next.time),
                    },
                )
            } else if sim.ready.len() > 0 {
                self.reloaded(sim).proceed(TaskState { ready: Seq::empty(), ..sim })
            } else {
                RunState { position: self.batch.len(), ..self }.finish(sim)
            },
        }
    }

    /// What comes after the tasks that are ready were made the next to poll.
    pub open spec fn proceed_anew(self, sim: TaskState<M>) -> Option<Outcome<M>> {
        self.reloaded(sim).proceed(TaskState { ready: Seq::empty(), ..sim })
    }

    /// The run after an event was processed. `None` if a counter would be too
    /// large.
    pub open spec fn processed(self, sim: TaskState<M>, event: TaskEvent<M>) -> Option<RunState<M>> {
        let arrived: int = if arrives(sim, event) {
            1
        } else {
            0
        };
        if self.stats.events_processed < u64::MAX && self.stats.messages_delivered + arrived
            <= u64::MAX {
            Some(
                RunState {
                    stats: TaskSimStats {
                        events_processed: (self.stats.events_processed + 1) as u64,
                        messages_delivered: (self.stats.messages_delivered + arrived) as u64,
                        ..self.stats
                    },
                    ..self
                },
            )
        } else {
            None
        }
    }

    /// The run and the simulation after one step. `None` if a counter, a number or
    /// a time would be too large.
    pub open spec fn advance(self, sim: TaskState<M>, reply: Reply) -> Option<Outcome<M>> {
        match (self.awaited, reply) {
            (Awaited::Poll(id), Reply::Polled { ready }) => {
                if !ready {
                    self.proceed(sim)
                } else if self.stats.tasks_completed < u64::MAX {
                    RunState {
                        completed: self.completed.update(id.0 as int, true),
                        stats: TaskSimStats {
                            tasks_completed: (self.stats.tasks_completed + 1) as u64,
                            ..self.stats
                        },
                        ..self
                    }.proceed(sim)
                } else {
                    None
                }
            },
            (Awaited::Answer(next), Reply::Answer { go_on }) => {
                if !go_on {
                    self.finish(sim)
                } else {
                    match (
                        self.processed(sim, next.event),
                        (TaskState { now: next.time, ..sim }).processing(next.event),
                    ) {
                        (Some(run), Some(after)) => run.proceed_anew(after),
                        _ => None,
                    }
                }
            },
            (Awaited::Begin, _) => self.proceed_anew(sim),
            _ => None,
        }
    }
}

/// A run between two steps, with its driver: the tasks with what they remember, and
/// whoever decides whether to go on.
#[verifier::ext_equal]
pub struct Driven<M, D> {
    /// The run.
    pub run: RunState<M>,
    /// The simulation.
    pub sim: TaskState<M>,
    /// What the driver remembers.
    pub driver: D,
    /// What the driver does next.
    pub step: Step,
}

/// Whether a driver may lead from one point of a run to the next.
/// `acts(d, step, s, e, reply, t)` says that the driver in state `d`, told to do
/// `step` with the simulation in state `s`, may come to state `e`, leave the
/// simulation in state `t` and report `reply`.
pub open spec fn drives<M, D>(
    acts: spec_fn(D, Step, TaskState<M>, D, Reply, TaskState<M>) -> bool,
    a: Driven<M, D>,
    b: Driven<M, D>,
) -> bool {
    exists|reply: Reply, sim: TaskState<M>| #[trigger]
        acts(a.driver, a.step, a.sim, b.driver, reply, sim) && a.run.expects(reply)
            && a.run.advance(sim, reply) == Some(
            Outcome { run: b.run, sim: b.sim, step: b.step },
        )
}

/// Whether `points` follows a driven run step by step.
pub open spec fn is_task_run<M, D>(
    acts: spec_fn(D, Step, TaskState<M>, D, Reply, TaskState<M>) -> bool,
    points: Seq<Driven<M, D>>,
) -> bool {
    &&& points.len() > 0
    &&& forall|i: int|
        0 <= i < points.len() - 1 ==> #[trigger] drives(acts, points[i], points[i + 1])
}

/// What a driver may do that has nothing to remember but its tasks.
/// `polls(s, id, ready, t)` says that polling task `id` with the simulation in state
/// `s` may leave it in state `t`, with the task done or not; `asks(time, go_on)`, that
/// the decision about an event that is due at `time` may be `go_on`.
pub open spec fn acting<M>(
    polls: spec_fn(TaskState<M>, TaskId, bool, TaskState<M>) -> bool,
    asks: spec_fn(Time, bool) -> bool,
) -> spec_fn((), Step, TaskState<M>, (), Reply, TaskState<M>) -> bool {
    |d: (), step: Step, s: TaskState<M>, e: (), reply: Reply, t: TaskState<M>|
        match (step, reply) {
            (Step::Poll(id), Reply::Polled { ready }) => polls(s, id, ready, t),
            (Step::Ask(time), Reply::Answer { go_on }) => asks(time, go_on) && t == s,
            _ => false,
        }
}

/// Whether a run of `sim` begins at `point`.
pub open spec fn begins<M, D>(sim: TaskState<M>, point: Driven<M, D>) -> bool {
    RunState::initial(sim).advance(sim, Reply::Begin) == Some(
        Outcome { run: point.run, sim: point.sim, step: point.step },
    )
}

/// Whether a run of `sim` may come to poll task `id` with the simulation in state
/// `given`.
pub open spec fn may_poll<M, D>(
    acts: spec_fn(D, Step, TaskState<M>, D, Reply, TaskState<M>) -> bool,
    sim: TaskState<M>,
    given: TaskState<M>,
    id: TaskId,
) -> bool {
    exists|points: Seq<Driven<M, D>>| #[trigger]
        is_task_run(acts, points) && begins(sim, points[0]) && points.last().step == Step::Poll(id)
            && points.last().sim == given
}

/// Whether a driver may lead from a point of a run to something that cannot be
/// represented.
pub open spec fn may_overflow<M, D>(
    acts: spec_fn(D, Step, TaskState<M>, D, Reply, TaskState<M>) -> bool,
    point: Driven<M, D>,
) -> bool {
    exists|driver: D, reply: Reply, sim: TaskState<M>| #[trigger]
        acts(point.driver, point.step, point.sim, driver, reply, sim) && point.run.expects(reply)
            && point.run.advance(sim, reply) is None
}

/// Whether a run of `sim` may end with the given figures in the state `end`.
pub open spec fn may_finish<M, D>(
    acts: spec_fn(D, Step, TaskState<M>, D, Reply, TaskState<M>) -> bool,
    sim: TaskState<M>,
    stats: TaskSimStats,
    end: TaskState<M>,
) -> bool {
    exists|points: Seq<Driven<M, D>>| #[trigger]
        is_task_run(acts, points) && begins(sim, points[0]) && points.last().step
            == Step::Finished(stats) && points.last().sim == end
}

/// Whether a run of `sim` may end with the given figures.
pub open spec fn may_return<M, D>(
    acts: spec_fn(D, Step, TaskState<M>, D, Reply, TaskState<M>) -> bool,
    sim: TaskState<M>,
    stats: TaskSimStats,
) -> bool {
    exists|end: TaskState<M>| #[trigger] may_finish(acts, sim, stats, end)
}

/// Whether a run of `sim` may end with the given figures and the given trace.
pub open spec fn may_tell<M, D>(
    acts: spec_fn(D, Step, TaskState<M>, D, Reply, TaskState<M>) -> bool,
    sim: TaskState<M>,
    stats: TaskSimStats,
    trace: TraceState<TaskTraceEvent>,
) -> bool {
    exists|end: TaskState<M>| #[trigger]
        may_finish(acts, sim, stats, end) && trace == end.traced(stats.final_time)
}

/// Whether a run of `sim` may come to something that cannot be represented.
pub open spec fn may_fail<M, D>(
    acts: spec_fn(D, Step, TaskState<M>, D, Reply, TaskState<M>) -> bool,
    sim: TaskState<M>,
) -> bool {
    RunState::initial(sim).advance(sim, Reply::Begin) is None || exists|
        points: Seq<Driven<M, D>>,
    | #[trigger]
        is_task_run(acts, points) && begins(sim, points[0]) && may_overflow(acts, points.last())
}

/// A run of a task-based simulation.
#[derive(Debug)]
pub struct TaskRun<M> {
    batch: Vec<TaskId>,
    position: usize,
    completed: Vec<bool>,
    awaited: Awaited<M>,
    stats: TaskSimStats,
}

impl<M> View for TaskRun<M> {
    type V = RunState<M>;

    closed spec fn view(&self) -> RunState<M> {
        RunState {
            batch: self.batch@,
            position: self.position as nat,
            completed: self.completed@,
            awaited: self.awaited,
            stats: self.stats,
        }
    }
}

impl<M> TaskRun<M> {
    /// Creates a run of `sim` that is to begin.
    pub fn new(sim: &TaskSim<M>) -> (r: TaskRun<M>)
        requires
            sim@.wf(),
        ensures
            r@ == RunState::initial(sim@),
            r@.wf(),
    {
        let n: usize = sim.node_count();
        let mut completed: Vec<bool> = Vec::new();
        for i in 0..n
            invariant
                completed.len() == i,
                forall|k: int| 0 <= k < i ==> !#[trigger] completed@[k],
        {
            completed.push(false);
        }
        let run = TaskRun {
            batch: Vec::new(),
            position: 0,
            completed,
            awaited: Awaited::Begin,
            stats: TaskSimStats::default(),
        };
        assert(run@ =~= RunState::initial(sim@));
        run
    }

    /// The first place from the current one on at which a task stands that exists
    /// and is not done.
    fn find_upcoming(&self) -> (r: Option<usize>)
        requires
            self@.position <= self@.batch.len(),
        ensures
            match r {
                Some(k) => upcoming(self@.batch, self@.completed, self@.position) == Some(k as nat)
                    && k < self@.batch.len() && self@.batch[k as int].0 < self@.completed.len(),
                None => upcoming(self@.batch, self@.completed, self@.position) is None,
            },
    {
        let mut k: usize = self.position;
        while k < self.batch.len()
            invariant
                k <= self.batch.len(),
                upcoming(self@.batch, self@.completed, self@.position) == upcoming(
                    self@.batch,
                    self@.completed,
                    k as nat,
                ),
            decreases self.batch.len() - k,
        {
            let id: TaskId = self.batch[k];
            if (id.0 as usize) < self.completed.len() && !self.completed[id.0 as usize] {
                return Some(k);
            }
            k = k + 1;
        }
        None
    }

    /// Ends the run.
    fn finish(&mut self, sim: &TaskSim<M>) -> (step: Step)
        requires
            old(self)@.position <= old(self)@.batch.len(),
        ensures
            old(self)@.finish(sim@) == Some(Outcome { run: final(self)@, sim: sim@, step }),
            final(self)@.wf(),
    {
        self.stats.final_time = sim.now();
        self.stats.messages_dropped = sim.messages_dropped();
        self.awaited = Awaited::Nothing;
        Step::Finished(self.stats)
    }

    /// Finds out what comes next.
    fn proceed(&mut self, sim: &mut TaskSim<M>) -> (step: Step)
        requires
            old(sim)@.wf(),
            old(self)@.position <= old(self)@.batch.len(),
        ensures
            step is Overflow <==> old(self)@.proceed(old(sim)@) is None,
            !(step is Overflow) ==> old(self)@.proceed(old(sim)@) == Some(
                Outcome { run: final(self)@, sim: final(sim)@, step },
            ),
            !(step is Overflow) ==> final(self)@.wf() && final(sim)@.wf(),
        decreases old(sim)@.ready.len(),
    {
        match self.find_upcoming() {
            Some(k) => {
                if self.stats.task_polls == u64::MAX {
                    return Step::Overflow;
                }
                self.stats.task_polls = self.stats.task_polls + 1;
                assert(k < self.batch.len());
                let id: TaskId = self.batch[k];
                self.position = k + 1;
                self.awaited = Awaited::Poll(id);
                assert(self@ =~= old(self)@.proceed(old(sim)@)->0.run);
                Step::Poll(id)
            },
            None => {
                match sim.pop_event() {
                    Some(next) => {
                        self.position = self.batch.len();
                        let time = next.time;
                        self.awaited = Awaited::Answer(next);
                        assert(self@ =~= old(self)@.proceed(old(sim)@)->0.run);
                        Step::Ask(time)
                    },
                    None => {
                        if sim.has_ready() {
                            self.batch = sim.take_ready();
                            self.position = 0;
                            assert(self@ =~= old(self)@.reloaded(old(sim)@));
                            self.proceed(sim)
                        } else {
                            self.position = self.batch.len();
                            assert(self@ =~= RunState {
                                position: old(self)@.batch.len(),
                                ..old(self)@
                            });
                            self.finish(sim)
                        }
                    },
                }
            },
        }
    }

    /// Makes the tasks that are ready the next to poll, and finds out what comes
    /// next.
    fn proceed_anew(&mut self, sim: &mut TaskSim<M>) -> (step: Step)
        requires
            old(sim)@.wf(),
        ensures
            step is Overflow <==> old(self)@.proceed_anew(old(sim)@) is None,
            !(step is Overflow) ==> old(self)@.proceed_anew(old(sim)@) == Some(
                Outcome { run: final(self)@, sim: final(sim)@, step },
            ),
            !(step is Overflow) ==> final(self)@.wf() && final(sim)@.wf(),
    {
        self.batch = sim.take_ready();
        self.position = 0;
        assert(self@ =~= old(self)@.reloaded(old(sim)@));
        self.proceed(sim)
    }

    /// Takes one step: from what the driver reports to what the driver does next.
    /// After `Step::Overflow` nothing is said of the run and the simulation any
    /// more.
    pub fn step(&mut self, sim: &mut TaskSim<M>, reply: Reply) -> (step: Step)
        requires
            old(sim)@.wf(),
            old(self)@.wf(),
            old(self)@.expects(reply),
        ensures
            step is Overflow <==> old(self)@.advance(old(sim)@, reply) is None,
            !(step is Overflow) ==> old(self)@.advance(old(sim)@, reply) == Some(
                Outcome { run: final(self)@, sim: final(sim)@, step },
            ),
            !(step is Overflow) ==> final(self)@.wf() && final(sim)@.wf(),
    {
        let mut awaited: Awaited<M> = Awaited::Nothing;
        core::mem::swap(&mut awaited, &mut self.awaited);
        match awaited {
            Awaited::Poll(id) => {
                self.awaited = Awaited::Poll(id);
                if let Reply::Polled { ready } = reply {
                    if ready {
                        if self.stats.tasks_completed == u64::MAX {
                            return Step::Overflow;
                        }
                        self.stats.tasks_completed = self.stats.tasks_completed + 1;
                        self.completed.set(id.0 as usize, true);
                    }
                }
                self.proceed(sim)
            },
            Awaited::Answer(next) => {
                let mut go_on: bool = false;
                if let Reply::Answer { go_on: yes } = reply {
                    go_on = yes;
                }
                if !go_on {
                    return self.finish(sim);
                }
                if self.stats.events_processed == u64::MAX {
                    return Step::Overflow;
                }
                self.stats.events_processed = self.stats.events_processed + 1;
                sim.set_now(next.time);
                match next.event {
                    TaskEvent::Wake(id) => {
                        sim.make_ready(id);
                    },
                    TaskEvent::ApplyFailure(action) => {
                        if !sim.try_apply_failure(action) {
                            return Step::Overflow;
                        }
                    },
                    TaskEvent::Deliver { src, dst, payload, sent_at } => {
                        if sim.deliver(src, dst, payload, sent_at) {
                            if self.stats.messages_delivered == u64::MAX {
                                return Step::Overflow;
                            }
                            self.stats.messages_delivered = self.stats.messages_delivered + 1;
                        }
                    },
                }
                self.proceed_anew(sim)
            },
            _ => self.proceed_anew(sim),
        }
    }
}

/// A step keeps the number of tasks; the first one after a decision counts an event,
/// and one that asks for a poll counts a poll.
pub(crate) proof fn lemma_step_counts<M>(run: RunState<M>, sim: TaskState<M>, reply: Reply)
    requires
        run.expects(reply),
        run.advance(sim, reply) is Some,
    ensures
        ({
            let o = run.advance(sim, reply)->0;
            let events: int = if reply == (Reply::Answer { go_on: true }) {
                1
            } else {
                0
            };
            let polls: int = if o.step is Poll {
                1
            } else {
                0
            };
            &&& run.wf() ==> o.run.completed.len() == run.completed.len()
            &&& o.run.stats.events_processed == run.stats.events_processed + events
            &&& o.run.stats.task_polls == run.stats.task_polls + polls
            &&& match o.step {
                Step::Poll(id) => o.run.awaited == Awaited::<M>::Poll(id),
                Step::Ask(_) => o.run.awaited is Answer,
                Step::Finished(_) => o.run.awaited is Nothing,
                Step::Overflow => false,
            }
        }),
{
    match (run.awaited, reply) {
        (Awaited::Poll(id), Reply::Polled { ready }) => {
            let marked = if ready {
                RunState {
                    completed: run.completed.update(id.0 as int, true),
                    stats: TaskSimStats {
                        tasks_completed: (run.stats.tasks_completed + 1) as u64,
                        ..run.stats
                    },
                    ..run
                }
            } else {
                run
            };
            lemma_proceed_counts(marked, sim);
        },
        (Awaited::Answer(next), Reply::Answer { go_on }) => {
            if go_on {
                let after = (TaskState { now: next.time, ..sim }).processing(next.event)->0;
                let counted = run.processed(sim, next.event)->0;
                lemma_proceed_counts(
                    counted.reloaded(after),
                    TaskState { ready: Seq::empty(), ..after },
                );
            }
        },
        _ => {
            lemma_proceed_counts(run.reloaded(sim), TaskState { ready: Seq::empty(), ..sim });
        },
    }
}

proof fn lemma_proceed_counts<M>(run: RunState<M>, sim: TaskState<M>)
    ensures
        run.proceed(sim) matches Some(o) ==> {
            let polls: int = if o.step is Poll {
                1
            } else {
                0
            };
            &&& o.run.completed.len() == run.completed.len()
            &&& o.run.stats.events_processed == run.stats.events_processed
            &&& o.run.stats.task_polls == run.stats.task_polls + polls
            &&& match o.step {
                Step::Poll(id) => o.run.awaited == Awaited::<M>::Poll(id),
                Step::Ask(_) => o.run.awaited is Answer,
                Step::Finished(_) => o.run.awaited is Nothing,
                Step::Overflow => false,
            }
        },
    decreases sim.ready.len(),
{
    if upcoming(run.batch, run.completed, run.position) is None && sim.queue.pending.len() == 0
        && sim.ready.len() > 0 {
        lemma_proceed_counts(run.reloaded(sim), TaskState { ready: Seq::empty(), ..sim });
    }
}

/// A run stays a run when the driver has led to the next point.
proof fn lemma_task_run_extends<M, D>(
    acts: spec_fn(D, Step, TaskState<M>, D, Reply, TaskState<M>) -> bool,
    points: Seq<Driven<M, D>>,
    reply: Reply,
    sim: TaskState<M>,
    next: Driven<M, D>,
)
    requires
        is_task_run(acts, points),
        acts(points.last().driver, points.last().step, points.last().sim, next.driver, reply, sim),
        points.last().run.expects(reply),
        points.last().run.advance(sim, reply) == Some(
            Outcome { run: next.run, sim: next.sim, step: next.step },
        ),
    ensures
        is_task_run(acts, points.push(next)),
{
    assert(drives(acts, points.last(), next));
    let longer = points.push(next);
    assert forall|i: int| 0 <= i < longer.len() - 1 implies #[trigger] drives(
        acts,
        longer[i],
        longer[i + 1],
    ) by {
        if i < points.len() - 1 {
            assert(drives(acts, points[i], points[i + 1]));
        }
    }
}

impl<M> TaskSim<M> {
    /// Runs until no event and no task is left, or until `continue_fn` says no to the
    /// time of the next event. `poll` polls a task and says whether it is done. Returns
    /// `None` if on the way something comes up that cannot be represented; nothing is
    /// said of the simulation then.
    pub fn try_run_until<P, C>(&mut self, poll: P, continue_fn: C) -> (r: Option<
        TaskSimStats,
    >) where P: FnMut(&mut TaskSim<M>, TaskId) -> bool, C: FnMut(Time) -> bool
        requires
            old(self)@.wf(),
            forall|s: &mut TaskSim<M>, id: TaskId|
                s@.wf() && id.0 < old(self)@.graph.links.len() && may_poll(
                    acting(
                        |s0: TaskState<M>, id: TaskId, ready: bool, s1: TaskState<M>|
                            exists|s: &mut TaskSim<M>|
                                s@ == s0 && final(s)@ == s1 && #[trigger] call_ensures(
                                    poll,
                                    (s, id),
                                    ready,
                                ),
                        |t: Time, go_on: bool| call_ensures(continue_fn, (t,), go_on),
                    ),
                    old(self)@,
                    s@,
                    id,
                ) ==> #[trigger] call_requires(poll, (s, id)),
            forall|s: &mut TaskSim<M>, id: TaskId, ready: bool|
                s@.wf() && id.0 < old(self)@.graph.links.len() && may_poll(
                    acting(
                        |s0: TaskState<M>, id: TaskId, ready: bool, s1: TaskState<M>|
                            exists|s: &mut TaskSim<M>|
                                s@ == s0 && final(s)@ == s1 && #[trigger] call_ensures(
                                    poll,
                                    (s, id),
                                    ready,
                                ),
                        |t: Time, go_on: bool| call_ensures(continue_fn, (t,), go_on),
                    ),
                    old(self)@,
                    s@,
                    id,
                ) && #[trigger] call_ensures(poll, (s, id), ready) ==> final(s)@.wf(),
            forall|t: Time| call_requires(continue_fn, (t,)),
        ensures
            match r {
                Some(stats) => may_finish(
                    acting(
                        |s0: TaskState<M>, id: TaskId, ready: bool, s1: TaskState<M>|
                            exists|s: &mut TaskSim<M>|
                                s@ == s0 && final(s)@ == s1 && #[trigger] call_ensures(
                                    poll,
                                    (s, id),
                                    ready,
                                ),
                        |t: Time, go_on: bool| call_ensures(continue_fn, (t,), go_on),
                    ),
                    old(self)@,
                    stats,
                    final(self)@,
                ),
                None => may_fail(
                    acting(
                        |s0: TaskState<M>, id: TaskId, ready: bool, s1: TaskState<M>|
                            exists|s: &mut TaskSim<M>|
                                s@ == s0 && final(s)@ == s1 && #[trigger] call_ensures(
                                    poll,
                                    (s, id),
                                    ready,
                                ),
                        |t: Time, go_on: bool| call_ensures(continue_fn, (t,), go_on),
                    ),
                    old(self)@,
                ),
            },
            r is Some ==> final(self)@.wf(),
    {
        let ghost given_poll = poll;
        let ghost given_continue = continue_fn;
        let mut poll = poll;
        let mut continue_fn = continue_fn;
        let ghost polls = |s0: TaskState<M>, id: TaskId, ready: bool, s1: TaskState<M>|
            exists|s: &mut TaskSim<M>|
                s@ == s0 && final(s)@ == s1 && #[trigger] call_ensures(poll, (s, id), ready);
        let ghost asks = |t: Time, go_on: bool| call_ensures(continue_fn, (t,), go_on);
        let ghost acts = acting(polls, asks);
        let ghost n = self@.graph.links.len();
        let mut run = TaskRun::new(self);
        let mut step: Step = run.step(self, Reply::Begin);
        proof {
            if !(step is Overflow) {
                lemma_step_counts(RunState::initial(old(self)@), old(self)@, Reply::Begin);
            }
        }
        let ghost mut points: Seq<Driven<M, ()>> = seq![
            Driven { run: run@, sim: self@, driver: (), step },
        ];
        let mut stats: Option<TaskSimStats> = None;
        let mut running: bool = true;
        while running
            invariant
                poll == given_poll,
                continue_fn == given_continue,
                n == old(self)@.graph.links.len(),
                forall|s: &mut TaskSim<M>, id: TaskId|
                    s@.wf() && id.0 < n && may_poll(acts, old(self)@, s@, id) ==> #[trigger] call_requires(
                        poll,
                        (s, id),
                    ),
                forall|s: &mut TaskSim<M>, id: TaskId, ready: bool|
                    s@.wf() && id.0 < n && may_poll(acts, old(self)@, s@, id) && #[trigger] call_ensures(
                        poll,
                        (s, id),
                        ready,
                    ) ==> final(s)@.wf(),
                forall|t: Time| call_requires(continue_fn, (t,)),
                polls == (|s0: TaskState<M>, id: TaskId, ready: bool, s1: TaskState<M>|
                    exists|s: &mut TaskSim<M>|
                        s@ == s0 && final(s)@ == s1 && #[trigger] call_ensures(
                            poll,
                            (s, id),
                            ready,
                        )),
                asks == (|t: Time, go_on: bool| call_ensures(continue_fn, (t,), go_on)),
                acts == acting(polls, asks),
                running ==> stats is None,
                running && step is Overflow ==> may_fail(acts, old(self)@),
                running && !(step is Overflow) ==> {
                    &&& self@.wf()
                    &&& run@.wf()
                    &&& run@.completed.len() == n
                    &&& is_task_run(acts, points)
                    &&& begins(old(self)@, points[0])
                    &&& points.last() == (Driven { run: run@, sim: self@, driver: (), step })
                    &&& match step {
                        Step::Poll(id) => run@.awaited == Awaited::<M>::Poll(id),
                        Step::Ask(_) => run@.awaited is Answer,
                        Step::Finished(_) => run@.awaited is Nothing,
                        Step::Overflow => false,
                    }
                },
                !running ==> match stats {
                    Some(stats) => may_finish(acts, old(self)@, stats, self@) && self@.wf(),
                    None => may_fail(acts, old(self)@),
                },
            decreases
                    (if running {
                        1int
                    } else {
                        0int
                    }),
                    (if step is Overflow || step is Finished {
                        0int
                    } else {
                        1int
                    }),
                    2 * ((u64::MAX - run@.stats.task_polls) + (u64::MAX
                        - run@.stats.events_processed)) + (if step is Poll {
                        1int
                    } else {
                        0int
                    }),
        {
            let ghost before = run@;
            let ghost told = step;
            let ghost from = self@;
            match step {
                Step::Poll(id) => {
                    assert(may_poll(acts, old(self)@, self@, id));
                    let ready: bool = poll(self, id);
                    let ghost left = self@;
                    let reply = Reply::Polled { ready };
                    assert(polls(from, id, ready, left));
                    assert(acts((), told, from, (), reply, left));
                    step = run.step(self, reply);
                    proof {
                        lemma_after_step(acts, points, old(self)@, reply, left, before);
                        if !(step is Overflow) {
                            lemma_step_counts(before, left, reply);
                            let next = Driven { run: run@, sim: self@, driver: (), step };
                            lemma_task_run_extends(acts, points, reply, left, next);
                            points = points.push(next);
                        }
                    }
                },
                Step::Ask(time) => {
                    let go_on: bool = continue_fn(time);
                    let reply = Reply::Answer { go_on };
                    assert(asks(time, go_on));
                    assert(acts((), told, from, (), reply, from));
                    step = run.step(self, reply);
                    proof {
                        lemma_after_step(acts, points, old(self)@, reply, from, before);
                        if !(step is Overflow) {
                            lemma_step_counts(before, from, reply);
                            let next = Driven { run: run@, sim: self@, driver: (), step };
                            lemma_task_run_extends(acts, points, reply, from, next);
                            points = points.push(next);
                        }
                    }
                },
                Step::Finished(figures) => {
                    stats = Some(figures);
                    running = false;
                },
                Step::Overflow => {
                    running = false;
                },
            }
        }
        stats
    }

    /// Runs until no event and no task is left, or until `continue_fn` says no to the
    /// time of the next event, and records a trace. Returns `None` if on the way
    /// something comes up that cannot be represented.
    pub fn try_run_until_traced<P, C>(self, poll: P, continue_fn: C) -> (r: Option<
        (TaskSimStats, Trace<TaskTraceEvent>),
    >) where P: FnMut(&mut TaskSim<M>, TaskId) -> bool, C: FnMut(Time) -> bool
        requires
            self@.wf(),
            forall|s: &mut TaskSim<M>, id: TaskId|
                s@.wf() && id.0 < self@.graph.links.len() && may_poll(
                    acting(
                        |s0: TaskState<M>, id: TaskId, ready: bool, s1: TaskState<M>|
                            exists|s: &mut TaskSim<M>|
                                s@ == s0 && final(s)@ == s1 && #[trigger] call_ensures(
                                    poll,
                                    (s, id),
                                    ready,
                                ),
                        |t: Time, go_on: bool| call_ensures(continue_fn, (t,), go_on),
                    ),
                    self@.tracing(),
                    s@,
                    id,
                ) ==> #[trigger] call_requires(poll, (s, id)),
            forall|s: &mut TaskSim<M>, id: TaskId, ready: bool|
                s@.wf() && id.0 < self@.graph.links.len() && may_poll(
                    acting(
                        |s0: TaskState<M>, id: TaskId, ready: bool, s1: TaskState<M>|
                            exists|s: &mut TaskSim<M>|
                                s@ == s0 && final(s)@ == s1 && #[trigger] call_ensures(
                                    poll,
                                    (s, id),
                                    ready,
                                ),
                        |t: Time, go_on: bool| call_ensures(continue_fn, (t,), go_on),
                    ),
                    self@.tracing(),
                    s@,
                    id,
                ) && #[trigger] call_ensures(poll, (s, id), ready) ==> final(s)@.wf(),
            forall|t: Time| call_requires(continue_fn, (t,)),
        ensures
            match r {
                Some((stats, trace)) => may_tell(
                    acting(
                        |s0: TaskState<M>, id: TaskId, ready: bool, s1: TaskState<M>|
                            exists|s: &mut TaskSim<M>|
                                s@ == s0 && final(s)@ == s1 && #[trigger] call_ensures(
                                    poll,
                                    (s, id),
                                    ready,
                                ),
                        |t: Time, go_on: bool| call_ensures(continue_fn, (t,), go_on),
                    ),
                    self@.tracing(),
                    stats,
                    trace@,
                ),
                None => may_fail(
                    acting(
                        |s0: TaskState<M>, id: TaskId, ready: bool, s1: TaskState<M>|
                            exists|s: &mut TaskSim<M>|
                                s@ == s0 && final(s)@ == s1 && #[trigger] call_ensures(
                                    poll,
                                    (s, id),
                                    ready,
                                ),
                        |t: Time, go_on: bool| call_ensures(continue_fn, (t,), go_on),
                    ),
                    self@.tracing(),
                ),
            },
    {
        let mut sim = self;
        sim.start_trace();
        match sim.try_run_until(poll, continue_fn) {
            Some(stats) => {
                let ghost end = sim@;
                let trace = sim.finish_trace(stats.final_time);
                assert(trace@ == end.traced(stats.final_time));
                Some((stats, trace))
            },
            None => None,
        }
    }

    /// Runs until no event and no task is left, or until `continue_fn` says no to the
    /// time of the next event.
    pub fn run_until<P, C>(self, poll: P, continue_fn: C) -> (stats: TaskSimStats) where
        P: FnMut(&mut TaskSim<M>, TaskId) -> bool,
        C: FnMut(Time) -> bool,

        requires
            self@.wf(),
            forall|s: &mut TaskSim<M>, id: TaskId|
                s@.wf() && id.0 < self@.graph.links.len() && may_poll(
                    acting(
                        |s0: TaskState<M>, id: TaskId, ready: bool, s1: TaskState<M>|
                            exists|s: &mut TaskSim<M>|
                                s@ == s0 && final(s)@ == s1 && #[trigger] call_ensures(
                                    poll,
                                    (s, id),
                                    ready,
                                ),
                        |t: Time, go_on: bool| call_ensures(continue_fn, (t,), go_on),
                    ),
                    self@,
                    s@,
                    id,
                ) ==> #[trigger] call_requires(poll, (s, id)),
            forall|s: &mut TaskSim<M>, id: TaskId, ready: bool|
                s@.wf() && id.0 < self@.graph.links.len() && may_poll(
                    acting(
                        |s0: TaskState<M>, id: TaskId, ready: bool, s1: TaskState<M>|
                            exists|s: &mut TaskSim<M>|
                                s@ == s0 && final(s)@ == s1 && #[trigger] call_ensures(
                                    poll,
                                    (s, id),
                                    ready,
                                ),
                        |t: Time, go_on: bool| call_ensures(continue_fn, (t,), go_on),
                    ),
                    self@,
                    s@,
                    id,
                ) && #[trigger] call_ensures(poll, (s, id), ready) ==> final(s)@.wf(),
            forall|t: Time| call_requires(continue_fn, (t,)),
            !may_fail(
                acting(
                    |s0: TaskState<M>, id: TaskId, ready: bool, s1: TaskState<M>|
                        exists|s: &mut TaskSim<M>|
                            s@ == s0 && final(s)@ == s1 && #[trigger] call_ensures(
                                poll,
                                (s, id),
                                ready,
                            ),
                    |t: Time, go_on: bool| call_ensures(continue_fn, (t,), go_on),
                ),
                self@,
            ),
        ensures
            may_return(
                acting(
                    |s0: TaskState<M>, id: TaskId, ready: bool, s1: TaskState<M>|
                        exists|s: &mut TaskSim<M>|
                            s@ == s0 && final(s)@ == s1 && #[trigger] call_ensures(
                                poll,
                                (s, id),
                                ready,
                            ),
                    |t: Time, go_on: bool| call_ensures(continue_fn, (t,), go_on),
                ),
                self@,
                stats,
            ),
    {
        let mut sim = self;
        match sim.try_run_until(poll, continue_fn) {
            Some(stats) => stats,
            None => TaskSimStats::default(),
        }
    }

    /// Runs until no event and no task is left.
    pub fn run<P>(self, poll: P) -> (stats: TaskSimStats) where
        P: FnMut(&mut TaskSim<M>, TaskId) -> bool,

        requires
            self@.wf(),
            forall|s: &mut TaskSim<M>, id: TaskId|
                s@.wf() && id.0 < self@.graph.links.len() && may_poll(
                    acting(
                        |s0: TaskState<M>, id: TaskId, ready: bool, s1: TaskState<M>|
                            exists|s: &mut TaskSim<M>|
                                s@ == s0 && final(s)@ == s1 && #[trigger] call_ensures(
                                    poll,
                                    (s, id),
                                    ready,
                                ),
                        |t: Time, go_on: bool| go_on,
                    ),
                    self@,
                    s@,
                    id,
                ) ==> #[trigger] call_requires(poll, (s, id)),
            forall|s: &mut TaskSim<M>, id: TaskId, ready: bool|
                s@.wf() && id.0 < self@.graph.links.len() && may_poll(
                    acting(
                        |s0: TaskState<M>, id: TaskId, ready: bool, s1: TaskState<M>|
                            exists|s: &mut TaskSim<M>|
                                s@ == s0 && final(s)@ == s1 && #[trigger] call_ensures(
                                    poll,
                                    (s, id),
                                    ready,
                                ),
                        |t: Time, go_on: bool| go_on,
                    ),
                    self@,
                    s@,
                    id,
                ) && #[trigger] call_ensures(poll, (s, id), ready) ==> final(s)@.wf(),
            !may_fail(
                acting(
                    |s0: TaskState<M>, id: TaskId, ready: bool, s1: TaskState<M>|
                        exists|s: &mut TaskSim<M>|
                            s@ == s0 && final(s)@ == s1 && #[trigger] call_ensures(
                                poll,
                                (s, id),
                                ready,
                            ),
                    |t: Time, go_on: bool| go_on,
                ),
                self@,
            ),
        ensures
            may_return(
                acting(
                    |s0: TaskState<M>, id: TaskId, ready: bool, s1: TaskState<M>|
                        exists|s: &mut TaskSim<M>|
                            s@ == s0 && final(s)@ == s1 && #[trigger] call_ensures(
                                poll,
                                (s, id),
                                ready,
                            ),
                    |t: Time, go_on: bool| go_on,
                ),
                self@,
                stats,
            ),
    {
        let mut sim = self;
        let go_on = |t: Time| -> (yes: bool)
            ensures
                yes,
            { true };
        let ghost polls = |s0: TaskState<M>, id: TaskId, ready: bool, s1: TaskState<M>|
            exists|s: &mut TaskSim<M>|
                s@ == s0 && final(s)@ == s1 && #[trigger] call_ensures(poll, (s, id), ready);
        let ghost asks = |t: Time, yes: bool| call_ensures(go_on, (t,), yes);
        let ghost goes = |t: Time, yes: bool| yes;
        proof {
            assert forall|s: &mut TaskSim<M>, id: TaskId|
                s@.wf() && id.0 < self@.graph.links.len() && may_poll(acting(polls, asks), self@, s@, id) implies #[trigger] call_requires(
                poll,
                (s, id),
            ) by {
                lemma_polling_grows(acting(polls, asks), acting(polls, goes), self@, s@, id);
            }
            assert forall|s: &mut TaskSim<M>, id: TaskId, ready: bool|
                s@.wf() && id.0 < self@.graph.links.len() && may_poll(acting(polls, asks), self@, s@, id) && #[trigger] call_ensures(
                    poll,
                    (s, id),
                    ready,
                ) implies final(s)@.wf() by {
                lemma_polling_grows(acting(polls, asks), acting(polls, goes), self@, s@, id);
            }
        }
        match sim.try_run_until(poll, go_on) {
            Some(stats) => {
                proof {
                    lemma_finishing_grows(
                        acting(polls, asks),
                        acting(polls, goes),
                        self@,
                        stats,
                        sim@,
                    );
                }
                stats
            },
            None => {
                proof {
                    lemma_failing_grows(acting(polls, asks), acting(polls, goes), self@);
                }
                TaskSimStats::default()
            },
        }
    }

    /// Runs until no event and no task is left, or until `continue_fn` says no to the
    /// time of the next event, and records a trace.
    pub fn run_until_traced<P, C>(self, poll: P, continue_fn: C) -> (r: (
        TaskSimStats,
        Trace<TaskTraceEvent>,
    )) where P: FnMut(&mut TaskSim<M>, TaskId) -> bool, C: FnMut(Time) -> bool
        requires
            self@.wf(),
            forall|s: &mut TaskSim<M>, id: TaskId|
                s@.wf() && id.0 < self@.graph.links.len() && may_poll(
                    acting(
                        |s0: TaskState<M>, id: TaskId, ready: bool, s1: TaskState<M>|
                            exists|s: &mut TaskSim<M>|
                                s@ == s0 && final(s)@ == s1 && #[trigger] call_ensures(
                                    poll,
                                    (s, id),
                                    ready,
                                ),
                        |t: Time, go_on: bool| call_ensures(continue_fn, (t,), go_on),
                    ),
                    self@.tracing(),
                    s@,
                    id,
                ) ==> #[trigger] call_requires(poll, (s, id)),
            forall|s: &mut TaskSim<M>, id: TaskId, ready: bool|
                s@.wf() && id.0 < self@.graph.links.len() && may_poll(
                    acting(
                        |s0: TaskState<M>, id: TaskId, ready: bool, s1: TaskState<M>|
                            exists|s: &mut TaskSim<M>|
                                s@ == s0 && final(s)@ == s1 && #[trigger] call_ensures(
                                    poll,
                                    (s, id),
                                    ready,
                                ),
                        |t: Time, go_on: bool| call_ensures(continue_fn, (t,), go_on),
                    ),
                    self@.tracing(),
                    s@,
                    id,
                ) && #[trigger] call_ensures(poll, (s, id), ready) ==> final(s)@.wf(),
            forall|t: Time| call_requires(continue_fn, (t,)),
            !may_fail(
                acting(
                    |s0: TaskState<M>, id: TaskId, ready: bool, s1: TaskState<M>|
                        exists|s: &mut TaskSim<M>|
                            s@ == s0 && final(s)@ == s1 && #[trigger] call_ensures(
                                poll,
                                (s, id),
                                ready,
                            ),
                    |t: Time, go_on: bool| call_ensures(continue_fn, (t,), go_on),
                ),
                self@.tracing(),
            ),
        ensures
            may_tell(
                acting(
                    |s0: TaskState<M>, id: TaskId, ready: bool, s1: TaskState<M>|
                        exists|s: &mut TaskSim<M>|
                            s@ == s0 && final(s)@ == s1 && #[trigger] call_ensures(
                                poll,
                                (s, id),
                                ready,
                            ),
                    |t: Time, go_on: bool| call_ensures(continue_fn, (t,), go_on),
                ),
                self@.tracing(),
                r.0,
                r.1@,
            ),
    {
        match self.try_run_until_traced(poll, continue_fn) {
            Some(r) => r,
            None => (TaskSimStats::default(), Trace::new(0)),
        }
    }

    /// Runs until no event and no task is left, and records a trace.
    pub fn run_traced<P>(self, poll: P) -> (r: (TaskSimStats, Trace<TaskTraceEvent>)) where
        P: FnMut(&mut TaskSim<M>, TaskId) -> bool,

        requires
            self@.wf(),
            forall|s: &mut TaskSim<M>, id: TaskId|
                s@.wf() && id.0 < self@.graph.links.len() && may_poll(
                    acting(
                        |s0: TaskState<M>, id: TaskId, ready: bool, s1: TaskState<M>|
                            exists|s: &mut TaskSim<M>|
                                s@ == s0 && final(s)@ == s1 && #[trigger] call_ensures(
                                    poll,
                                    (s, id),
                                    ready,
                                ),
                        |t: Time, go_on: bool| go_on,
                    ),
                    self@.tracing(),
                    s@,
                    id,
                ) ==> #[trigger] call_requires(poll, (s, id)),
            forall|s: &mut TaskSim<M>, id: TaskId, ready: bool|
                s@.wf() && id.0 < self@.graph.links.len() && may_poll(
                    acting(
                        |s0: TaskState<M>, id: TaskId, ready: bool, s1: TaskState<M>|
                            exists|s: &mut TaskSim<M>|
                                s@ == s0 && final(s)@ == s1 && #[trigger] call_ensures(
                                    poll,
                                    (s, id),
                                    ready,
                                ),
                        |t: Time, go_on: bool| go_on,
                    ),
                    self@.tracing(),
                    s@,
                    id,
                ) && #[trigger] call_ensures(poll, (s, id), ready) ==> final(s)@.wf(),
            !may_fail(
                acting(
                    |s0: TaskState<M>, id: TaskId, ready: bool, s1: TaskState<M>|
                        exists|s: &mut TaskSim<M>|
                            s@ == s0 && final(s)@ == s1 && #[trigger] call_ensures(
                                poll,
                                (s, id),
                                ready,
                            ),
                    |t: Time, go_on: bool| go_on,
                ),
                self@.tracing(),
            ),
        ensures
            may_tell(
                acting(
                    |s0: TaskState<M>, id: TaskId, ready: bool, s1: TaskState<M>|
                        exists|s: &mut TaskSim<M>|
                            s@ == s0 && final(s)@ == s1 && #[trigger] call_ensures(
                                poll,
                                (s, id),
                                ready,
                            ),
                    |t: Time, go_on: bool| go_on,
                ),
                self@.tracing(),
                r.0,
                r.1@,
            ),
    {
        let mut sim = self;
        sim.start_trace();
        let go_on = |t: Time| -> (yes: bool)
            ensures
                yes,
            { true };
        let ghost polls = |s0: TaskState<M>, id: TaskId, ready: bool, s1: TaskState<M>|
            exists|s: &mut TaskSim<M>|
                s@ == s0 && final(s)@ == s1 && #[trigger] call_ensures(poll, (s, id), ready);
        let ghost asks = |t: Time, yes: bool| call_ensures(go_on, (t,), yes);
        let ghost goes = |t: Time, yes: bool| yes;
        proof {
            assert forall|s: &mut TaskSim<M>, id: TaskId|
                s@.wf() && id.0 < self@.graph.links.len() && may_poll(acting(polls, asks), self@.tracing(), s@, id) implies #[trigger] call_requires(
                poll,
                (s, id),
            ) by {
                lemma_polling_grows(acting(polls, asks), acting(polls, goes), self@.tracing(), s@, id);
            }
            assert forall|s: &mut TaskSim<M>, id: TaskId, ready: bool|
                s@.wf() && id.0 < self@.graph.links.len() && may_poll(acting(polls, asks), self@.tracing(), s@, id) && #[trigger] call_ensures(
                    poll,
                    (s, id),
                    ready,
                ) implies final(s)@.wf() by {
                lemma_polling_grows(acting(polls, asks), acting(polls, goes), self@.tracing(), s@, id);
            }
        }
        match sim.try_run_until(poll, go_on) {
            Some(stats) => {
                let ghost end = sim@;
                proof {
                    lemma_finishing_grows(
                        acting(polls, asks),
                        acting(polls, goes),
                        self@.tracing(),
                        stats,
                        end,
                    );
                }
                let trace = sim.finish_trace(stats.final_time);
                assert(trace@ == end.traced(stats.final_time));
                (stats, trace)
            },
            None => {
                proof {
                    lemma_failing_grows(acting(polls, asks), acting(polls, goes), self@.tracing());
                }
                (TaskSimStats::default(), Trace::new(0))
            },
        }
    }
}

/// Whether whatever one driver may do the other may do, too.
pub open spec fn no_freer_than<M, D>(
    a: spec_fn(D, Step, TaskState<M>, D, Reply, TaskState<M>) -> bool,
    b: spec_fn(D, Step, TaskState<M>, D, Reply, TaskState<M>) -> bool,
) -> bool {
    forall|d: D, step: Step, s: TaskState<M>, e: D, reply: Reply, t: TaskState<M>|
        #![trigger a(d, step, s, e, reply, t)]
        #![trigger b(d, step, s, e, reply, t)]
        a(d, step, s, e, reply, t) ==> b(d, step, s, e, reply, t)
}

proof fn lemma_running_grows<M, D>(
    a: spec_fn(D, Step, TaskState<M>, D, Reply, TaskState<M>) -> bool,
    b: spec_fn(D, Step, TaskState<M>, D, Reply, TaskState<M>) -> bool,
    points: Seq<Driven<M, D>>,
)
    requires
        no_freer_than(a, b),
        is_task_run(a, points),
    ensures
        is_task_run(b, points),
{
    assert forall|i: int| 0 <= i < points.len() - 1 implies #[trigger] drives(
        b,
        points[i],
        points[i + 1],
    ) by {
        assert(drives(a, points[i], points[i + 1]));
    }
}

pub(crate) proof fn lemma_finishing_grows<M, D>(
    a: spec_fn(D, Step, TaskState<M>, D, Reply, TaskState<M>) -> bool,
    b: spec_fn(D, Step, TaskState<M>, D, Reply, TaskState<M>) -> bool,
    sim: TaskState<M>,
    stats: TaskSimStats,
    end: TaskState<M>,
)
    requires
        no_freer_than(a, b),
        may_finish(a, sim, stats, end),
    ensures
        may_finish(b, sim, stats, end),
{
    let points = choose|points: Seq<Driven<M, D>>| #[trigger]
        is_task_run(a, points) && begins(sim, points[0]) && points.last().step == Step::Finished(
            stats,
        ) && points.last().sim == end;
    lemma_running_grows(a, b, points);
}

pub(crate) proof fn lemma_polling_grows<M, D>(
    a: spec_fn(D, Step, TaskState<M>, D, Reply, TaskState<M>) -> bool,
    b: spec_fn(D, Step, TaskState<M>, D, Reply, TaskState<M>) -> bool,
    sim: TaskState<M>,
    given: TaskState<M>,
    id: TaskId,
)
    requires
        no_freer_than(a, b),
        may_poll(a, sim, given, id),
    ensures
        may_poll(b, sim, given, id),
{
    let points = choose|points: Seq<Driven<M, D>>| #[trigger]
        is_task_run(a, points) && begins(sim, points[0]) && points.last().step == Step::Poll(id)
            && points.last().sim == given;
    lemma_running_grows(a, b, points);
}

pub(crate) proof fn lemma_failing_grows<M, D>(
    a: spec_fn(D, Step, TaskState<M>, D, Reply, TaskState<M>) -> bool,
    b: spec_fn(D, Step, TaskState<M>, D, Reply, TaskState<M>) -> bool,
    sim: TaskState<M>,
)
    requires
        no_freer_than(a, b),
        may_fail(a, sim),
    ensures
        may_fail(b, sim),
{
    if RunState::initial(sim).advance(sim, Reply::Begin) is Some {
        let points = choose|points: Seq<Driven<M, D>>| #[trigger]
            is_task_run(a, points) && begins(sim, points[0]) && may_overflow(a, points.last());
        lemma_running_grows(a, b, points);
        assert(may_overflow(b, points.last()));
    }
}

/// If a step cannot be represented, the run may come to something that cannot be
/// represented.
proof fn lemma_after_step<M>(
    acts: spec_fn((), Step, TaskState<M>, (), Reply, TaskState<M>) -> bool,
    points: Seq<Driven<M, ()>>,
    start: TaskState<M>,
    reply: Reply,
    sim: TaskState<M>,
    run: RunState<M>,
)
    requires
        is_task_run(acts, points),
        begins(start, points[0]),
        run == points.last().run,
        acts((), points.last().step, points.last().sim, (), reply, sim),
        run.expects(reply),
    ensures
        run.advance(sim, reply) is None ==> may_fail(acts, start),
{
    if run.advance(sim, reply) is None {
        assert(points.last().driver == ());
        assert(may_overflow(acts, points.last()));
    }
}

} // verus!
