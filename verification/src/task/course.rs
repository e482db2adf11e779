//! In what order a run of a task-based simulation polls tasks and processes events.

use vstd::prelude::*;

use crate::task::event::{TaskEvent, TaskId};
use crate::task::run::{upcoming, Awaited, Outcome, Reply, RunState, Step};
use crate::task::state::TaskState;

verus! {

/// Whether the task at a place exists and is not done.
pub open spec fn to_be_polled(batch: Seq<TaskId>, completed: Seq<bool>, k: int) -> bool {
    batch[k].0 < completed.len() && !completed[batch[k].0 as int]
}

/// Whether no task from place `from` on is left to be polled.
pub open spec fn none_left(batch: Seq<TaskId>, completed: Seq<bool>, from: int) -> bool {
    forall|k: int| from <= k < batch.len() ==> !#[trigger] to_be_polled(batch, completed, k)
}

/// Whether the task at place `k` is the next to be polled from place `from` on.
pub open spec fn is_next(batch: Seq<TaskId>, completed: Seq<bool>, from: int, k: int) -> bool {
    &&& from <= k < batch.len()
    &&& to_be_polled(batch, completed, k)
    &&& forall|j: int| from <= j < k ==> !#[trigger] to_be_polled(batch, completed, j)
}

/// The next task to poll is the first that exists and is not done, and there is none only if none
/// is left.
pub proof fn tasks_are_polled_in_turn(batch: Seq<TaskId>, completed: Seq<bool>, from: nat)
    ensures
        match upcoming(batch, completed, from) {
            Some(k) => is_next(batch, completed, from as int, k as int),
            None => none_left(batch, completed, from as int),
        },
    decreases batch.len() - from,
{
    if from < batch.len() && !to_be_polled(batch, completed, from as int) {
        tasks_are_polled_in_turn(batch, completed, from + 1);
        assert(upcoming(batch, completed, from) == upcoming(batch, completed, from + 1));
    }
}

/// Whether an outcome is that the task at place `k` of `batch` is polled, which is counted. The
/// simulation is left as it is.
pub open spec fn polls_task<M>(
    run: RunState<M>,
    batch: Seq<TaskId>,
    k: int,
    o: Outcome<M>,
) -> bool {
    &&& o.step == Step::Poll(batch[k])
    &&& o.run.awaited == Awaited::<M>::Poll(batch[k])
    &&& o.run.batch == batch
    &&& o.run.position == k + 1
    &&& o.run.completed == run.completed
    &&& o.run.stats.task_polls == run.stats.task_polls + 1
    &&& o.run.stats.final_time == run.stats.final_time
    &&& o.run.stats.events_processed == run.stats.events_processed
    &&& o.run.stats.messages_delivered == run.stats.messages_delivered
    &&& o.run.stats.tasks_completed == run.stats.tasks_completed
    &&& o.run.stats.messages_dropped == run.stats.messages_dropped
}

/// Whether an outcome is that the run is over, with the time and the number of dropped messages
/// of the simulation among its figures.
pub open spec fn ends<M>(run: RunState<M>, sim: TaskState<M>, o: Outcome<M>) -> bool {
    &&& o.step == Step::Finished(o.run.stats)
    &&& o.run.awaited is Nothing
    &&& o.run.completed == run.completed
    &&& o.run.stats.final_time == sim.now
    &&& o.run.stats.messages_dropped == sim.messages_dropped
    &&& o.run.stats.task_polls == run.stats.task_polls
    &&& o.run.stats.events_processed == run.stats.events_processed
    &&& o.run.stats.messages_delivered == run.stats.messages_delivered
    &&& o.run.stats.tasks_completed == run.stats.tasks_completed
}

/// The tasks of the current batch come first, then the event that is due first, then the tasks
/// that have become ready since, and then the end. It fails only if the polls cannot be counted.
pub proof fn tasks_come_before_events<M>(run: RunState<M>, sim: TaskState<M>)
    ensures
        run.proceed(sim) is None ==> run.stats.task_polls == u64::MAX,
        run.proceed(sim) matches Some(o) ==> {
            let left = !none_left(run.batch, run.completed, run.position as int);
            let due = sim.queue.pending.len() > 0;
            let again = !none_left(sim.ready, run.completed, 0);
            let cleared = TaskState { ready: Seq::empty(), ..sim };
            &&& left ==> {
                &&& exists|k: int| #[trigger]
                    is_next(run.batch, run.completed, run.position as int, k) && polls_task(
                        run,
                        run.batch,
                        k,
                        o,
                    )
                &&& o.sim == sim
            }
            &&& !left && due ==> {
                let next = sim.queue.pending[0];
                &&& o.step == Step::Ask(next.time)
                &&& o.run.awaited == Awaited::Answer(next)
                &&& o.run.completed == run.completed
                &&& o.run.stats == run.stats
                &&& none_left(o.run.batch, o.run.completed, o.run.position as int)
                &&& o.sim.queue.pending == sim.queue.pending.drop_first()
                &&& o.sim.queue.next_sequence == sim.queue.next_sequence
                &&& (TaskState { queue: sim.queue, ..o.sim }) == sim
            }
            &&& !left && !due && again ==> {
                &&& exists|k: int| #[trigger]
                    is_next(sim.ready, run.completed, 0, k) && polls_task(run, sim.ready, k, o)
                &&& o.sim == cleared
            }
            &&& !left && !due && !again ==> {
                &&& ends(run, sim, o)
                &&& o.sim =~= cleared
            }
        },
{
    tasks_are_polled_in_turn(run.batch, run.completed, run.position);
    tasks_are_polled_in_turn(sim.ready, run.completed, 0);
    let cleared = TaskState { ready: Seq::empty(), ..sim };
    if let Some(k) = upcoming(run.batch, run.completed, run.position) {
        assert(is_next(run.batch, run.completed, run.position as int, k as int));
        assert(to_be_polled(run.batch, run.completed, k as int));
    } else if sim.queue.pending.len() == 0 {
        let reloaded = run.reloaded(sim);
        assert(reloaded.batch == sim.ready && reloaded.completed == run.completed);
        tasks_are_polled_in_turn(reloaded.batch, reloaded.completed, reloaded.position);
        if let Some(k) = upcoming(sim.ready, run.completed, 0) {
            assert(is_next(sim.ready, run.completed, 0, k as int));
            assert(to_be_polled(sim.ready, run.completed, k as int));
            assert(run.proceed(sim) == reloaded.proceed(cleared));
        } else if sim.ready.len() > 0 {
            assert(run.proceed(sim) == reloaded.proceed(cleared));
        } else {
            assert(cleared =~= sim);
        }
    }
}

/// Beginning makes the ready tasks the batch to poll. `from` and `given` are the run and the
/// simulation from which it goes on.
pub proof fn runs_begin_with_the_ready_tasks<M>(sim: TaskState<M>) -> (r: (
    RunState<M>,
    TaskState<M>,
))
    ensures
        ({
            let (from, given) = r;
            &&& RunState::initial(sim).advance(sim, Reply::Begin) == from.proceed(given)
            &&& from.batch == sim.ready
            &&& from.position == 0
            &&& from.completed.len() == sim.graph.links.len()
            &&& forall|i: int| 0 <= i < from.completed.len() ==> !#[trigger] from.completed[i]
            &&& from.stats.final_time.0 == 0
            &&& from.stats.events_processed == 0
            &&& from.stats.messages_delivered == 0
            &&& from.stats.task_polls == 0
            &&& from.stats.tasks_completed == 0
            &&& from.stats.messages_dropped == 0
            &&& given.ready.len() == 0
            &&& (TaskState { ready: sim.ready, ..given }) == sim
        }),
{
    let from = RunState::initial(sim).reloaded(sim);
    let given = TaskState { ready: Seq::empty(), ..sim };
    (from, given)
}

/// A task that is polled and done is counted and not polled again; one that is not done changes
/// nothing. Then the run goes on. It fails at once only if the tasks that are done cannot be
/// counted.
pub proof fn tasks_that_are_done_are_counted<M>(
    run: RunState<M>,
    sim: TaskState<M>,
    id: TaskId,
    ready: bool,
) -> (from: RunState<M>)
    requires
        run.awaited == Awaited::<M>::Poll(id),
        id.0 < run.completed.len(),
    ensures
        ready && run.stats.tasks_completed == u64::MAX ==> run.advance(
            sim,
            Reply::Polled { ready },
        ) is None,
        !ready || run.stats.tasks_completed < u64::MAX ==> {
            &&& run.advance(sim, Reply::Polled { ready }) == from.proceed(sim)
            &&& !ready ==> from == run
            &&& ready ==> {
                &&& from.stats.tasks_completed == run.stats.tasks_completed + 1
                &&& from.completed.len() == run.completed.len()
                &&& from.completed[id.0 as int]
                &&& forall|i: int|
                    0 <= i < run.completed.len() && i != id.0 ==> #[trigger] from.completed[i]
                        == run.completed[i]
                &&& from.batch == run.batch
                &&& from.position == run.position
                &&& from.stats.final_time == run.stats.final_time
                &&& from.stats.events_processed == run.stats.events_processed
                &&& from.stats.messages_delivered == run.stats.messages_delivered
                &&& from.stats.task_polls == run.stats.task_polls
                &&& from.stats.messages_dropped == run.stats.messages_dropped
            }
        },
{
    if ready {
        RunState {
            completed: run.completed.update(id.0 as int, true),
            stats: crate::task::event::TaskSimStats {
                tasks_completed: (run.stats.tasks_completed + 1) as u64,
                ..run.stats
            },
            ..run
        }
    } else {
        run
    }
}

/// A run that is not to go on is over, without the event. One that goes on processes it at the
/// time at which it is due and counts it, and counts a message if one reached an inbox; then the
/// tasks that are ready are the batch to poll.
pub proof fn events_are_processed_when_they_are_due<M>(
    run: RunState<M>,
    sim: TaskState<M>,
) -> (r: (RunState<M>, TaskState<M>))
    requires
        run.awaited is Answer,
    ensures
        run.advance(sim, Reply::Answer { go_on: false }) matches Some(o) && ends(run, sim, o)
            && o.sim == sim,
        ({
            let next = run.awaited->Answer_0;
            let (from, given) = r;
            let arrived: int = match next.event {
                TaskEvent::Deliver { dst, .. } => if dst.0 < sim.graph.links.len() {
                    1
                } else {
                    0
                },
                _ => 0,
            };
            let there = TaskState { now: next.time, ..sim };
            match run.advance(sim, Reply::Answer { go_on: true }) {
                None => run.stats.events_processed == u64::MAX || run.stats.messages_delivered
                    + arrived > u64::MAX || there.processing(next.event) is None || from.proceed(
                    given,
                ) is None,
                Some(o) => {
                    let after = there.processing(next.event)->0;
                    &&& there.processing(next.event) is Some
                    &&& from.proceed(given) == Some(o)
                    &&& from.batch == after.ready
                    &&& from.position == 0
                    &&& from.completed == run.completed
                    &&& from.stats.events_processed == run.stats.events_processed + 1
                    &&& from.stats.messages_delivered == run.stats.messages_delivered + arrived
                    &&& from.stats.task_polls == run.stats.task_polls
                    &&& from.stats.tasks_completed == run.stats.tasks_completed
                    &&& from.stats.final_time == run.stats.final_time
                    &&& from.stats.messages_dropped == run.stats.messages_dropped
                    &&& given.ready.len() == 0
                    &&& (TaskState { ready: after.ready, ..given }) == after
                },
            }
        }),
{
    let next = run.awaited->Answer_0;
    let after = (TaskState { now: next.time, ..sim }).processing(next.event)->0;
    let from = (run.processed(sim, next.event)->0).reloaded(after);
    let given = TaskState { ready: Seq::empty(), ..after };
    (from, given)
}

/// A run expects what it asked for: the beginning once, the result of a poll, a decision, and
/// nothing more when it is over.
pub proof fn runs_expect_what_they_asked_for<M>(run: RunState<M>, reply: Reply)
    ensures
        run.expects(reply) <==> match reply {
            Reply::Begin => run.awaited is Begin,
            Reply::Polled { .. } => run.awaited is Poll,
            Reply::Answer { .. } => run.awaited is Answer,
        },
{
}

} // verus!
