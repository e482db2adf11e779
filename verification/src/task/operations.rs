//! How the operations on tasks and their simulation relate to each other.

use vstd::prelude::*;

use crate::net::delivery::parted;
use crate::net::node::NodeId;
use crate::net::topology::Topology;
use crate::scenario::Scenario;
use crate::task::builder::TaskSimBuilder;
use crate::task::context::{
    select2, NodeContext, Polled, Recv, RecvTimeout, Select2, SendFut, Sleep,
};
use crate::task::event::{
    CancellationToken, Envelope, FailureAction, TaskEvent, TaskTraceEvent,
};
use crate::task::sim::TaskSim;
use crate::task::state::TaskState;
use crate::time::{Duration, Time};
use crate::trace::Trace;

verus! {

/// A task that sleeps wakes when the time has passed for which it sleeps, one that waits for a
/// message gives up when the time has passed for which it waits, and both are counted from the
/// time at which they began. Nothing is scheduled for them yet.
pub proof fn tasks_wait_from_now_on<M>(
    context: NodeContext,
    sim: TaskSim<M>,
    d: Duration,
    sleep: Sleep,
    timeout: RecvTimeout,
    recv: Recv,
)
    requires
        call_ensures(NodeContext::sleep::<M>, (&context, &sim, d), sleep),
        call_ensures(NodeContext::recv_timeout::<M>, (&context, &sim, d), timeout),
        call_ensures(NodeContext::recv, (&context,), recv),
        sim@.now.0 + d.0 <= u64::MAX,
    ensures
        sleep.wake_time.0 - sim@.now.0 == d.0,
        sleep.task_id == context.task_id,
        !sleep.scheduled,
        timeout.deadline.0 - sim@.now.0 == d.0,
        timeout.node_id == context.node_id,
        timeout.task_id == context.task_id,
        !timeout.wake_scheduled,
        recv.node_id == context.node_id,
{
}

/// A task that sleeps is ready exactly from its wake time on. Until then it waits, and is woken
/// at that time: the one event for it is scheduled the first time that it has to wait.
pub proof fn sleeping_tasks_wake_on_time<M>(
    sleep: &mut Sleep,
    sim: &mut TaskSim<M>,
    r: Polled<()>,
)
    requires
        call_ensures(Sleep::poll::<M>, (sleep, sim), r),
    ensures
        r is Ready <==> old(sim)@.now.0 >= old(sleep).wake_time.0,
        r is Overflow ==> old(sim)@.queue.next_sequence == u64::MAX && !old(sleep).scheduled,
        final(sleep).wake_time == old(sleep).wake_time,
        final(sleep).task_id == old(sleep).task_id,
        r is Pending ==> final(sleep).scheduled,
        r is Ready || old(sleep).scheduled ==> final(sim)@ == old(sim)@,
        r is Pending && !old(sleep).scheduled ==> Some(final(sim)@) == old(sim)@.scheduling(
            old(sleep).wake_time,
            TaskEvent::Wake(old(sleep).task_id),
        ),
{
}

/// A task that waits for a message gets the oldest one of its inbox, and waits only if there is
/// none.
pub proof fn receiving_tasks_get_the_oldest_message<M>(
    recv: &mut Recv,
    sim: &mut TaskSim<M>,
    r: Polled<Envelope<M>>,
)
    requires
        call_ensures(Recv::poll::<M>, (recv, sim), r),
        old(sim)@.wf(),
        old(sim)@.graph.has(old(recv).node_id),
    ensures
        ({
            let node = old(recv).node_id.0 as int;
            let before = old(sim)@.inboxes[node];
            let after = final(sim)@.inboxes[node];
            &&& match r {
                Polled::Ready(envelope) => before == seq![envelope] + after
                    && !final(sim)@.waiting[node],
                Polled::Pending => before.len() == 0 && after.len() == 0
                    && final(sim)@.waiting[node],
                Polled::Overflow => false,
            }
            &&& final(recv).node_id == old(recv).node_id
        }),
{
    let node = old(recv).node_id.0 as int;
    let before = old(sim)@.inboxes[node];
    if before.len() > 0 {
        assert(before =~= seq![before[0]] + before.drop_first());
    }
}

/// A task that waits for a message, but not for ever, gets the oldest one of its inbox even if
/// its time is over; without one it gets none exactly from its deadline on, and waits until then:
/// the one event that ends the waiting is scheduled the first time that it has to wait.
pub proof fn messages_come_before_deadlines<M>(
    recv: &mut RecvTimeout,
    sim: &mut TaskSim<M>,
    r: Polled<Option<Envelope<M>>>,
)
    requires
        call_ensures(RecvTimeout::poll::<M>, (recv, sim), r),
        old(sim)@.wf(),
        old(sim)@.graph.has(old(recv).node_id),
    ensures
        ({
            let node = old(recv).node_id.0 as int;
            let before = old(sim)@.inboxes[node];
            let after = final(sim)@.inboxes[node];
            let over = old(sim)@.now.0 >= old(recv).deadline.0;
            &&& match r {
                Polled::Ready(Some(envelope)) => before == seq![envelope] + after
                    && final(sim)@.queue == old(sim)@.queue && !final(sim)@.waiting[node],
                Polled::Ready(None) => before.len() == 0 && over && final(sim)@.queue == old(
                    sim,
                )@.queue && !final(sim)@.waiting[node],
                Polled::Pending => before.len() == 0 && !over && final(sim)@.waiting[node]
                    && final(recv).wake_scheduled,
                Polled::Overflow => before.len() == 0 && !over && old(sim)@.queue.next_sequence
                    == u64::MAX,
            }
            &&& r is Pending && old(recv).wake_scheduled ==> final(sim)@.queue == old(sim)@.queue
            &&& r is Pending && !old(recv).wake_scheduled ==> final(sim)@.queue == old(
                sim,
            )@.queue.schedule(old(recv).deadline, TaskEvent::Wake(old(recv).task_id))
            &&& final(recv).node_id == old(recv).node_id
            &&& final(recv).task_id == old(recv).task_id
            &&& final(recv).deadline == old(recv).deadline
            &&& final(sim)@.now == old(sim)@.now
            &&& final(sim)@.ready == old(sim)@.ready
        }),
{
    let node = old(recv).node_id.0 as int;
    let before = old(sim)@.inboxes[node];
    if before.len() > 0 {
        assert(before =~= seq![before[0]] + before.drop_first());
    }
}

/// A message is sent from the node of the task, the first time that its sending is polled, and
/// only then.
pub proof fn messages_are_sent_once<M>(
    context: NodeContext,
    dst: NodeId,
    payload: M,
    made: SendFut<M>,
    send: &mut SendFut<M>,
    sim: &mut TaskSim<M>,
    r: Polled<()>,
)
    requires
        call_ensures(NodeContext::send::<M>, (&context, dst, payload), made),
        call_ensures(SendFut::<M>::poll, (send, sim), r),
    ensures
        made.src == context.node_id,
        made.dst == dst,
        made.payload == Some(payload),
        final(send).payload is None,
        final(send).src == old(send).src,
        final(send).dst == old(send).dst,
        !(r is Pending),
        old(send).payload is None ==> r is Ready && final(sim)@ == old(sim)@,
        old(send).payload matches Some(what) ==> {
            let posted = old(sim)@.posting(old(send).src, old(send).dst, what);
            &&& r is Ready ==> posted == Some(final(sim)@)
            &&& r is Overflow ==> posted is None && final(sim)@ == old(sim)@
        },
{
}

/// Two computations are paired in the order in which they are given.
pub proof fn computations_are_paired_in_order<A, B>(a: A, b: B, s: Select2<A, B>)
    requires
        call_ensures(select2::<A, B>, (a, b), s),
    ensures
        s.a == a,
        s.b == b,
{
}

/// A simulation that was asked to stop is cancelled, whichever token is asked, and asking changes
/// nothing else.
pub proof fn cancelling_is_seen_by_every_token<M>(
    token: CancellationToken,
    other: CancellationToken,
    sim: &mut TaskSim<M>,
    after: TaskSim<M>,
    r: bool,
)
    requires
        call_ensures(CancellationToken::cancel::<M>, (&token, sim), ()),
        after@ == final(sim)@,
        call_ensures(CancellationToken::is_cancelled::<M>, (&other, &after), r),
    ensures
        r,
        (TaskState { shutdown: old(sim)@.shutdown, ..after@ }) == old(sim)@,
{
}

/// Nodes are partitioned exactly if they were parted, edges have failed exactly if they failed in
/// both directions, or in the one that is asked about, and nodes exactly if they failed.
pub proof fn failures_can_be_asked_about<M>(
    sim: TaskSim<M>,
    context: NodeContext,
    a: NodeId,
    b: NodeId,
    apart: bool,
    back: bool,
    cut: bool,
    forth: bool,
    failed: bool,
)
    requires
        call_ensures(TaskSim::<M>::is_partitioned, (&sim, a, b), apart),
        call_ensures(NodeContext::is_partitioned::<M>, (&context, &sim, b, a), back),
        call_ensures(TaskSim::<M>::is_link_failed, (&sim, a, b), cut),
        call_ensures(TaskSim::<M>::is_link_failed_directed, (&sim, a, b), forth),
        call_ensures(TaskSim::<M>::is_node_failed, (&sim, a), failed),
    ensures
        apart == parted(sim@.partitions, a, b),
        back == apart,
        forth == sim@.graph.failed_links.contains((a, b)),
        cut ==> forth,
        cut ==> sim@.graph.failed_links.contains((b, a)),
        forth && sim@.graph.failed_links.contains((b, a)) ==> cut,
        failed == sim@.graph.failed_nodes.contains(a),
{
}

/// A task learns of failures what the simulation knows of them.
pub proof fn tasks_ask_the_simulation<M>(
    sim: TaskSim<M>,
    context: NodeContext,
    a: NodeId,
    b: NodeId,
    cut: bool,
    its_cut: bool,
    forth: bool,
    its_forth: bool,
    failed: bool,
    its_failed: bool,
    now: Time,
    its_now: Time,
    id: NodeId,
)
    requires
        call_ensures(TaskSim::<M>::is_link_failed, (&sim, a, b), cut),
        call_ensures(NodeContext::is_link_failed::<M>, (&context, &sim, a, b), its_cut),
        call_ensures(TaskSim::<M>::is_link_failed_directed, (&sim, a, b), forth),
        call_ensures(NodeContext::is_link_failed_directed::<M>, (&context, &sim, a, b), its_forth),
        call_ensures(TaskSim::<M>::is_node_failed, (&sim, a), failed),
        call_ensures(NodeContext::is_node_failed::<M>, (&context, &sim, a), its_failed),
        call_ensures(TaskSim::<M>::now, (&sim,), now),
        call_ensures(NodeContext::now::<M>, (&context, &sim), its_now),
        call_ensures(NodeContext::id, (&context,), id),
    ensures
        cut == its_cut,
        forth == its_forth,
        failed == its_failed,
        now == its_now,
        now == sim@.now,
        id == context.node_id,
{
}

/// What a simulation does to apply a failure is what each operation does that names one, whether
/// a task calls it or not.
pub proof fn failures_are_applied_by_name<M>(
    context: NodeContext,
    sim: &mut TaskSim<M>,
    a: NodeId,
    b: NodeId,
)
    ensures
        call_ensures(TaskSim::<M>::partition, (sim, a, b), ()) || call_ensures(
            NodeContext::partition::<M>,
            (&context, sim, a, b),
            (),
        ) ==> Some(final(sim)@) == old(sim)@.applying(FailureAction::Partition(a, b)),
        call_ensures(TaskSim::<M>::heal, (sim, a, b), ()) || call_ensures(
            NodeContext::heal::<M>,
            (&context, sim, a, b),
            (),
        ) ==> Some(final(sim)@) == old(sim)@.applying(FailureAction::Heal(a, b)),
        call_ensures(TaskSim::<M>::fail_link, (sim, a, b), ()) || call_ensures(
            NodeContext::fail_link::<M>,
            (&context, sim, a, b),
            (),
        ) ==> Some(final(sim)@) == old(sim)@.applying(FailureAction::FailLink(a, b)),
        call_ensures(TaskSim::<M>::heal_link, (sim, a, b), ()) || call_ensures(
            NodeContext::heal_link::<M>,
            (&context, sim, a, b),
            (),
        ) ==> Some(final(sim)@) == old(sim)@.applying(FailureAction::HealLink(a, b)),
        call_ensures(TaskSim::<M>::fail_link_directed, (sim, a, b), ()) || call_ensures(
            NodeContext::fail_link_directed::<M>,
            (&context, sim, a, b),
            (),
        ) ==> Some(final(sim)@) == old(sim)@.applying(FailureAction::FailLinkDirected(a, b)),
        call_ensures(TaskSim::<M>::heal_link_directed, (sim, a, b), ()) || call_ensures(
            NodeContext::heal_link_directed::<M>,
            (&context, sim, a, b),
            (),
        ) ==> Some(final(sim)@) == old(sim)@.applying(FailureAction::HealLinkDirected(a, b)),
        call_ensures(TaskSim::<M>::fail_node, (sim, a), ()) || call_ensures(
            NodeContext::fail_node::<M>,
            (&context, sim, a),
            (),
        ) ==> Some(final(sim)@) == old(sim)@.applying(FailureAction::FailNode(a)),
        call_ensures(TaskSim::<M>::heal_node, (sim, a), ()) || call_ensures(
            NodeContext::heal_node::<M>,
            (&context, sim, a),
            (),
        ) ==> Some(final(sim)@) == old(sim)@.applying(FailureAction::HealNode(a)),
{
}

/// Applying a failure and sending a message from outside succeed exactly if they can be
/// represented, and a failure that is scheduled waits for its time.
pub proof fn simulations_are_driven_from_outside<M>(
    sim: &mut TaskSim<M>,
    action: FailureAction,
    src: NodeId,
    dst: NodeId,
    payload: M,
    time: Time,
    r: bool,
)
    ensures
        call_ensures(TaskSim::<M>::try_apply_failure, (sim, action), r) ==> {
            &&& r == (old(sim)@.applying(action) is Some)
            &&& r ==> Some(final(sim)@) == old(sim)@.applying(action)
        },
        call_ensures(TaskSim::<M>::apply_failure, (sim, action), ()) ==> Some(final(sim)@) == old(
            sim,
        )@.applying(action),
        call_ensures(TaskSim::<M>::try_inject, (sim, src, dst, payload), r) ==> {
            &&& r == (old(sim)@.posting(src, dst, payload) is Some)
            &&& r ==> Some(final(sim)@) == old(sim)@.posting(src, dst, payload)
            &&& !r ==> final(sim)@ == old(sim)@
        },
        call_ensures(TaskSim::<M>::inject, (sim, src, dst, payload), ()) ==> Some(final(sim)@)
            == old(sim)@.posting(src, dst, payload),
        call_ensures(TaskSim::<M>::try_schedule_failure, (sim, time, action), r) ==> {
            &&& r == (old(sim)@.queue.next_sequence < u64::MAX)
            &&& r ==> final(sim)@.queue == old(sim)@.queue.schedule(
                time,
                TaskEvent::ApplyFailure(action),
            )
            &&& (TaskState { queue: old(sim)@.queue, ..final(sim)@ }) == old(sim)@
            &&& !r ==> final(sim)@ == old(sim)@
        },
        call_ensures(TaskSim::<M>::schedule_failure, (sim, time, action), ()) ==> {
            &&& final(sim)@.queue == old(sim)@.queue.schedule(
                time,
                TaskEvent::ApplyFailure(action),
            )
            &&& (TaskState { queue: old(sim)@.queue, ..final(sim)@ }) == old(sim)@
        },
{
}

/// The trace of a simulation is handed out once, with the time at which it ends, and nothing else
/// changes.
pub proof fn traces_are_handed_out_once<M>(
    sim: &mut TaskSim<M>,
    end: Time,
    t: Trace<TaskTraceEvent>,
)
    requires
        call_ensures(TaskSim::<M>::finish_trace, (sim, end), t),
    ensures
        final(sim)@.trace is None,
        (TaskState { trace: old(sim)@.trace, ..final(sim)@ }) == old(sim)@,
        t@.final_time_ns == end.0,
        match old(sim)@.trace {
            Some(told) => t@.seed == told.seed && t@.events == told.events,
            None => t@.seed == old(sim)@.seed && t@.events.len() == 0,
        },
{
}

/// A simulation is built with its topology and its seed; it is traced, and drops what is on its
/// way, exactly if that was asked for.
pub proof fn simulations_are_built_as_asked<M>(
    topology: Topology,
    seed: u64,
    plain: TaskSimBuilder<M>,
    dropping: TaskSimBuilder<M>,
    tracing: TaskSimBuilder<M>,
    s: TaskSim<M>,
    d: TaskSim<M>,
    t: TaskSim<M>,
)
    requires
        call_ensures(TaskSimBuilder::<M>::new, (topology, seed), plain),
        call_ensures(TaskSimBuilder::<M>::drop_in_flight_on_failure, (plain,), dropping),
        call_ensures(TaskSimBuilder::<M>::with_trace, (dropping,), tracing),
        call_ensures(TaskSimBuilder::<M>::build, (plain,), s),
        call_ensures(TaskSimBuilder::<M>::build, (dropping,), d),
        call_ensures(TaskSimBuilder::<M>::build, (tracing,), t),
    ensures
        s@.graph == topology@,
        s@.seed == seed,
        s@.trace is None,
        !s@.drop_in_flight_on_failure,
        d@ == (TaskState { drop_in_flight_on_failure: true, ..s@ }),
        t@.trace is Some,
        (TaskState { trace: None, ..t@ }) == d@,
{
    assert((TaskState { drop_in_flight_on_failure: true, ..s@ }) =~= d@);
    assert((TaskState { trace: None, ..t@ }) =~= d@);
}

/// A scenario remembers its messages and its failures in the order in which they are added, and
/// the limit that was set last, counted from the start; at first it has none of them.
pub proof fn scenarios_remember_what_is_added<M>(
    topology: Topology,
    seed: u64,
    fresh: Scenario<M>,
    s: Scenario<M>,
    time: Time,
    action: FailureAction,
    src: NodeId,
    dst: NodeId,
    payload: M,
    d: Duration,
    failing: Scenario<M>,
    sending: Scenario<M>,
    limited: Scenario<M>,
)
    requires
        call_ensures(Scenario::<M>::new, (topology, seed), fresh),
        call_ensures(Scenario::<M>::fail_at, (s, time, action), failing),
        call_ensures(Scenario::<M>::inject, (s, src, dst, payload), sending),
        call_ensures(Scenario::<M>::run_for, (s, d), limited),
    ensures
        fresh.topology == topology,
        fresh.seed == seed,
        fresh.injections.len() == 0,
        fresh.failures.len() == 0,
        fresh.run_until is None,
        failing.failures.len() == s.failures.len() + 1,
        failing.failures@.drop_last() == s.failures@,
        failing.failures@.last() == (time, action),
        failing.injections == s.injections,
        failing.run_until == s.run_until,
        failing.seed == s.seed,
        failing.topology == s.topology,
        sending.injections.len() == s.injections.len() + 1,
        sending.injections@.drop_last() == s.injections@,
        sending.injections@.last() == (src, dst, payload),
        sending.failures == s.failures,
        sending.run_until == s.run_until,
        sending.seed == s.seed,
        sending.topology == s.topology,
        limited.run_until matches Some(end) && end.0 == d.0,
        limited.injections == s.injections,
        limited.failures == s.failures,
        limited.seed == s.seed,
        limited.topology == s.topology,
{
    assert(failing.failures@.drop_last() =~= s.failures@);
    assert(sending.injections@.drop_last() =~= s.injections@);
}

/// What a simulation is asked it answers by its state.
pub proof fn simulations_know_their_state<M>(
    sim: TaskSim<M>,
    now: Time,
    nodes: usize,
    seed: u64,
    dropped: u64,
    contexts: Vec<NodeContext>,
    i: int,
)
    requires
        sim@.graph.links.len() <= u32::MAX,
        call_ensures(TaskSim::<M>::now, (&sim,), now),
        call_ensures(TaskSim::<M>::node_count, (&sim,), nodes),
        call_ensures(TaskSim::<M>::seed, (&sim,), seed),
        call_ensures(TaskSim::<M>::messages_dropped, (&sim,), dropped),
        call_ensures(TaskSim::<M>::contexts, (&sim,), contexts),
        0 <= i < nodes,
    ensures
        now == sim@.now,
        nodes == sim@.graph.links.len(),
        seed == sim@.seed,
        dropped == sim@.messages_dropped,
        contexts.len() == nodes,
        contexts[i].node_id.0 == i,
        contexts[i].task_id.0 == i,
{
}

} // verus!
