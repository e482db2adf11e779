//! What a task does: it sleeps, receives, sends and waits for the first of two
//! computations.

use vstd::prelude::*;

use crate::net::node::NodeId;
use crate::task::event::{CancellationToken, Envelope, FailureAction, TaskEvent, TaskId};
use crate::task::sim::TaskSim;
use crate::time::{Duration, Time};

verus! {

/// How far a computation has come.
#[derive(Debug, Clone, Copy, PartialEq, Eq, Structural)]
pub enum Polled<T> {
    /// It is done.
    Ready(T),
    /// It waits for something.
    Pending,
    /// It asked the simulation for what cannot be represented.
    Overflow,
}

/// A task that sleeps until a time.
#[derive(Debug)]
pub struct Sleep {
    /// The task that sleeps.
    pub task_id: TaskId,
    /// The time at which it wakes.
    pub wake_time: Time,
    /// Whether the event that wakes it is scheduled.
    pub scheduled: bool,
}

impl Sleep {
    /// Looks whether the time has come. The first time that it has not, the event
    /// that wakes the task is scheduled.
    pub fn poll<M>(&mut self, sim: &mut TaskSim<M>) -> (r: Polled<()>)
        requires
            old(sim)@.wf(),
        ensures
            final(sim)@.wf(),
            old(sim)@.now.0 >= old(self).wake_time.0 ==> r == Polled::Ready(()) && final(sim)@
                == old(sim)@ && *final(self) == *old(self),
            old(sim)@.now.0 < old(self).wake_time.0 && old(self).scheduled ==> r
                == Polled::<()>::Pending && final(sim)@ == old(sim)@ && *final(self) == *old(self),
            old(sim)@.now.0 < old(self).wake_time.0 && !old(self).scheduled ==> match old(
                sim,
            )@.scheduling(old(self).wake_time, TaskEvent::Wake(old(self).task_id)) {
                Some(after) => r == Polled::<()>::Pending && final(sim)@ == after && *final(self)
                    == (Sleep { scheduled: true, ..*old(self) }),
                None => r == Polled::<()>::Overflow && final(sim)@ == old(sim)@ && *final(self)
                    == *old(self),
            },
    {
        if sim.now().0 >= self.wake_time.0 {
            return Polled::Ready(());
        }
        if !self.scheduled {
            if !sim.schedule(self.wake_time, TaskEvent::Wake(self.task_id)) {
                return Polled::Overflow;
            }
            self.scheduled = true;
        }
        Polled::Pending
    }
}

/// A task that waits for a message.
#[derive(Debug)]
pub struct Recv {
    /// The node whose inbox it waits on.
    pub node_id: NodeId,
}

impl Recv {
    /// Takes the next message from the inbox, or notes that the task waits for one.
    pub fn poll<M>(&mut self, sim: &mut TaskSim<M>) -> (r: Polled<Envelope<M>>)
        requires
            old(sim)@.wf(),
            old(sim)@.graph.has(old(self).node_id),
        ensures
            *final(self) == *old(self),
            final(sim)@ == old(sim)@.taking(old(self).node_id),
            final(sim)@.wf(),
            r == match old(sim)@.taken(old(self).node_id) {
                Some(envelope) => Polled::Ready(envelope),
                None => Polled::Pending,
            },
    {
        match sim.take(self.node_id) {
            Some(envelope) => Polled::Ready(envelope),
            None => Polled::Pending,
        }
    }
}

/// A task that waits for a message, but not for ever.
#[derive(Debug)]
pub struct RecvTimeout {
    /// The node whose inbox it waits on.
    pub node_id: NodeId,
    /// The task that waits.
    pub task_id: TaskId,
    /// The time from which on it waits no longer.
    pub deadline: Time,
    /// Whether the event that ends the waiting is scheduled.
    pub wake_scheduled: bool,
}

impl RecvTimeout {
    /// Takes the next message from the inbox; a message that is there is taken
    /// even if the time is over. Without one the task waits until the deadline and
    /// then gets none.
    pub fn poll<M>(&mut self, sim: &mut TaskSim<M>) -> (r: Polled<Option<Envelope<M>>>)
        requires
            old(sim)@.wf(),
            old(sim)@.graph.has(old(self).node_id),
        ensures
            final(sim)@.wf(),
            match old(sim)@.taken(old(self).node_id) {
                Some(envelope) => r == Polled::Ready(Some(envelope)) && final(sim)@ == old(
                    sim,
                )@.taking(old(self).node_id) && *final(self) == *old(self),
                None => {
                    if old(sim)@.now.0 >= old(self).deadline.0 {
                        r == Polled::Ready(None::<Envelope<M>>) && final(sim)@ == old(
                            sim,
                        )@.waiting_set(old(self).node_id, false) && *final(self) == *old(self)
                    } else {
                        let waits = old(sim)@.waiting_set(old(self).node_id, true);
                        let wake = TaskEvent::<M>::Wake(old(self).task_id);
                        if old(self).wake_scheduled {
                            r == Polled::<Option<Envelope<M>>>::Pending && final(sim)@ == waits
                                && *final(self) == *old(self)
                        } else {
                            match waits.scheduling(old(self).deadline, wake) {
                                Some(after) => r == Polled::<Option<Envelope<M>>>::Pending
                                    && final(sim)@ == after && *final(self) == (RecvTimeout {
                                    wake_scheduled: true,
                                    ..*old(self)
                                }),
                                None => r == Polled::<Option<Envelope<M>>>::Overflow && final(sim)@
                                    == waits && *final(self) == *old(self),
                            }
                        }
                    }
                },
            },
    {
        if let Some(envelope) = sim.take(self.node_id) {
            return Polled::Ready(Some(envelope));
        }
        if sim.now().0 >= self.deadline.0 {
            sim.set_waiting(self.node_id, false);
            assert(sim@ =~= old(sim)@.waiting_set(old(self).node_id, false));
            return Polled::Ready(None);
        }
        if !self.wake_scheduled {
            if !sim.schedule(self.deadline, TaskEvent::Wake(self.task_id)) {
                return Polled::Overflow;
            }
            self.wake_scheduled = true;
        }
        Polled::Pending
    }
}

/// A task that sends a message.
#[derive(Debug)]
pub struct SendFut<M> {
    /// The node that sends it.
    pub src: NodeId,
    /// The node that it is for.
    pub dst: NodeId,
    /// What it carries, until it is sent.
    pub payload: Option<M>,
}

impl<M> SendFut<M> {
    /// Sends the message, the first time. A message that is dropped is sent as well.
    pub fn poll(&mut self, sim: &mut TaskSim<M>) -> (r: Polled<()>)
        requires
            old(sim)@.wf(),
        ensures
            final(sim)@.wf(),
            *final(self) == (SendFut { payload: None, ..*old(self) }),
            match old(self).payload {
                None => r == Polled::Ready(()) && final(sim)@ == old(sim)@,
                Some(payload) => match old(sim)@.posting(old(self).src, old(self).dst, payload) {
                    Some(after) => r == Polled::Ready(()) && final(sim)@ == after,
                    None => r == Polled::<()>::Overflow && final(sim)@ == old(sim)@,
                },
            },
    {
        match self.payload.take() {
            Some(payload) => {
                if !sim.try_inject(self.src, self.dst, payload) {
                    return Polled::Overflow;
                }
                Polled::Ready(())
            },
            None => Polled::Ready(()),
        }
    }
}

/// One of two values.
#[derive(Debug, Clone, Copy, PartialEq, Eq, Structural)]
pub enum Either<A, B> {
    /// The first.
    Left(A),
    /// The second.
    Right(B),
}

/// Two computations of which the one that is ready first is wanted.
#[derive(Debug)]
pub struct Select2<A, B> {
    /// The first computation.
    pub a: A,
    /// The second computation.
    pub b: B,
}

/// Pairs two computations of which the one that is ready first is wanted.
pub fn select2<A, B>(a: A, b: B) -> (s: Select2<A, B>)
    ensures
        s == (Select2 { a, b }),
{
    Select2 { a, b }
}

/// What becomes of two computations, of which the first was polled: it decides
/// unless it waits for something, and then the second one does.
pub open spec fn first_of<X, Y>(a: Polled<X>, b: Polled<Y>) -> Polled<Either<X, Y>> {
    match a {
        Polled::Ready(x) => Polled::Ready(Either::Left(x)),
        Polled::Overflow => Polled::Overflow,
        Polled::Pending => match b {
            Polled::Ready(y) => Polled::Ready(Either::Right(y)),
            Polled::Overflow => Polled::Overflow,
            Polled::Pending => Polled::Pending,
        },
    }
}

impl<A, B> Select2<A, B> {
    /// Polls the two computations, the first before the second. The second is left
    /// alone unless the first waits for something.
    pub fn poll_with<X, Y, FA, FB>(&mut self, poll_a: FA, poll_b: FB) -> (r: Polled<
        Either<X, Y>,
    >) where FA: FnOnce(&mut A) -> Polled<X>, FB: FnOnce(&mut B) -> Polled<Y>
        requires
            forall|a: &mut A| *a == old(self).a ==> #[trigger] call_requires(poll_a, (a,)),
            forall|b: &mut B| *b == old(self).b ==> #[trigger] call_requires(poll_b, (b,)),
        ensures
            exists|a: &mut A, first: Polled<X>, second: Polled<Y>|
                {
                    &&& *a == old(self).a && *final(a) == final(self).a
                    &&& #[trigger] call_ensures(poll_a, (a,), first)
                    &&& r == #[trigger] first_of(first, second)
                    &&& if first is Pending {
                        exists|b: &mut B|
                            *b == old(self).b && *final(b) == final(self).b
                                && #[trigger] call_ensures(poll_b, (b,), second)
                    } else {
                        final(self).b == old(self).b
                    }
                },
    {
        let ghost fa = poll_a;
        let ghost fb = poll_b;
        let first = poll_a(&mut self.a);
        let ghost polled = first;
        assert(exists|a: &mut A|
            *a == old(self).a && *final(a) == self.a && #[trigger] call_ensures(fa, (a,), polled));
        match first {
            Polled::Ready(x) => {
                assert(first_of(polled, Polled::<Y>::Pending) == Polled::Ready(
                    Either::<X, Y>::Left(x),
                ));
                Polled::Ready(Either::Left(x))
            },
            Polled::Overflow => {
                assert(first_of(polled, Polled::<Y>::Pending) == Polled::<Either<X, Y>>::Overflow);
                Polled::Overflow
            },
            Polled::Pending => {
                let second = poll_b(&mut self.b);
                let ghost answered = second;
                assert(exists|b: &mut B|
                    *b == old(self).b && *final(b) == self.b && #[trigger] call_ensures(
                        fb,
                        (b,),
                        answered,
                    ));
                let r = match second {
                    Polled::Ready(y) => Polled::Ready(Either::Right(y)),
                    Polled::Overflow => Polled::Overflow,
                    Polled::Pending => Polled::Pending,
                };
                assert(r == first_of(polled, answered));
                r
            },
        }
    }
}

/// What the task of a node works with: the node and the task itself. The
/// operations of a task take the simulation that it is part of.
#[derive(Debug, Clone, Copy, PartialEq, Eq, Structural)]
pub struct NodeContext {
    /// The node.
    pub node_id: NodeId,
    /// The task.
    pub task_id: TaskId,
}

/// What the tasks of the first `n` nodes work with.
pub open spec fn contexts_of(n: nat) -> Seq<NodeContext> {
    Seq::new(
        n,
        |i: int| NodeContext { node_id: NodeId(i as u32), task_id: TaskId(i as u32) },
    )
}

/// What the tasks of the first `n` nodes work with.
pub(crate) fn node_contexts(n: usize) -> (contexts: Vec<NodeContext>)
    requires
        n <= u32::MAX,
    ensures
        contexts@ == contexts_of(n as nat),
{
    let mut contexts: Vec<NodeContext> = Vec::new();
    for i in 0..n
        invariant
            n <= u32::MAX,
            contexts.len() == i,
            forall|k: int|
                0 <= k < i ==> #[trigger] contexts@[k] == (NodeContext {
                    node_id: NodeId(k as u32),
                    task_id: TaskId(k as u32),
                }),
    {
        contexts.push(NodeContext { node_id: NodeId(i as u32), task_id: TaskId(i as u32) });
    }
    contexts
}

impl<M> TaskSim<M> {
    /// What the task of each node works with.
    pub fn contexts(&self) -> (contexts: Vec<NodeContext>)
        requires
            self@.wf(),
        ensures
            contexts@ == contexts_of(self@.graph.links.len()),
    {
        node_contexts(self.node_count())
    }
}

impl NodeContext {
    /// The node of the task.
    pub fn id(&self) -> (n: NodeId)
        ensures
            n == self.node_id,
    {
        self.node_id
    }

    /// The simulated time.
    pub fn now<M>(&self, sim: &TaskSim<M>) -> (t: Time)
        ensures
            t == sim@.now,
    {
        sim.now()
    }

    /// A token for the signal by which the tasks of the simulation are asked to stop.
    pub fn shutdown_token(&self) -> (t: CancellationToken)
        ensures
            t == CancellationToken,
    {
        CancellationToken
    }

    /// Sleeps for `duration` of simulated time.
    pub fn sleep<M>(&self, sim: &TaskSim<M>, duration: Duration) -> (s: Sleep)
        requires
            sim@.now.0 + duration.0 <= u64::MAX,
        ensures
            s == (Sleep {
                task_id: self.task_id,
                wake_time: Time((sim@.now.0 + duration.0) as u64),
                scheduled: false,
            }),
    {
        Sleep {
            task_id: self.task_id,
            wake_time: Time(sim.now().0 + duration.0),
            scheduled: false,
        }
    }

    /// Waits for the next message to the node of the task.
    pub fn recv(&self) -> (r: Recv)
        ensures
            r == (Recv { node_id: self.node_id }),
    {
        Recv { node_id: self.node_id }
    }

    /// Waits for the next message to the node of the task, for `timeout` of
    /// simulated time.
    pub fn recv_timeout<M>(&self, sim: &TaskSim<M>, timeout: Duration) -> (r: RecvTimeout)
        requires
            sim@.now.0 + timeout.0 <= u64::MAX,
        ensures
            r == (RecvTimeout {
                node_id: self.node_id,
                task_id: self.task_id,
                deadline: Time((sim@.now.0 + timeout.0) as u64),
                wake_scheduled: false,
            }),
    {
        RecvTimeout {
            node_id: self.node_id,
            task_id: self.task_id,
            deadline: Time(sim.now().0 + timeout.0),
            wake_scheduled: false,
        }
    }

    /// Sends a message to `dst`.
    pub fn send<M>(&self, dst: NodeId, payload: M) -> (s: SendFut<M>)
        ensures
            s == (SendFut { src: self.node_id, dst, payload: Some(payload) }),
    {
        SendFut { src: self.node_id, dst, payload: Some(payload) }
    }

    /// Whether `a` and `b` are partitioned from each other.
    pub fn is_partitioned<M>(&self, sim: &TaskSim<M>, a: NodeId, b: NodeId) -> (r: bool)
        ensures
            r == sim@.partitioned(a, b),
    {
        sim.is_partitioned(a, b)
    }

    /// Whether the edges between `a` and `b` have failed in both directions.
    pub fn is_link_failed<M>(&self, sim: &TaskSim<M>, a: NodeId, b: NodeId) -> (r: bool)
        ensures
            r == (sim@.graph.failed_links.contains((a, b)) && sim@.graph.failed_links.contains(
                (b, a),
            )),
    {
        sim.is_link_failed(a, b)
    }

    /// Whether the directed edge from `src` to `dst` has failed.
    pub fn is_link_failed_directed<M>(&self, sim: &TaskSim<M>, src: NodeId, dst: NodeId) -> (r:
        bool)
        ensures
            r == sim@.graph.failed_links.contains((src, dst)),
    {
        sim.is_link_failed_directed(src, dst)
    }

    /// Whether `node` has failed.
    pub fn is_node_failed<M>(&self, sim: &TaskSim<M>, node: NodeId) -> (r: bool)
        ensures
            r == sim@.graph.failed_nodes.contains(node),
    {
        sim.is_node_failed(node)
    }

    /// Partitions `a` and `b` from each other: messages between them are dropped.
    pub fn partition<M>(&self, sim: &mut TaskSim<M>, a: NodeId, b: NodeId)
        requires
            old(sim)@.wf(),
            old(sim)@.applying(FailureAction::Partition(a, b)) is Some,
        ensures
            Some(final(sim)@) == old(sim)@.applying(FailureAction::Partition(a, b)),
            final(sim)@.wf(),
    {
        sim.partition(a, b);
    }

    /// Lifts the partition between `a` and `b`.
    pub fn heal<M>(&self, sim: &mut TaskSim<M>, a: NodeId, b: NodeId)
        requires
            old(sim)@.wf(),
        ensures
            final(sim)@ == old(sim)@.changed(FailureAction::Heal(a, b)),
            final(sim)@.wf(),
    {
        sim.heal(a, b);
    }

    /// Fails the edges between `a` and `b` in both directions.
    pub fn fail_link<M>(&self, sim: &mut TaskSim<M>, a: NodeId, b: NodeId)
        requires
            old(sim)@.wf(),
            old(sim)@.applying(FailureAction::FailLink(a, b)) is Some,
        ensures
            Some(final(sim)@) == old(sim)@.applying(FailureAction::FailLink(a, b)),
            final(sim)@.wf(),
    {
        sim.fail_link(a, b);
    }

    /// Restores the edges between `a` and `b` in both directions.
    pub fn heal_link<M>(&self, sim: &mut TaskSim<M>, a: NodeId, b: NodeId)
        requires
            old(sim)@.wf(),
        ensures
            final(sim)@ == old(sim)@.changed(FailureAction::HealLink(a, b)),
            final(sim)@.wf(),
    {
        sim.heal_link(a, b);
    }

    /// Fails the directed edge from `src` to `dst`.
    pub fn fail_link_directed<M>(&self, sim: &mut TaskSim<M>, src: NodeId, dst: NodeId)
        requires
            old(sim)@.wf(),
            old(sim)@.applying(FailureAction::FailLinkDirected(src, dst)) is Some,
        ensures
            Some(final(sim)@) == old(sim)@.applying(FailureAction::FailLinkDirected(src, dst)),
            final(sim)@.wf(),
    {
        sim.fail_link_directed(src, dst);
    }

    /// Restores the directed edge from `src` to `dst`.
    pub fn heal_link_directed<M>(&self, sim: &mut TaskSim<M>, src: NodeId, dst: NodeId)
        requires
            old(sim)@.wf(),
        ensures
            final(sim)@ == old(sim)@.changed(FailureAction::HealLinkDirected(src, dst)),
            final(sim)@.wf(),
    {
        sim.heal_link_directed(src, dst);
    }

    /// Fails `node`: no route starts, ends or passes there.
    pub fn fail_node<M>(&self, sim: &mut TaskSim<M>, node: NodeId)
        requires
            old(sim)@.wf(),
            old(sim)@.applying(FailureAction::FailNode(node)) is Some,
        ensures
            Some(final(sim)@) == old(sim)@.applying(FailureAction::FailNode(node)),
            final(sim)@.wf(),
    {
        sim.fail_node(node);
    }

    /// Restores `node`.
    pub fn heal_node<M>(&self, sim: &mut TaskSim<M>, node: NodeId)
        requires
            old(sim)@.wf(),
        ensures
            final(sim)@ == old(sim)@.changed(FailureAction::HealNode(node)),
            final(sim)@.wf(),
    {
        sim.heal_node(node);
    }
}

} // verus!
