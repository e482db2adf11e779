//! The vocabulary of task-based simulations.

use vstd::prelude::*;
use vstd::std_specs::cmp::PartialEqSpecImpl;

use crate::net::node::NodeId;
use crate::time::Time;

verus! {

/// The identifier of a task.
#[derive(Debug, Clone, Copy, PartialEq, Eq, Structural, Hash)]
pub struct TaskId(pub u32);

/// A message in an inbox.
#[derive(Debug, Clone)]
pub struct Envelope<M> {
    /// The node that sent it.
    pub src: NodeId,
    /// The node that received it.
    pub dst: NodeId,
    /// What it carries.
    pub payload: M,
    /// When it was sent.
    pub sent_at: Time,
    /// When it was received.
    pub received_at: Time,
}

/// Why a message was dropped.
#[derive(Debug, Clone, Copy, PartialEq, Eq, Structural)]
pub enum TaskTraceDropReason {
    /// There was no route to the destination.
    NoRoute,
    /// Source and destination were partitioned from each other.
    Partitioned,
}

/// An event of a task-based simulation as a trace tells it.
#[derive(Debug, Clone, Copy)]
pub enum TaskTraceEvent {
    /// A message reached an inbox.
    Delivered {
        /// The node that sent it.
        src: u32,
        /// The node that received it.
        dst: u32,
    },
    /// A message was dropped.
    Dropped {
        /// The node that sent it.
        src: u32,
        /// The node that it was for.
        dst: u32,
        /// Why it was dropped.
        reason: TaskTraceDropReason,
    },
}

impl PartialEq for TaskTraceEvent {
    fn eq(&self, other: &TaskTraceEvent) -> (r: bool) {
        match (*self, *other) {
            (
                TaskTraceEvent::Delivered { src, dst },
                TaskTraceEvent::Delivered { src: its_src, dst: its_dst },
            ) => src == its_src && dst == its_dst,
            (
                TaskTraceEvent::Dropped { src, dst, reason },
                TaskTraceEvent::Dropped { src: its_src, dst: its_dst, reason: its_reason },
            ) => src == its_src && dst == its_dst && reason == its_reason,
            _ => false,
        }
    }
}

impl PartialEqSpecImpl for TaskTraceEvent {
    open spec fn obeys_eq_spec() -> bool {
        true
    }

    open spec fn eq_spec(&self, other: &TaskTraceEvent) -> bool {
        *self == *other
    }
}

impl Eq for TaskTraceEvent {

}

/// A failure or a repair that can be scheduled.
#[derive(Debug, Clone, Copy, PartialEq, Eq, Structural)]
pub enum FailureAction {
    /// Partition two nodes from each other.
    Partition(NodeId, NodeId),
    /// Lift the partition between two nodes.
    Heal(NodeId, NodeId),
    /// Fail the edges between two nodes in both directions.
    FailLink(NodeId, NodeId),
    /// Restore the edges between two nodes in both directions.
    HealLink(NodeId, NodeId),
    /// Fail a directed edge.
    FailLinkDirected(NodeId, NodeId),
    /// Restore a directed edge.
    HealLinkDirected(NodeId, NodeId),
    /// Fail a node.
    FailNode(NodeId),
    /// Restore a node.
    HealNode(NodeId),
}

impl FailureAction {
    /// Whether the action is a failure, which can strand messages on their way.
    pub open spec fn fails(self) -> bool {
        self is Partition || self is FailLink || self is FailLinkDirected || self is FailNode
    }

    /// Whether the action is a failure, which can strand messages on their way.
    pub fn is_failure(self) -> (r: bool)
        ensures
            r == self.fails(),
    {
        match self {
            FailureAction::Partition(_, _) => true,
            FailureAction::FailLink(_, _) => true,
            FailureAction::FailLinkDirected(_, _) => true,
            FailureAction::FailNode(_) => true,
            _ => false,
        }
    }
}

/// An event of a task-based simulation.
#[derive(Debug)]
pub enum TaskEvent<M> {
    /// A task is due to go on.
    Wake(TaskId),
    /// A message reaches its destination.
    Deliver {
        /// The node that sent it.
        src: NodeId,
        /// The node that it is for.
        dst: NodeId,
        /// What it carries.
        payload: M,
        /// When it was sent.
        sent_at: Time,
    },
    /// A failure or a repair takes effect.
    ApplyFailure(FailureAction),
}

/// The signal by which the tasks of a simulation are asked to stop. A simulation has one.
#[derive(Debug, Clone, Copy, PartialEq, Eq, Structural)]
pub struct Shutdown {
    /// Whether the signal was given.
    pub cancelled: bool,
}

/// A token for the signal by which the tasks of a simulation are asked to stop. The signal
/// itself stays with the simulation, so a token is as good as any copy of it and as any
/// other token of the same simulation.
#[derive(Debug, Clone, Copy, PartialEq, Eq, Structural)]
pub struct CancellationToken;

/// Figures about a task-based simulation run.
#[derive(Debug, Clone, Copy, PartialEq, Eq, Structural)]
pub struct TaskSimStats {
    /// The simulated time at the end of the run.
    pub final_time: Time,
    /// The number of events processed.
    pub events_processed: u64,
    /// The number of messages that reached an inbox.
    pub messages_delivered: u64,
    /// The number of polls of tasks.
    pub task_polls: u64,
    /// The number of tasks that were done during the run.
    pub tasks_completed: u64,
    /// The number of messages that were dropped.
    pub messages_dropped: u64,
}

impl Default for TaskSimStats {
    fn default() -> (s: TaskSimStats)
        ensures
            s == (TaskSimStats {
                final_time: Time(0),
                events_processed: 0,
                messages_delivered: 0,
                task_polls: 0,
                tasks_completed: 0,
                messages_dropped: 0,
            }),
    {
        TaskSimStats {
            final_time: Time(0),
            events_processed: 0,
            messages_delivered: 0,
            task_polls: 0,
            tasks_completed: 0,
            messages_dropped: 0,
        }
    }
}

} // verus!
