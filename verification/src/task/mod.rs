//! The kernel of task-based simulations.
//!
//! Each node of the topology runs one task. A task sleeps, sends and receives;
//! what it waits for is an event of the simulation or a message in its inbox.
//! This module holds the state that the tasks share, decides what each of their
//! operations does to it, and decides step by step how a run goes on: which
//! task to poll next, which event to process next, and when the run is over.
//! Polling the tasks themselves is left to the executor that drives the kernel.

pub mod builder;
pub mod conduct;
pub mod context;
pub mod course;
pub mod event;
pub mod laws;
pub mod operations;
pub mod run;
pub mod sim;
pub mod state;

pub use builder::TaskSimBuilder;
pub use context::{
    select2, Either, NodeContext, Polled, Recv, RecvTimeout, Select2, SendFut, Sleep,
};
pub use event::{
    CancellationToken, Envelope, FailureAction, Shutdown, TaskEvent, TaskId, TaskSimStats,
    TaskTraceDropReason, TaskTraceEvent,
};
pub use run::{Reply, Step, TaskRun};
pub use sim::TaskSim;
