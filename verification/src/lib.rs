//! Deterministic discrete-event simulation of message flow across computer networks.

pub mod draws;
pub mod figures;
pub mod net;
pub mod order;
pub mod parallel;
pub mod queue;
pub mod records;
pub mod rng;
pub mod scenario;
pub mod sim;
pub mod task;
pub mod text;
pub mod time;
pub mod trace;

pub use net::{
    DropPolicy, DropReason, FixedLatency, Fraction, LatencyModel, Message, MessageId, NetConfig,
    NetEvent, NetTraceDropReason, NetTraceEvent, Network, NetworkStats, NodeId, OverheadPlusJitter, Route,
    RunContext, SpikyLatency, Topology, TopologyBuilder, TracedNetwork, UniformJitter,
};
pub use queue::{EventQueue, Scheduled};
pub use rng::{Probability, SimRng};
pub use scenario::Scenario;
pub use sim::{Simulation, SimulationStats};
pub use task::{
    select2, CancellationToken, Either, Envelope, FailureAction, NodeContext, Select2, TaskSim,
    TaskSimBuilder, TaskSimStats, TaskTraceDropReason, TaskTraceEvent,
};
pub use time::{Duration, Time};
pub use trace::{
    ReplayError, Trace, TraceEvent, TraceLoadError, TraceMismatch, TraceRecorder, TRACE_SCHEMA_VERSION,
};
