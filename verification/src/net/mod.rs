//! Network simulation: topology, routing, latency models and message delivery.

pub mod conduct;
pub mod conservation;
pub mod consistency;
pub mod delivery;
pub mod fabric;
pub mod graph;
pub mod latency;
pub mod laws;
pub mod message;
pub mod models;
pub mod network;
pub mod node;
pub mod operations;
pub mod pairs;
pub mod policy;
pub mod ramp;
pub mod routing;
pub mod rounding;
pub mod run;
pub mod shapes;
pub mod topology;
pub mod traced;
pub mod ways;

pub use traced::{NetTraceDropReason, NetTraceEvent, TracedNetwork};
pub use topology::{Topology, TopologyBuilder};
pub use network::Network;
pub use run::RunContext;
pub use policy::DropPolicy;
pub use ramp::Fraction;
pub use latency::{FixedLatency, LatencyModel, OverheadPlusJitter, SpikyLatency, UniformJitter};
pub use message::{DropReason, Message, NetConfig, NetEvent, NetworkStats};
pub use graph::{Link, Route};
pub use node::{MessageId, NodeId};
