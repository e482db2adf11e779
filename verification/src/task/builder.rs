//! Setting up a task-based simulation.

use std::marker::PhantomData;

use vstd::prelude::*;

use crate::net::topology::Topology;
use crate::task::sim::TaskSim;
use crate::task::state::TaskState;

verus! {

/// A task-based simulation that is being set up.
#[derive(Debug)]
pub struct TaskSimBuilder<M> {
    /// The topology.
    pub topology: Topology,
    /// The seed.
    pub seed: u64,
    /// Whether a trace is recorded.
    pub trace_enabled: bool,
    /// Whether a failure drops the messages on their way that it strands.
    pub drops_in_flight: bool,
    /// What the messages carry.
    pub payload: PhantomData<M>,
}

impl<M> TaskSimBuilder<M> {
    /// Begins with a topology and a seed. No trace is recorded, and messages on
    /// their way outlive failures.
    pub fn new(topology: Topology, seed: u64) -> (b: TaskSimBuilder<M>)
        ensures
            b.topology == topology,
            b.seed == seed,
            !b.trace_enabled,
            !b.drops_in_flight,
    {
        TaskSimBuilder {
            topology,
            seed,
            trace_enabled: false,
            drops_in_flight: false,
            payload: PhantomData,
        }
    }

    /// Lets a failure drop the messages on their way that it strands.
    pub fn drop_in_flight_on_failure(self) -> (b: TaskSimBuilder<M>)
        ensures
            b == (TaskSimBuilder { drops_in_flight: true, ..self }),
    {
        TaskSimBuilder { drops_in_flight: true, ..self }
    }

    /// Records a trace.
    pub fn with_trace(self) -> (b: TaskSimBuilder<M>)
        ensures
            b == (TaskSimBuilder { trace_enabled: true, ..self }),
    {
        TaskSimBuilder { trace_enabled: true, ..self }
    }

    /// Sets the simulation up.
    pub fn build(self) -> (s: TaskSim<M>)
        ensures
            s@ == TaskState::<M>::initial(
                self.topology@,
                self.seed,
                self.trace_enabled,
                self.drops_in_flight,
            ),
            s@.wf(),
    {
        TaskSim::new(self.topology, self.seed, self.trace_enabled, self.drops_in_flight)
    }
}

} // verus!
