//! Latency and jitter models.

use vstd::prelude::*;

use crate::rng::{Probability, RngState, SimRng};
use crate::time::{saturated, Duration};

verus! {

/// A model that computes the latency of a message from the latency of its route.
/// What it computes is a function of the model, of the route's latency and of
/// the state of the generator.
pub trait LatencyModel: Sized {
    /// Whether the model computes a latency for a route of latency `base` with the
    /// generator in the given state: for every route, unless the model says otherwise.
    open spec fn admits(&self, base: Duration, rng: RngState) -> bool {
        true
    }

    /// The latency, the model after computing it, and the generator's state
    /// after computing it: the latency of the route, unless the model says
    /// otherwise.
    open spec fn computed(&self, base: Duration, rng: RngState) -> (Duration, Self, RngState) {
        (base, *self, rng)
    }

    /// Looks ahead: the generator as computing a latency for a route of latency `base`
    /// would leave it, or nothing where the model computes none.
    fn foresee(&self, base: Duration, rng: &SimRng) -> (r: Option<SimRng>)
        ensures
            match r {
                Some(after) => self.admits(base, rng@) && after@ == self.computed(base, rng@).2,
                None => !self.admits(base, rng@),
            },
    ;

    /// Computes the latency of a message on a route of the given latency.
    fn compute(&mut self, base_latency: Duration, rng: &mut SimRng) -> (d: Duration)
        requires
            old(self).admits(base_latency, old(rng)@),
        ensures
            (d, *final(self), final(rng)@) == old(self).computed(base_latency, old(rng)@),
    ;
}

/// The latency of the route, unchanged.
#[derive(Debug, Clone, Copy, PartialEq, Eq, Structural)]
pub struct FixedLatency;

impl Default for FixedLatency {
    fn default() -> (m: FixedLatency)
        ensures
            m == FixedLatency,
    {
        FixedLatency
    }
}

impl LatencyModel for FixedLatency {
    open spec fn admits(&self, base: Duration, rng: RngState) -> bool {
        true
    }

    open spec fn computed(&self, base: Duration, rng: RngState) -> (Duration, Self, RngState) {
        (base, *self, rng)
    }

    fn foresee(&self, base: Duration, rng: &SimRng) -> (r: Option<SimRng>) {
        Some(rng.clone())
    }

    fn compute(&mut self, base_latency: Duration, rng: &mut SimRng) -> (d: Duration) {
        base_latency
    }
}

/// The latency of the route plus or minus a uniformly distributed offset, but
/// not below zero.
#[derive(Debug, Clone, Copy, PartialEq, Eq, Structural)]
pub struct UniformJitter {
    /// The largest offset.
    pub max_jitter: Duration,
}

impl UniformJitter {
    /// Creates a model with the given largest offset.
    pub fn new(max_jitter: Duration) -> (m: UniformJitter)
        ensures
            m == (UniformJitter { max_jitter }),
    {
        UniformJitter { max_jitter }
    }
}

impl LatencyModel for UniformJitter {
    open spec fn admits(&self, base: Duration, rng: RngState) -> bool {
        rng.can_jitter(base, self.max_jitter)
    }

    open spec fn computed(&self, base: Duration, rng: RngState) -> (Duration, Self, RngState) {
        let (d, after) = rng.jittered(base, self.max_jitter);
        (d, *self, after)
    }

    fn foresee(&self, base: Duration, rng: &SimRng) -> (r: Option<SimRng>) {
        if rng.can_jitter(base, self.max_jitter) {
            let mut after: SimRng = rng.clone();
            after.duration_with_jitter(base, self.max_jitter);
            Some(after)
        } else {
            None
        }
    }

    fn compute(&mut self, base_latency: Duration, rng: &mut SimRng) -> (d: Duration)
        ensures
            base_latency.0 - old(self).max_jitter.0 <= d.0 <= base_latency.0
                + old(self).max_jitter.0,
    {
        rng.duration_with_jitter(base_latency, self.max_jitter)
    }
}

/// A fixed overhead on every message, plus or minus a uniformly distributed
/// offset.
#[derive(Debug, Clone, Copy, PartialEq, Eq, Structural)]
pub struct OverheadPlusJitter {
    /// What is added to every message.
    pub overhead: Duration,
    /// The largest offset.
    pub max_jitter: Duration,
}

impl OverheadPlusJitter {
    /// Creates a model with the given overhead and largest offset.
    pub fn new(overhead: Duration, max_jitter: Duration) -> (m: OverheadPlusJitter)
        ensures
            m == (OverheadPlusJitter { overhead, max_jitter }),
    {
        OverheadPlusJitter { overhead, max_jitter }
    }
}

impl LatencyModel for OverheadPlusJitter {
    open spec fn admits(&self, base: Duration, rng: RngState) -> bool {
        rng.can_jitter(Duration(saturated(base.0 + self.overhead.0)), self.max_jitter)
    }

    open spec fn computed(&self, base: Duration, rng: RngState) -> (Duration, Self, RngState) {
        let (d, after) = rng.jittered(
            Duration(saturated(base.0 + self.overhead.0)),
            self.max_jitter,
        );
        (d, *self, after)
    }

    fn foresee(&self, base: Duration, rng: &SimRng) -> (r: Option<SimRng>) {
        let sum: Duration = base.saturating_add(self.overhead);
        if rng.can_jitter(sum, self.max_jitter) {
            let mut after: SimRng = rng.clone();
            after.duration_with_jitter(sum, self.max_jitter);
            Some(after)
        } else {
            None
        }
    }

    fn compute(&mut self, base_latency: Duration, rng: &mut SimRng) -> (d: Duration)
        ensures
            base_latency.0 + old(self).overhead.0 - old(self).max_jitter.0 <= d.0
                <= base_latency.0 + old(self).overhead.0 + old(self).max_jitter.0,
    {
        let base: Duration = base_latency.saturating_add(self.overhead);
        rng.duration_with_jitter(base, self.max_jitter)
    }
}

/// Another model with occasional spikes on top.
#[derive(Debug, Clone, Copy)]
pub struct SpikyLatency<L: LatencyModel> {
    /// The model under the spikes.
    pub inner: L,
    /// The probability of a spike.
    pub spike_probability: Probability,
    /// The longest spike.
    pub spike_max: Duration,
}

impl<L: LatencyModel> SpikyLatency<L> {
    /// Creates a model with spikes on top of `inner`.
    pub fn new(inner: L, spike_probability: Probability, spike_max: Duration) -> (m: Self)
        ensures
            m == (SpikyLatency { inner, spike_probability, spike_max }),
    {
        SpikyLatency { inner, spike_probability, spike_max }
    }

    /// Whether a spike is possible at all; only then is there a draw for it.
    pub open spec fn can_spike(&self) -> bool {
        self.spike_probability !is Never && self.spike_max.0 > 0
    }
}

impl<L: LatencyModel> LatencyModel for SpikyLatency<L> {
    open spec fn admits(&self, base: Duration, rng: RngState) -> bool {
        &&& self.inner.admits(base, rng)
        // the length of a spike is drawn from one more than the longest
        &&& self.can_spike() && self.inner.computed(base, rng).2.toss(self.spike_probability).0
            ==> self.spike_max.0 < u64::MAX
    }

    open spec fn computed(&self, base: Duration, rng: RngState) -> (Duration, Self, RngState) {
        let (d, inner, rng1) = self.inner.computed(base, rng);
        let model = SpikyLatency { inner, ..*self };
        if self.can_spike() {
            let (spikes, rng2) = rng1.toss(self.spike_probability);
            if spikes {
                let (spike, rng3) = rng2.within(0, (self.spike_max.0 + 1) as u64);
                (Duration(saturated(d.0 + spike)), model, rng3)
            } else {
                (d, model, rng2)
            }
        } else {
            (d, model, rng1)
        }
    }

    fn foresee(&self, base: Duration, rng: &SimRng) -> (r: Option<SimRng>) {
        match self.inner.foresee(base, rng) {
            Some(inner_after) => {
                let mut after: SimRng = inner_after;
                let can_spike: bool = match self.spike_probability {
                    Probability::Never => false,
                    _ => self.spike_max.0 > 0,
                };
                if can_spike && after.bool(self.spike_probability) {
                    if self.spike_max.0 == u64::MAX {
                        return None;
                    }
                    after.u64(self.spike_max.0 + 1);
                }
                Some(after)
            },
            None => None,
        }
    }

    fn compute(&mut self, base_latency: Duration, rng: &mut SimRng) -> (d: Duration)
        ensures
            ({
                let inner = old(self).inner.computed(base_latency, old(rng)@).0;
                inner.0 <= d.0 <= inner.0 + old(self).spike_max.0
            }),
    {
        let base: Duration = self.inner.compute(base_latency, rng);
        let can_spike: bool = match self.spike_probability {
            Probability::Never => false,
            _ => self.spike_max.0 > 0,
        };
        if can_spike && rng.bool(self.spike_probability) {
            let spike: u64 = rng.u64(self.spike_max.0 + 1);
            base.saturating_add(Duration(spike))
        } else {
            base
        }
    }
}

} // verus!
