//! What latency models do to the latency of a route.

use vstd::prelude::*;

use crate::draws::{comes_about, drawn_offset, moved, past};
use crate::net::latency::{
    FixedLatency, LatencyModel, OverheadPlusJitter, SpikyLatency, UniformJitter,
};
use crate::rng::{chacha8_u64_range, Probability, RngState};
use crate::time::Duration;

verus! {

/// A fixed latency is the latency of the route, for every route, and takes no draw.
pub proof fn fixed_latency_adds_nothing(base: Duration, rng: RngState)
    ensures
        FixedLatency.admits(base, rng),
        FixedLatency.computed(base, rng).0 == base,
        FixedLatency.computed(base, rng).2 == rng,
{
}

/// Uniform jitter moves the latency of the route by the offset that is drawn for it, but not
/// below zero, and leaves the model as it is. It is refused only where it is not representable.
pub proof fn uniform_jitter_moves_the_latency(model: UniformJitter, base: Duration, rng: RngState)
    ensures
        ({
            let (offset, after) = drawn_offset(rng, model.max_jitter);
            let (d, same, left) = model.computed(base, rng);
            &&& model.admits(base, rng) <==> base.0 <= i64::MAX && model.max_jitter.0 <= i64::MAX
                && base.0 + offset <= i64::MAX
            &&& model.admits(base, rng) ==> moved(base, offset, d)
            &&& same == model
            &&& left == after
        }),
{
}

/// An overhead comes on top of the latency of every route, and the jitter moves the sum.
pub proof fn overheads_come_on_top(model: OverheadPlusJitter, base: Duration, rng: RngState)
    ensures
        ({
            let (offset, after) = drawn_offset(rng, model.max_jitter);
            let (d, same, left) = model.computed(base, rng);
            let sum = base.0 + model.overhead.0;
            &&& model.admits(base, rng) <==> sum <= i64::MAX && model.max_jitter.0 <= i64::MAX
                && sum + offset <= i64::MAX
            &&& model.admits(base, rng) ==> moved(Duration(sum as u64), offset, d)
            &&& same == model
            &&& left == after
        }),
{
}

/// A spike comes on top of what the model under it computes, as often as its probability says,
/// and is any length up to the longest. Without a spike the latency is that of the model under
/// it. Where no spike is possible no draw is taken for one.
pub proof fn spikes_come_on_top<L: LatencyModel>(
    model: SpikyLatency<L>,
    base: Duration,
    rng: RngState,
)
    ensures
        ({
            let (d0, inner, rng0) = model.inner.computed(base, rng);
            let (d, same, left) = model.computed(base, rng);
            let possible = model.spike_probability !is Never && model.spike_max.0 > 0;
            let spikes = possible && comes_about(model.spike_probability, rng0);
            let rng1 = if possible {
                past(model.spike_probability, rng0)
            } else {
                rng0
            };
            &&& model.admits(base, rng) <==> model.inner.admits(base, rng) && (spikes
                ==> model.spike_max.0 < u64::MAX)
            &&& same.inner == inner
            &&& same.spike_probability == model.spike_probability
            &&& same.spike_max == model.spike_max
            &&& !spikes ==> d == d0 && left == rng1
            &&& spikes && model.spike_max.0 < u64::MAX ==> {
                let (length, pos) = chacha8_u64_range(
                    rng1.key,
                    rng1.word_pos,
                    0,
                    (model.spike_max.0 + 1) as u64,
                );
                &&& d.0 == (if d0.0 + length <= u64::MAX {
                    d0.0 + length
                } else {
                    u64::MAX as int
                })
                &&& left.key == rng1.key
                &&& left.word_pos == pos
            }
        }),
{
}

/// A model has the parameters with which it is made.
pub proof fn models_are_made_as_told<L: LatencyModel>(
    max_jitter: Duration,
    overhead: Duration,
    inner: L,
    spike_probability: Probability,
    spike_max: Duration,
    u: UniformJitter,
    o: OverheadPlusJitter,
    s: SpikyLatency<L>,
)
    requires
        call_ensures(UniformJitter::new, (max_jitter,), u),
        call_ensures(OverheadPlusJitter::new, (overhead, max_jitter), o),
        call_ensures(SpikyLatency::<L>::new, (inner, spike_probability, spike_max), s),
    ensures
        u.max_jitter == max_jitter,
        o.overhead == overhead,
        o.max_jitter == max_jitter,
        s.inner == inner,
        s.spike_probability == spike_probability,
        s.spike_max == spike_max,
{
}

} // verus!
