//! Admission policies of links with a buffer.

use vstd::arithmetic::power2::pow2;
use vstd::prelude::*;

use crate::net::ramp::{lemma_part_below_one, lemma_part_bound, lemma_part_monotone, Fraction};
use crate::rng::{Probability, RngState, SimRng};

verus! {

/// How a congested link decides on an incoming message.
#[derive(Debug, Clone, Copy, PartialEq, Eq, Structural)]
pub enum DropPolicy {
    /// Admit every message that fits into the buffer.
    TailDrop,
    /// Random early detection: below `min_bytes` of pending work never drop;
    /// from there on drop with a probability that grows linearly from zero at
    /// `min_bytes` to `max_prob` at `max_bytes`; at or above `max_bytes` always
    /// drop. The buffer's own limit applies as well.
    RandomEarlyDetection {
        /// Pending bytes below which no message is dropped.
        min_bytes: u64,
        /// Pending bytes from which on every message is dropped.
        max_bytes: u64,
        /// The probability that the ramp reaches at `max_bytes`.
        max_prob: Fraction,
    },
}

/// The probability of `parts` out of 2^64.
pub open spec fn chance_of(parts: nat) -> Probability {
    if parts < 0x1_0000_0000_0000_0000 {
        Probability::Parts(parts as u64)
    } else {
        Probability::Always
    }
}

impl DropPolicy {
    /// Creates a policy of random early detection for a link whose buffer
    /// holds `buffer_bytes`.
    pub fn red(min_bytes: u64, max_bytes: u64, buffer_bytes: u64, max_prob: Fraction) -> (p:
        DropPolicy)
        requires
            min_bytes <= max_bytes <= buffer_bytes,
        ensures
            p == (DropPolicy::RandomEarlyDetection { min_bytes, max_bytes, max_prob }),
    {
        DropPolicy::RandomEarlyDetection { min_bytes, max_bytes, max_prob }
    }

    /// The probability with which the policy drops a message that finds
    /// `pending` bytes waiting. On the ramp it is the part of `max_prob` that the bytes
    /// above `min_bytes` are of the whole ramp, to the precision of [`Fraction::part`].
    pub open spec fn chance(self, pending: u64) -> Probability {
        match self {
            DropPolicy::TailDrop => Probability::Never,
            DropPolicy::RandomEarlyDetection { min_bytes, max_bytes, max_prob } => {
                if pending >= max_bytes {
                    Probability::Always
                } else if pending < min_bytes {
                    Probability::Never
                } else {
                    chance_of(
                        max_prob.part(
                            (pending - min_bytes) as nat,
                            (max_bytes - min_bytes) as nat,
                        ),
                    )
                }
            },
        }
    }

    /// Whether the policy drops a message that finds `pending` bytes waiting,
    /// and the generator's state after deciding it. Only the ramp takes a draw, one
    /// for each message, at its very start as well.
    pub open spec fn drops(self, pending: u64, rng: RngState) -> (bool, RngState) {
        if self.chance(pending) is Never {
            (false, rng)
        } else {
            rng.toss(self.chance(pending))
        }
    }

    /// Computes the probability with which the policy drops a message that
    /// finds `pending` bytes waiting.
    pub fn drop_chance(self, pending: u64) -> (p: Probability)
        ensures
            p == self.chance(pending),
    {
        match self {
            DropPolicy::TailDrop => Probability::Never,
            DropPolicy::RandomEarlyDetection { min_bytes, max_bytes, max_prob } => {
                if pending >= max_bytes {
                    return Probability::Always;
                }
                if pending < min_bytes {
                    return Probability::Never;
                }
                let parts: u128 = max_prob.part_of(pending - min_bytes, max_bytes - min_bytes);
                if parts < 0x1_0000_0000_0000_0000 {
                    Probability::Parts(parts as u64)
                } else {
                    Probability::Always
                }
            },
        }
    }
}

impl Default for DropPolicy {
    fn default() -> (p: DropPolicy)
        ensures
            p is TailDrop,
    {
        DropPolicy::TailDrop
    }
}

/// Decides whether the policy drops a message that finds `pending` bytes
/// waiting. The limit of the buffer is not part of the decision.
pub fn policy_wants_drop(policy: DropPolicy, pending: u64, rng: &mut SimRng) -> (r: bool)
    ensures
        (r, final(rng)@) == policy.drops(pending, old(rng)@),
{
    match policy.drop_chance(pending) {
        Probability::Never => false,
        chance => rng.bool(chance),
    }
}

/// Random early detection admits whatever finds less than `min_bytes` waiting,
/// unless that already reaches `max_bytes`, and drops whatever finds
/// `max_bytes` or more waiting; neither takes a draw.
pub proof fn red_is_certain_outside_the_ramp(
    min_bytes: u64,
    max_bytes: u64,
    max_prob: Fraction,
    pending: u64,
    rng: RngState,
)
    ensures
        ({
            let policy = DropPolicy::RandomEarlyDetection { min_bytes, max_bytes, max_prob };
            &&& pending >= max_bytes ==> policy.drops(pending, rng) == (true, rng)
            &&& pending < max_bytes && pending < min_bytes ==> policy.drops(pending, rng) == (
                false,
                rng,
            )
        }),
{
}

/// On the ramp random early detection takes one draw for each message, and where it
/// starts it admits every one. Only a ramp to certainty that is longer than 2^53 bytes may be
/// certain before its end.
pub proof fn red_draws_once_on_the_ramp(
    min_bytes: u64,
    max_bytes: u64,
    max_prob: Fraction,
    pending: u64,
    rng: RngState,
)
    requires
        max_prob.valid(),
        min_bytes <= pending < max_bytes,
    ensures
        ({
            let policy = DropPolicy::RandomEarlyDetection { min_bytes, max_bytes, max_prob };
            &&& policy.chance(pending) is Parts ==> policy.drops(pending, rng).1
                == rng.next_bits().1
            &&& policy.chance(pending) !is Parts ==> max_prob.is_one() && max_bytes - min_bytes
                > 0x20_0000_0000_0000 && policy.drops(pending, rng) == (true, rng)
            &&& pending == min_bytes ==> !policy.drops(pending, rng).0
        }),
{
    let over = (pending - min_bytes) as nat;
    let span = (max_bytes - min_bytes) as nat;
    vstd::arithmetic::power2::lemma2_to64();
    if !max_prob.is_one() || span <= 0x20_0000_0000_0000 {
        lemma_part_below_one(max_prob, over, span);
    }
    if pending == min_bytes {
        crate::net::ramp::lemma_part_of_nothing(max_prob, span);
    }
}

/// On the ramp the probability stays within `max_prob`, in parts out of 2^64.
pub proof fn red_stays_within_its_largest_probability(
    min_bytes: u64,
    max_bytes: u64,
    max_prob: Fraction,
    pending: u64,
)
    requires
        max_prob.valid(),
        min_bytes <= pending < max_bytes,
    ensures
        ({
            let policy = DropPolicy::RandomEarlyDetection { min_bytes, max_bytes, max_prob };
            policy.chance(pending) matches Probability::Parts(parts) ==> parts
                <= max_prob.mantissa() * pow2(64) / pow2(max_prob.places())
        }),
{
    lemma_part_bound(
        max_prob,
        (pending - min_bytes) as nat,
        (max_bytes - min_bytes) as nat,
    );
}

/// The more bytes wait, the likelier a message is dropped: random bits that
/// drop a message also drop one that finds more waiting.
pub proof fn red_chance_grows(
    min_bytes: u64,
    max_bytes: u64,
    max_prob: Fraction,
    fewer: u64,
    more: u64,
    bits: u64,
)
    requires
        fewer <= more,
    ensures
        ({
            let policy = DropPolicy::RandomEarlyDetection { min_bytes, max_bytes, max_prob };
            policy.chance(fewer).hits(bits) ==> policy.chance(more).hits(bits)
        }),
{
    if min_bytes <= fewer && more < max_bytes {
        lemma_part_monotone(
            max_prob,
            (fewer - min_bytes) as nat,
            (more - min_bytes) as nat,
            (max_bytes - min_bytes) as nat,
        );
    }
}

} // verus!
