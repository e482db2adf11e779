//! How exact the chances on a ramp are.

use vstd::arithmetic::div_mod::{lemma_fundamental_div_mod, lemma_mod_bound};
use vstd::arithmetic::power2::{lemma2_to64, lemma_pow2_pos, lemma_pow2_unfold, pow2};
use vstd::prelude::*;

use crate::net::policy::{chance_of, DropPolicy};
use crate::net::ramp::{
    bit_places, coarse, grain, lemma_scale, lemma_scale_is_a_power, odd_part, quotient, rounded,
    scale, significand, stands_for_a_fraction, Fraction,
};
use crate::rng::Probability;

verus! {

/// Whether `q` is a whole number nearest to `n / d`, and an even one if two are equally near.
pub open spec fn is_nearest(q: nat, n: nat, d: nat) -> bool {
    let off = q * d - n;
    &&& -d <= 2 * off <= d
    &&& 2 * off == d || 2 * off == -d ==> q % 2 == 0
}

/// Rounding gives the nearest whole number, and the even one of two that are equally near.
pub proof fn rounding_is_to_the_nearest(n: nat, d: nat)
    requires
        d > 0,
    ensures
        is_nearest(rounded(n, d), n, d),
{
    lemma_fundamental_div_mod(n as int, d as int);
    lemma_mod_bound(n as int, d as int);
    let down = n / d;
    let rest = n % d;
    assert(down * d == d * down) by (nonlinear_arith);
    assert((down + 1) * d == d * down + d) by (nonlinear_arith);
}

/// A number is rounded to the nearest multiple of a power of two of which it has at least 2^52
/// and fewer than 2^53; a number below 2^53 stays as it is. `j` is the power.
pub proof fn numbers_keep_53_bits(n: nat) -> (j: nat)
    ensures
        coarse(n) == rounded(n, pow2(j)) * pow2(j),
        is_nearest(rounded(n, pow2(j)), n, pow2(j)),
        n < 0x20_0000_0000_0000 * pow2(j),
        j > 0 ==> 0x10_0000_0000_0000 * pow2(j) <= n,
        n < 0x20_0000_0000_0000 ==> coarse(n) == n,
    decreases n,
{
    let j = lemma_grain_is_a_power(n);
    lemma_pow2_pos(j);
    rounding_is_to_the_nearest(n, pow2(j));
    if n < 0x20_0000_0000_0000 {
        assert(rounded(n, 1) == n);
    }
    j
}

proof fn lemma_grain_is_a_power(n: nat) -> (j: nat)
    ensures
        grain(n) == pow2(j),
        n < 0x20_0000_0000_0000 * pow2(j),
        j > 0 ==> 0x10_0000_0000_0000 * pow2(j) <= n,
    decreases n,
{
    lemma2_to64();
    if n < 0x20_0000_0000_0000 {
        0
    } else {
        let i = lemma_grain_is_a_power(n / 2);
        lemma_pow2_unfold(i + 1);
        i + 1
    }
}

/// A quotient is rounded to the nearest multiple of one part in a power of two of which it has
/// at least 2^52 and, if it is below 2^52 itself, fewer than 2^53. `j` is the power.
pub proof fn quotients_keep_53_bits(a: nat, b: nat) -> (j: nat)
    requires
        a > 0,
        b > 0,
    ensures
        scale(a, b) == pow2(j),
        is_nearest(quotient(a, b), a * pow2(j), b),
        0x10_0000_0000_0000 * b <= a * pow2(j),
        j > 0 ==> a * pow2(j) < 0x20_0000_0000_0000 * b,
{
    let j = lemma_scale_is_a_power(a, b);
    lemma_scale(a, b);
    rounding_is_to_the_nearest(a * pow2(j), b);
    if j > 0 {
        lemma_pow2_unfold(j);
        lemma_pow2_pos((j - 1) as nat);
    }
    j
}

/// The part of a fraction is the number of whole parts out of 2^64 in the product of its
/// mantissa with the quotient, divided by its power of two: no more of them fit.
pub proof fn parts_are_counted_whole(f: Fraction, over: nat, span: nat)
    requires
        over > 0,
        span > 0,
        coarse(over) > 0,
        coarse(span) > 0,
    ensures
        ({
            let a = coarse(over);
            let b = coarse(span);
            let product = coarse(f.mantissa() * quotient(a, b)) * pow2(64);
            let whole = scale(a, b) * pow2(f.places());
            &&& f.part(over, span) * whole <= product
            &&& product < (f.part(over, span) + 1) * whole
        }),
{
    let a = coarse(over);
    let b = coarse(span);
    let product = coarse(f.mantissa() * quotient(a, b)) * pow2(64);
    let whole = scale(a, b) * pow2(f.places());
    lemma_scale(a, b);
    lemma_pow2_pos(f.places());
    assert(whole > 0) by (nonlinear_arith)
        requires
            whole == scale(a, b) * pow2(f.places()),
            scale(a, b) >= 1,
            pow2(f.places()) > 0,
    ;
    let w = product / whole;
    lemma_fundamental_div_mod(product as int, whole as int);
    lemma_mod_bound(product as int, whole as int);
    assert(w * whole == whole * w) by (nonlinear_arith);
    assert((w + 1) * whole == whole * w + whole) by (nonlinear_arith);
}

/// The chance to be dropped is none below the ramp and certain above it. On the ramp it is so
/// many parts out of 2^64: as many of the possible draws are below that number.
pub proof fn chances_follow_the_ramp(
    min_bytes: u64,
    max_bytes: u64,
    max_prob: Fraction,
    pending: u64,
    bits: u64,
)
    requires
        min_bytes <= max_bytes,
    ensures
        ({
            let red = DropPolicy::RandomEarlyDetection { min_bytes, max_bytes, max_prob };
            let over = (pending - min_bytes) as nat;
            let span = (max_bytes - min_bytes) as nat;
            &&& pending < min_bytes ==> red.chance(pending) is Never
            &&& pending >= max_bytes ==> red.chance(pending) is Always
            &&& min_bytes <= pending < max_bytes ==> {
                &&& !(red.chance(pending) is Never)
                &&& red.chance(pending).hits(bits) <==> bits < max_prob.part(over, span)
            }
            &&& DropPolicy::TailDrop.chance(pending) is Never
        }),
{
}

/// An event with a number of parts out of 2^64 happens exactly on that many of the possible
/// draws.
pub proof fn chances_count_draws(parts: nat, bits: u64)
    ensures
        chance_of(parts).hits(bits) <==> bits < parts,
        !(chance_of(parts) is Never),
        !Probability::Never.hits(bits),
        Probability::Always.hits(bits),
{
}

/// The odd part of a number is odd, and the number is its product with a power of two.
pub proof fn odd_parts_are_odd(n: nat) -> (j: nat)
    requires
        n > 0,
    ensures
        odd_part(n) % 2 == 1,
        n == odd_part(n) * pow2(j),
    decreases n,
{
    lemma2_to64();
    if n % 2 == 1 {
        assert(n * 1 == n);
        0
    } else {
        let i = odd_parts_are_odd(n / 2);
        lemma_pow2_unfold(i + 1);
        let o = odd_part(n / 2);
        let p = pow2(i);
        assert(n == o * (2 * p)) by (nonlinear_arith)
            requires
                n / 2 == o * p,
                n % 2 == 0,
        ;
        i + 1
    }
}

/// The bits of floating-point numbers are in the order of the numbers: from one to the next it
/// is one unit of the last place; 2^52 further on, among numbers of full precision, it is twice
/// the number; the smallest number is 1 / 2^1074.
pub proof fn bits_stand_for_numbers(bits: u64)
    requires
        0 < bits < 0x3ff0_0000_0000_0000,
    ensures
        significand(1) == 1,
        bit_places(1) == 1074,
        ({
            let next = (bits + 1) as u64;
            let same = bit_places(next) == bit_places(bits) && significand(next) == significand(
                bits,
            ) + 1;
            let halved = bit_places(next) + 1 == bit_places(bits) && 2 * significand(next)
                == significand(bits) + 1;
            same || halved
        }),
        0x10_0000_0000_0000 <= bits < 0x3fe0_0000_0000_0000 ==> {
            let twice = (bits + 0x10_0000_0000_0000) as u64;
            significand(twice) == significand(bits) && bit_places(twice) + 1 == bit_places(bits)
        },
        0x10_0000_0000_0000 <= bits ==> significand(bits) >= 0x10_0000_0000_0000,
        significand(bits) < 0x20_0000_0000_0000,
{
}

/// The numbers above zero and not above one are those with the bits from the smallest number to
/// one.
pub proof fn fractions_have_the_bits_up_to_one(bits: u64)
    ensures
        stands_for_a_fraction(bits) <==> 0 < bits <= 0x3ff0_0000_0000_0000,
        significand(0x3ff0_0000_0000_0000) == pow2(bit_places(0x3ff0_0000_0000_0000)),
{
    lemma2_to64();
    lemma2_to64_rest();
    let e = bits / 0x10_0000_0000_0000;
    if 0 < bits && e <= 1022 {
        assert(bit_places(bits) >= 53);
        if bit_places(bits) > 53 {
            vstd::arithmetic::power2::lemma_pow2_strictly_increases(53, bit_places(bits));
        }
    }
}

proof fn lemma2_to64_rest()
    ensures
        pow2(52) == 0x10_0000_0000_0000,
        pow2(53) == 0x20_0000_0000_0000,
{
    vstd::arithmetic::power2::lemma2_to64_rest();
}

} // verus!
