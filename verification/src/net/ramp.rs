//! Ramps of probabilities in binary floating point: every intermediate result has 53
//! significant bits.

use vstd::arithmetic::power2::{lemma_pow2_adds, lemma_pow2_pos, lemma_pow2_unfold, pow2};
use vstd::prelude::*;

verus! {

/// `n / d` rounded to the nearest whole number, and halfway between two to the even one.
pub open spec fn rounded(n: nat, d: nat) -> nat {
    let down = n / d;
    if 2 * (n % d) < d || (2 * (n % d) == d && down % 2 == 0) {
        down
    } else {
        down + 1
    }
}

/// The power of two in multiples of which a whole number has at most 53 bits.
pub open spec fn grain(n: nat) -> nat
    decreases n,
{
    if n < 0x20_0000_0000_0000 {
        1
    } else {
        2 * grain(n / 2)
    }
}

/// A whole number rounded to 53 significant bits.
pub open spec fn coarse(n: nat) -> nat {
    rounded(n, grain(n)) * grain(n)
}

/// The power of two by which `a` is multiplied so that its quotient by `b` has 53 bits
/// before the point.
pub open spec fn scale(a: nat, b: nat) -> nat
    decreases 0x20_0000_0000_0000 * b - a,
{
    if a == 0 || a >= 0x10_0000_0000_0000 * b {
        1
    } else {
        2 * scale(2 * a, b)
    }
}

/// The quotient of `a` by `b`, rounded to 53 significant bits, as multiples of one part in
/// `scale(a, b)`.
pub open spec fn quotient(a: nat, b: nat) -> nat {
    rounded(a * scale(a, b), b)
}

proof fn lemma_rounded_monotone(n: nat, more: nat, d: nat)
    requires
        n <= more,
        d > 0,
    ensures
        rounded(n, d) <= rounded(more, d),
{
    vstd::arithmetic::div_mod::lemma_div_is_ordered(n as int, more as int, d as int);
    vstd::arithmetic::div_mod::lemma_fundamental_div_mod(n as int, d as int);
    vstd::arithmetic::div_mod::lemma_fundamental_div_mod(more as int, d as int);
    if n / d == more / d {
        assert(n % d <= more % d);
    }
}

/// Rounding does not leave the whole numbers between which it takes place.
proof fn lemma_rounded_between(n: nat, d: nat, x: nat)
    requires
        d > 0,
    ensures
        n <= x * d ==> rounded(n, d) <= x,
        n >= x * d ==> rounded(n, d) >= x,
{
    vstd::arithmetic::div_mod::lemma_fundamental_div_mod_converse(
        (x * d) as int,
        d as int,
        x as int,
        0,
    );
    assert(rounded(x * d, d) == x);
    if n <= x * d {
        lemma_rounded_monotone(n, x * d, d);
    }
    if n >= x * d {
        lemma_rounded_monotone(x * d, n, d);
    }
}

proof fn lemma_rounded_doubled(n: nat, d: nat)
    requires
        d > 0,
    ensures
        rounded(2 * n, 2 * d) == rounded(n, d),
{
    vstd::arithmetic::div_mod::lemma_fundamental_div_mod(n as int, d as int);
    let q = (n / d) as int;
    let r = (n % d) as int;
    assert(2 * n == q * (2 * d) + 2 * r) by (nonlinear_arith)
        requires
            n == d * q + r,
    ;
    vstd::arithmetic::div_mod::lemma_fundamental_div_mod_converse(
        (2 * n) as int,
        (2 * d) as int,
        q,
        2 * r,
    );
}

proof fn lemma_grain(n: nat)
    ensures
        grain(n) >= 1,
        n < 0x20_0000_0000_0000 * grain(n),
        grain(n) == 1 || 0x10_0000_0000_0000 * grain(n) <= n,
    decreases n,
{
    if n >= 0x20_0000_0000_0000 {
        lemma_grain(n / 2);
    }
}

proof fn lemma_grain_monotone(n: nat, more: nat)
    requires
        n <= more,
    ensures
        grain(n) == grain(more) || 2 * grain(n) <= grain(more),
    decreases more,
{
    lemma_grain(more);
    if n >= 0x20_0000_0000_0000 {
        lemma_grain_monotone(n / 2, more / 2);
    } else if more >= 0x20_0000_0000_0000 {
        lemma_grain(more / 2);
    }
}

/// Rounding to 53 bits keeps the order.
proof fn lemma_coarse_monotone(n: nat, more: nat)
    requires
        n <= more,
    ensures
        coarse(n) <= coarse(more),
{
    let g = grain(n);
    let h = grain(more);
    lemma_grain(n);
    lemma_grain(more);
    lemma_grain_monotone(n, more);
    if g == h {
        lemma_rounded_monotone(n, more, g);
        vstd::arithmetic::mul::lemma_mul_inequality(
            rounded(n, g) as int,
            rounded(more, g) as int,
            g as int,
        );
    } else {
        lemma_rounded_between(n, g, 0x20_0000_0000_0000);
        lemma_rounded_between(more, h, 0x10_0000_0000_0000);
        let a = rounded(n, g);
        let b = rounded(more, h);
        assert(a * g <= b * h) by (nonlinear_arith)
            requires
                a <= 0x20_0000_0000_0000,
                b >= 0x10_0000_0000_0000,
                2 * g <= h,
                g >= 1,
        ;
    }
}

/// Doubling a number doubles what rounding makes of it.
proof fn lemma_coarse_doubled(n: nat)
    ensures
        coarse(2 * n) == 2 * coarse(n),
{
    lemma_grain(n);
    let g = grain(n);
    if 2 * n < 0x20_0000_0000_0000 {
        lemma_rounded_between(n, 1, n);
        lemma_rounded_between(2 * n, 1, 2 * n);
    } else {
        assert((2 * n) / 2 == n);
        assert(grain(2 * n) == 2 * g);
        lemma_rounded_doubled(n, g);
        let r = rounded(n, g);
        assert(r * (2 * g) == 2 * (r * g)) by (nonlinear_arith);
    }
}

proof fn lemma_coarse_shifted(n: nat, j: nat)
    ensures
        coarse(n * pow2(j)) == coarse(n) * pow2(j),
    decreases j,
{
    let c = coarse(n);
    if j == 0 {
        vstd::arithmetic::power2::lemma2_to64();
        assert(n * 1 == n);
        assert(c * 1 == c);
    } else {
        let k = (j - 1) as nat;
        let p = pow2(k);
        lemma_coarse_shifted(n, k);
        lemma_pow2_unfold(j);
        lemma_coarse_doubled(n * p);
        assert(n * (2 * p) == 2 * (n * p)) by (nonlinear_arith);
        assert(c * (2 * p) == 2 * (c * p)) by (nonlinear_arith);
    }
}

/// A number of at most 53 bits is not changed by rounding.
proof fn lemma_coarse_exact(n: nat)
    requires
        n <= 0x20_0000_0000_0000,
    ensures
        coarse(n) == n,
    decreases n,
{
    if n < 0x20_0000_0000_0000 {
        lemma_rounded_between(n, 1, n);
    } else {
        lemma_coarse_exact(0x10_0000_0000_0000);
        lemma_coarse_doubled(0x10_0000_0000_0000);
    }
}

pub(crate) proof fn lemma_scale(a: nat, b: nat)
    requires
        a > 0,
        b > 0,
    ensures
        scale(a, b) >= 1,
        0x10_0000_0000_0000 * b <= a * scale(a, b),
        scale(a, b) == 1 || a * scale(a, b) < 0x20_0000_0000_0000 * b,
    decreases 0x20_0000_0000_0000 * b - a,
{
    if a < 0x10_0000_0000_0000 * b {
        lemma_scale(2 * a, b);
        let t = scale(2 * a, b);
        assert(a * (2 * t) == (2 * a) * t) by (nonlinear_arith);
        if t == 1 {
            assert((2 * a) * t == 2 * a);
        }
    } else {
        assert(a * 1 == a);
    }
}

/// The greater the dividend, the less it is scaled.
proof fn lemma_scale_monotone(a: nat, more: nat, b: nat) -> (j: nat)
    requires
        0 < a <= more,
        b > 0,
    ensures
        scale(a, b) == scale(more, b) * pow2(j),
    decreases 0x20_0000_0000_0000 * b - a,
{
    vstd::arithmetic::power2::lemma2_to64();
    if a >= 0x10_0000_0000_0000 * b {
        assert(scale(more, b) * pow2(0) == 1);
        0
    } else if more >= 0x10_0000_0000_0000 * b {
        let j = lemma_scale_is_a_power(a, b);
        assert(scale(more, b) * pow2(j) == pow2(j)) by {
            assert(scale(more, b) == 1);
            vstd::arithmetic::mul::lemma_mul_basics(pow2(j) as int);
        }
        j
    } else {
        let j = lemma_scale_monotone(2 * a, 2 * more, b);
        let t = scale(2 * more, b);
        let p = pow2(j);
        assert(2 * (t * p) == (2 * t) * p) by (nonlinear_arith);
        j
    }
}

pub(crate) proof fn lemma_scale_is_a_power(a: nat, b: nat) -> (j: nat)
    requires
        a > 0,
    ensures
        scale(a, b) == pow2(j),
    decreases 0x20_0000_0000_0000 * b - a,
{
    vstd::arithmetic::power2::lemma2_to64();
    if a >= 0x10_0000_0000_0000 * b {
        0
    } else {
        let j = lemma_scale_is_a_power(2 * a, b);
        lemma_pow2_unfold(j + 1);
        j + 1
    }
}

/// The odd number that is left when a number is halved as often as it can be.
pub open spec fn odd_part(n: nat) -> nat
    decreases n,
{
    if n == 0 || n % 2 == 1 {
        n
    } else {
        odd_part(n / 2)
    }
}

proof fn lemma_odd_part(n: nat)
    ensures
        odd_part(n) <= n,
    decreases n,
{
    if n > 0 && n % 2 == 0 {
        lemma_odd_part(n / 2);
    }
}

/// A number above zero and not above one with at most 53 significant bits, in lowest terms:
/// an odd whole number divided by a power of two.
#[derive(Debug, Clone, Copy, PartialEq, Eq, Structural)]
pub struct Fraction {
    mantissa: u64,
    places: u32,
}

impl Fraction {
    /// The odd number that is divided.
    pub closed spec fn mantissa(self) -> nat {
        self.mantissa as nat
    }

    /// The power of two by which it is divided.
    pub closed spec fn places(self) -> nat {
        self.places as nat
    }

    /// Whether the number is as it should be.
    pub open spec fn valid(self) -> bool {
        &&& self.mantissa() % 2 == 1
        &&& self.mantissa() < 0x20_0000_0000_0000
        &&& self.mantissa() <= pow2(self.places())
    }

    /// Whether the number is one.
    pub open spec fn is_one(self) -> bool {
        self.mantissa() == 1 && self.places() == 0
    }

    #[verifier::type_invariant]
    spec fn sound(self) -> bool {
        self.valid()
    }

    /// Creates the number `mantissa / 2^places`, if it is above zero, not above one, and has
    /// no more than 53 significant bits.
    pub fn new(mantissa: u64, places: u32) -> (r: Option<Fraction>)
        ensures
            match r {
                Some(f) => {
                    &&& 0 < mantissa <= pow2(places as nat)
                    &&& f.valid()
                    &&& f.mantissa() == odd_part(mantissa as nat)
                    &&& f.mantissa() * pow2(places as nat) == mantissa * pow2(f.places())
                },
                None => mantissa == 0 || mantissa > pow2(places as nat) || odd_part(
                    mantissa as nat,
                ) >= 0x20_0000_0000_0000,
            },
    {
        if mantissa == 0 || exceeds(mantissa, places) {
            return None;
        }
        let mut m: u64 = mantissa;
        let mut p: u32 = places;
        while m % 2 == 0
            invariant
                0 < m <= pow2(p as nat),
                odd_part(m as nat) == odd_part(mantissa as nat),
                m * pow2(places as nat) == mantissa * pow2(p as nat),
            decreases m,
        {
            proof {
                if p == 0 {
                    vstd::arithmetic::power2::lemma2_to64();
                    assert(false);
                }
                lemma_pow2_unfold(p as nat);
                let q = pow2((p - 1) as nat) as int;
                let half = m as int / 2;
                let whole = pow2(places as nat) as int;
                let given = mantissa as int;
                assert(half * whole == given * q) by (nonlinear_arith)
                    requires
                        (2 * half) * whole == given * (2 * q),
                ;
            }
            m = m / 2;
            p = p - 1;
        }
        if m < 0x20_0000_0000_0000 {
            Some(Fraction { mantissa: m, places: p })
        } else {
            None
        }
    }

    /// Creates the number that the 64 bits of a binary floating-point number stand for, if
    /// it is above zero and not above one.
    pub fn of_bits(bits: u64) -> (r: Option<Fraction>)
        ensures
            match r {
                Some(f) => {
                    &&& stands_for_a_fraction(bits)
                    &&& f.valid()
                    &&& f.mantissa() * pow2(bit_places(bits)) == significand(bits) * pow2(
                        f.places(),
                    )
                },
                None => !stands_for_a_fraction(bits),
            },
    {
        let exponent: u64 = bits / 0x10_0000_0000_0000;
        let rest: u64 = bits % 0x10_0000_0000_0000;
        if exponent > 1023 {
            return None;
        }
        let (mantissa, places): (u64, u32) = if exponent == 0 {
            (rest, 1074)
        } else {
            (0x10_0000_0000_0000 + rest, 1075 - exponent as u32)
        };
        proof {
            lemma_odd_part(mantissa as nat);
        }
        Fraction::new(mantissa, places)
    }

    /// The part `over / span` of the number, in parts out of 2^64 and rounded down, where
    /// `over`, `span`, their quotient and the product are each rounded to 53 significant
    /// bits.
    pub open spec fn part(self, over: nat, span: nat) -> nat {
        let a = coarse(over);
        let b = coarse(span);
        coarse(self.mantissa() * quotient(a, b)) * pow2(64) / (scale(a, b) * pow2(self.places()))
    }

    /// Computes the part `over / span` of the number.
    pub fn part_of(self, over: u64, span: u64) -> (w: u128)
        requires
            over < span,
        ensures
            w == self.part(over as nat, span as nat),
            w <= 0x1_0000_0000_0000_0000,
    {
        proof {
            use_type_invariant(&self);
            lemma_part_bound(self, over as nat, span as nat);
            vstd::arithmetic::power2::lemma2_to64();
        }
        if over == 0 {
            proof {
                lemma_part_of_nothing(self, span as nat);
            }
            return 0;
        }
        let a: u128 = coarsen(over as u128);
        let b: u128 = coarsen(span as u128);
        proof {
            lemma_coarse_exact(1);
            lemma_coarse_monotone(1, over as nat);
            lemma_coarse_monotone(over as nat, span as nat);
            lemma_coarse_shifted(1, 64);
            lemma_coarse_monotone(span as nat, pow2(64));
            assert(1 * pow2(64) == pow2(64));
        }
        let (m, t) = divide(a, b);
        proof {
            lemma_quotient_bound(a as nat, b as nat);
            assert(self.mantissa * m <= 0x20_0000_0000_0000 * 0x20_0000_0000_0000)
                by (nonlinear_arith)
                requires
                    self.mantissa <= 0x20_0000_0000_0000,
                    m <= 0x20_0000_0000_0000,
            ;
        }
        let p: u128 = coarsen(self.mantissa as u128 * m);
        proof {
            lemma_product_bound(self, a as nat, b as nat);
        }
        shifted(p, t, self.places)
    }
}

/// Whether `mantissa / 2^places` is above one.
fn exceeds(mantissa: u64, places: u32) -> (r: bool)
    ensures
        r == (mantissa > pow2(places as nat)),
{
    let mut limit: u128 = 1;
    let mut i: u32 = 0;
    proof {
        vstd::arithmetic::power2::lemma2_to64();
    }
    while i < places && limit < mantissa as u128
        invariant
            i <= places,
            limit == pow2(i as nat),
            limit <= 2 * u64::MAX,
        decreases places - i,
    {
        proof {
            lemma_pow2_unfold((i + 1) as nat);
        }
        limit = limit * 2;
        i = i + 1;
    }
    proof {
        if i < places {
            vstd::arithmetic::power2::lemma_pow2_strictly_increases(i as nat, places as nat);
        }
    }
    limit < mantissa as u128
}

/// The significant bits of a binary floating-point number, as a whole number.
pub open spec fn significand(bits: u64) -> nat {
    if bits / 0x10_0000_0000_0000 == 0 {
        bits as nat
    } else {
        (0x10_0000_0000_0000 + bits % 0x10_0000_0000_0000) as nat
    }
}

/// The power of two by which the significant bits of a binary floating-point number that is
/// below two are divided.
pub open spec fn bit_places(bits: u64) -> nat {
    if bits / 0x10_0000_0000_0000 == 0 {
        1074
    } else {
        (1075 - bits / 0x10_0000_0000_0000) as nat
    }
}

/// Whether bits stand for a floating-point number above zero and not above one: they have no
/// sign, the exponent is that of a number below two, and the number is in the range.
pub open spec fn stands_for_a_fraction(bits: u64) -> bool {
    &&& bits / 0x10_0000_0000_0000 <= 1023
    &&& 0 < significand(bits) <= pow2(bit_places(bits))
}

/// Rounds `n / d` to the nearest whole number.
fn round(n: u128, d: u128) -> (r: u128)
    requires
        d > 0,
        n < u128::MAX,
    ensures
        r == rounded(n as nat, d as nat),
{
    let down: u128 = n / d;
    let rest: u128 = n % d;
    if rest < d - rest || (rest == d - rest && down % 2 == 0) {
        down
    } else {
        proof {
            vstd::arithmetic::div_mod::lemma_div_is_ordered_by_denominator(
                n as int,
                1,
                d as int,
            );
        }
        down + 1
    }
}

/// Rounds a whole number to 53 significant bits.
fn coarsen(n: u128) -> (r: u128)
    requires
        n <= 0x400_0000_0000_0000_0000_0000_0000,
    ensures
        r == coarse(n as nat),
{
    let mut g: u128 = 1;
    let mut rest: u128 = n;
    while rest >= 0x20_0000_0000_0000
        invariant
            g >= 1,
            g * rest <= n <= 0x400_0000_0000_0000_0000_0000_0000,
            grain(n as nat) == g * grain(rest as nat),
        decreases rest,
    {
        proof {
            let h = grain((rest / 2) as nat) as int;
            let x = g as int;
            let y = rest as int;
            assert(x * (2 * h) == (2 * x) * h) by (nonlinear_arith);
            assert((2 * x) * (y / 2) <= x * y) by (nonlinear_arith)
                requires
                    x >= 1,
                    y >= 0,
            ;
            assert(2 * x <= x * y) by (nonlinear_arith)
                requires
                    x >= 1,
                    y >= 2,
            ;
        }
        rest = rest / 2;
        g = g * 2;
    }
    proof {
        lemma_grain(n as nat);
        lemma_rounded_between(n as nat, g as nat, 0x20_0000_0000_0000);
        assert(g * 1 == g);
    }
    let m: u128 = round(n, g);
    proof {
        assert(m * g <= 0x20_0000_0000_0000 * g) by (nonlinear_arith)
            requires
                m <= 0x20_0000_0000_0000,
                g >= 1,
        ;
    }
    m * g
}

/// Divides `a` by `b` to 53 significant bits. Returns the whole number and the power of two
/// by which it is to be divided.
fn divide(a: u128, b: u128) -> (r: (u128, u128))
    requires
        0 < a <= b <= 0x1_0000_0000_0000_0000,
    ensures
        r.0 == quotient(a as nat, b as nat),
        r.1 == scale(a as nat, b as nat),
        0 < r.1 <= 0x40_0000_0000_0000_0000_0000_0000_0000,
{
    let mut n: u128 = a;
    let mut t: u128 = 1;
    assert(a * 1 == a);
    assert(1 * scale(a as nat, b as nat) == scale(a as nat, b as nat));
    while n < 0x10_0000_0000_0000 * b
        invariant
            0 < a <= b <= 0x1_0000_0000_0000_0000,
            t >= 1,
            n == a * t,
            n < 0x20_0000_0000_0000 * b,
            scale(a as nat, b as nat) == t * scale(n as nat, b as nat),
        decreases 0x20_0000_0000_0000 * b - n,
    {
        proof {
            let s = scale((2 * n) as nat, b as nat) as int;
            let x = t as int;
            let y = a as int;
            assert(x * (2 * s) == (2 * x) * s) by (nonlinear_arith);
            assert(y * (2 * x) == 2 * (y * x)) by (nonlinear_arith);
            assert(x <= y * x) by (nonlinear_arith)
                requires
                    y >= 1,
                    x >= 1,
            ;
        }
        n = n * 2;
        t = t * 2;
    }
    assert(t * 1 == t);
    assert(t <= a * t) by (nonlinear_arith)
        requires
            a >= 1,
            t >= 1,
    ;
    (round(n, b), t)
}

proof fn lemma_cancel(x: nat, y: nat, c: nat)
    requires
        y > 0,
        c > 0,
    ensures
        (x * c) / (y * c) == x / y,
{
    vstd::arithmetic::div_mod::lemma_div_denominator((x * c) as int, c as int, y as int);
    vstd::arithmetic::div_mod::lemma_div_by_multiple(x as int, c as int);
    assert(y * c == c * y) by (nonlinear_arith);
}

/// Computes `p * 2^64 / (t * 2^places)`, rounded down.
fn shifted(p: u128, t: u128, places: u32) -> (w: u128)
    requires
        0 < t <= 0x40_0000_0000_0000_0000_0000_0000_0000,
        p <= t * pow2(places as nat),
    ensures
        w == p * pow2(64) / (t * pow2(places as nat)),
{
    proof {
        lemma_pow2_pos(places as nat);
        vstd::arithmetic::power2::lemma2_to64();
    }
    let ghost d = pow2(places as nat);
    if places <= 64 {
        let mut q: u128 = p / t;
        let mut r: u128 = p % t;
        let mut i: u32 = places;
        proof {
            vstd::arithmetic::div_mod::lemma_fundamental_div_mod(p as int, t as int);
            assert(p * pow2(0) == p);
            assert(t * q == q * t) by (nonlinear_arith);
        }
        while i < 64
            invariant
                places <= i <= 64,
                0 < t <= 0x40_0000_0000_0000_0000_0000_0000_0000,
                d == pow2(places as nat),
                p <= t * d,
                r < t,
                q * t + r == p * pow2((i - places) as nat),
            decreases 64 - i,
        {
            let ghost k = pow2((i - places) as nat);
            proof {
                lemma_pow2_unfold((i + 1 - places) as nat);
                lemma_pow2_adds(places as nat, (i - places) as nat);
                lemma_shift_bound(p as nat, t as nat, d, k, q as nat, r as nat);
                vstd::arithmetic::power2::lemma2_to64();
                if i < 64 {
                    vstd::arithmetic::power2::lemma_pow2_strictly_increases(i as nat, 64);
                }
                assert(p * (2 * k) == 2 * (p * k)) by (nonlinear_arith);
                assert((2 * q) * t == 2 * (q * t)) by (nonlinear_arith);
                assert((2 * q + 1) * t == 2 * (q * t) + t) by (nonlinear_arith);
            }
            if r >= t - r {
                q = 2 * q + 1;
                r = r - (t - r);
            } else {
                q = 2 * q;
                r = 2 * r;
            }
            i = i + 1;
        }
        proof {
            let k = pow2((64 - places) as nat);
            lemma_pow2_adds((64 - places) as nat, places as nat);
            assert(p * (k * d) == (p * k) * d) by (nonlinear_arith);
            lemma_cancel(p as nat * k, t as nat, d);
            vstd::arithmetic::div_mod::lemma_fundamental_div_mod_converse(
                (p * k) as int,
                t as int,
                q as int,
                r as int,
            );
        }
        q
    } else {
        let mut q: u128 = p / t;
        let mut i: u32 = places;
        assert(t * pow2(0) == t);
        proof {
            let k = pow2((places - 64) as nat);
            lemma_pow2_adds((places - 64) as nat, 64);
            lemma_pow2_pos((places - 64) as nat);
            assert(t * (k * pow2(64)) == (t * k) * pow2(64)) by (nonlinear_arith);
            assert(t * k > 0) by (nonlinear_arith)
                requires
                    t > 0,
                    k > 0,
            ;
            lemma_cancel(p as nat, t as nat * k, pow2(64));
        }
        while i > 64 && q > 0
            invariant
                64 <= i <= places,
                t > 0,
                q == p as int / (t * pow2((places - i) as nat)),
            decreases i,
        {
            proof {
                let k = pow2((places - i) as nat);
                lemma_pow2_pos((places - i) as nat);
                lemma_pow2_unfold((places - i + 1) as nat);
                assert(t * (2 * k) == (t * k) * 2) by (nonlinear_arith);
                assert(t * k > 0) by (nonlinear_arith)
                    requires
                        t > 0,
                        k > 0,
                ;
                vstd::arithmetic::div_mod::lemma_div_denominator(p as int, (t * k) as int, 2);
            }
            q = q / 2;
            i = i - 1;
        }
        proof {
            if i > 64 {
                let x = (t * pow2((places - i) as nat)) as int;
                let y = (t * pow2((places - 64) as nat)) as int;
                lemma_pow2_pos((places - i) as nat);
                vstd::arithmetic::power2::lemma_pow2_strictly_increases(
                    (places - i) as nat,
                    (places - 64) as nat,
                );
                assert(0 < x <= y) by (nonlinear_arith)
                    requires
                        t > 0,
                        x == t * pow2((places - i) as nat),
                        y == t * pow2((places - 64) as nat),
                        0 < pow2((places - i) as nat) < pow2((places - 64) as nat),
                ;
                vstd::arithmetic::div_mod::lemma_div_is_ordered_by_denominator(p as int, x, y);
                vstd::arithmetic::div_mod::lemma_div_pos_is_pos(p as int, y);
            }
        }
        q
    }
}

proof fn lemma_shift_bound(p: nat, t: nat, d: nat, k: nat, q: nat, r: nat)
    requires
        t > 0,
        p <= t * d,
        q * t + r == p * k,
    ensures
        q <= d * k,
{
    assert(p * k <= (t * d) * k) by (nonlinear_arith)
        requires
            p <= t * d,
    ;
    assert((t * d) * k == (d * k) * t) by (nonlinear_arith);
    assert(q <= d * k) by (nonlinear_arith)
        requires
            q * t <= (d * k) * t,
            t > 0,
    ;
}

proof fn lemma_quotient_bound(a: nat, b: nat)
    requires
        0 < a <= b,
    ensures
        0x10_0000_0000_0000 <= quotient(a, b) <= 0x20_0000_0000_0000,
        quotient(a, b) <= scale(a, b),
{
    lemma_scale(a, b);
    let t = scale(a, b);
    if t == 1 {
        assert(a * t == a);
        assert(false);
    }
    lemma_rounded_between(a * t, b, 0x10_0000_0000_0000);
    lemma_rounded_between(a * t, b, 0x20_0000_0000_0000);
    assert(a * t <= t * b) by (nonlinear_arith)
        requires
            a <= b,
    ;
    lemma_rounded_between(a * t, b, t);
}

/// A part of a number is no greater than the number.
proof fn lemma_product_bound(f: Fraction, a: nat, b: nat)
    requires
        f.valid(),
        0 < a <= b,
    ensures
        coarse(f.mantissa() * quotient(a, b)) <= f.mantissa() * scale(a, b),
        coarse(f.mantissa() * quotient(a, b)) <= scale(a, b) * pow2(f.places()),
{
    let m = f.mantissa();
    let q = quotient(a, b);
    let t = scale(a, b);
    lemma_quotient_bound(a, b);
    let j = lemma_scale_is_a_power(a, b);
    assert(m * q <= m * t) by (nonlinear_arith)
        requires
            q <= t,
    ;
    lemma_coarse_monotone(m * q, m * t);
    lemma_coarse_shifted(m, j);
    lemma_coarse_exact(m);
    let d = pow2(f.places());
    assert(m * t <= t * d) by (nonlinear_arith)
        requires
            m <= d,
    ;
}

pub(crate) proof fn lemma_part_of_nothing(f: Fraction, span: nat)
    requires
        span > 0,
    ensures
        f.part(0, span) == 0,
{
    let b = coarse(span);
    lemma_coarse_exact(0);
    lemma_coarse_exact(1);
    lemma_coarse_monotone(1, span);
    assert(0 * scale(0, b) == 0);
    lemma_rounded_between(0, b, 0);
    assert(f.mantissa() * 0 == 0);
    assert(0 * pow2(64) == 0);
    lemma_pow2_pos(f.places());
    assert(1 * pow2(f.places()) == pow2(f.places()));
    vstd::arithmetic::div_mod::lemma_div_basics(pow2(f.places()) as int);
}

/// A part of a number is at most the number itself, in parts out of 2^64.
pub(crate) proof fn lemma_part_bound(f: Fraction, over: nat, span: nat)
    requires
        f.valid(),
        over < span,
    ensures
        f.part(over, span) <= f.mantissa() * pow2(64) / pow2(f.places()),
        f.part(over, span) <= pow2(64),
{
    let a = coarse(over);
    let b = coarse(span);
    let d = pow2(f.places());
    let m = f.mantissa();
    let c = pow2(64);
    lemma_pow2_pos(f.places());
    lemma_pow2_pos(64);
    assert(m * c <= c * d) by (nonlinear_arith)
        requires
            m <= d,
    ;
    vstd::arithmetic::div_mod::lemma_div_is_ordered((m * c) as int, (c * d) as int, d as int);
    vstd::arithmetic::div_mod::lemma_div_by_multiple(c as int, d as int);
    if over == 0 {
        lemma_part_of_nothing(f, span);
        vstd::arithmetic::div_mod::lemma_div_pos_is_pos((m * c) as int, d as int);
    } else {
        lemma_coarse_exact(1);
        lemma_coarse_monotone(1, over);
        lemma_coarse_monotone(over, span);
        lemma_product_bound(f, a, b);
        lemma_scale(a, b);
        let t = scale(a, b);
        let p = coarse(m * quotient(a, b));
        assert(p * c <= (m * c) * t) by (nonlinear_arith)
            requires
                p <= m * t,
        ;
        lemma_quotients_ordered(p * c, t * d, m * c, d, t);
    }
}

/// Where `x / y` is at most `x2 / y2` of whole numbers, so are their whole parts.
proof fn lemma_ordered(x: nat, y: nat, x2: nat, y2: nat)
    requires
        y > 0,
        y2 > 0,
        x * y2 <= x2 * y,
    ensures
        x / y <= x2 / y2,
{
    let q = x / y;
    vstd::arithmetic::div_mod::lemma_fundamental_div_mod(x as int, y as int);
    assert(q * y <= x) by (nonlinear_arith)
        requires
            x == y * q + x % y,
    ;
    assert(q * y2 <= x2) by (nonlinear_arith)
        requires
            q * y <= x,
            x * y2 <= x2 * y,
            y > 0,
    ;
    vstd::arithmetic::div_mod::lemma_div_is_ordered((q * y2) as int, x2 as int, y2 as int);
    vstd::arithmetic::div_mod::lemma_div_by_multiple(q as int, y2 as int);
}

proof fn lemma_quotients_ordered(pc: nat, td: nat, mc: nat, d: nat, t: nat)
    requires
        t > 0,
        d > 0,
        td == t * d,
        pc <= mc * t,
    ensures
        pc / td <= mc / d,
{
    assert(t * d > 0) by (nonlinear_arith)
        requires
            t > 0,
            d > 0,
    ;
    assert(pc * d <= mc * (t * d)) by (nonlinear_arith)
        requires
            pc <= mc * t,
    ;
    lemma_ordered(pc, td, mc, d);
}

/// The greater the share, the greater the part.
pub(crate) proof fn lemma_part_monotone(f: Fraction, fewer: nat, more: nat, span: nat)
    requires
        fewer <= more < span,
    ensures
        f.part(fewer, span) <= f.part(more, span),
{
    let b = coarse(span);
    let a = coarse(fewer);
    let e = coarse(more);
    let m = f.mantissa();
    let d = pow2(f.places());
    let c = pow2(64);
    lemma_pow2_pos(f.places());
    if fewer == 0 {
        lemma_part_of_nothing(f, span);
    } else {
        lemma_coarse_exact(1);
        lemma_coarse_monotone(1, fewer);
        lemma_coarse_monotone(fewer, more);
        lemma_coarse_monotone(more, span);
        lemma_scale(a, b);
        lemma_scale(e, b);
        lemma_quotient_bound(a, b);
        lemma_quotient_bound(e, b);
        let j = lemma_scale_monotone(a, e, b);
        let k = pow2(j);
        let t = scale(a, b);
        let u = scale(e, b);
        let q = quotient(a, b);
        let r = quotient(e, b);
        lemma_pow2_pos(j);
        // in parts of the finer scale the first quotient is no greater
        assert(q <= r * k) by {
            if j == 0 {
                vstd::arithmetic::power2::lemma2_to64();
                assert(u * k == u);
                assert(a * t <= e * u) by (nonlinear_arith)
                    requires
                        a <= e,
                        t == u,
                ;
                lemma_rounded_monotone(a * t, e * u, b);
                assert(r * k == r);
            } else {
                lemma_pow2_unfold(j);
                lemma_pow2_pos((j - 1) as nat);
                assert(r * k >= 0x10_0000_0000_0000 * 2) by (nonlinear_arith)
                    requires
                        r >= 0x10_0000_0000_0000,
                        k >= 2,
                ;
            }
        }
        assert(m * q <= (m * r) * k) by (nonlinear_arith)
            requires
                q <= r * k,
        ;
        lemma_coarse_monotone(m * q, (m * r) * k);
        lemma_coarse_shifted(m * r, j);
        let p = coarse(m * q);
        let s = coarse(m * r);
        assert((p * c) * (u * d) <= (s * c) * (t * d)) by (nonlinear_arith)
            requires
                p <= s * k,
                t == u * k,
        ;
        assert(t * d > 0 && u * d > 0) by (nonlinear_arith)
            requires
                t > 0,
                u > 0,
                d > 0,
        ;
        lemma_ordered(p * c, t * d, s * c, u * d);
    }
}

/// Of a number below one every part is below one, and so is every part of one, unless the
/// share is of more than 2^53 and is rounded to the whole.
pub(crate) proof fn lemma_part_below_one(f: Fraction, over: nat, span: nat)
    requires
        f.valid(),
        over < span,
        !f.is_one() || span <= 0x20_0000_0000_0000,
    ensures
        f.part(over, span) < pow2(64),
{
    let c = pow2(64);
    let d = pow2(f.places());
    let m = f.mantissa();
    lemma_pow2_pos(64);
    lemma_pow2_pos(f.places());
    vstd::arithmetic::power2::lemma2_to64();
    vstd::arithmetic::power2::lemma2_to64_rest();
    if over == 0 {
        lemma_part_of_nothing(f, span);
    } else if m < d {
        lemma_part_bound(f, over, span);
        assert(m * c < c * d) by (nonlinear_arith)
            requires
                m < d,
                c > 0,
        ;
        let w = (m * c) / d;
        vstd::arithmetic::div_mod::lemma_fundamental_div_mod((m * c) as int, d as int);
        assert(w < c) by (nonlinear_arith)
            requires
                m * c == d * w + (m * c) % d,
                m * c < c * d,
                d > 0,
        ;
    } else {
        // an odd power of two is one
        if f.places() > 0 {
            lemma_pow2_unfold(f.places());
            assert(false);
        }
        let a = coarse(over);
        let b = coarse(span);
        lemma_coarse_exact(over);
        lemma_coarse_exact(span);
        lemma_scale(a, b);
        lemma_quotient_bound(a, b);
        let t = scale(a, b);
        let q = quotient(a, b);
        let j = lemma_scale_is_a_power(a, b);
        if j <= 52 {
            if j < 52 {
                vstd::arithmetic::power2::lemma_pow2_strictly_increases(j, 52);
            }
            assert(a * t < 0x10_0000_0000_0000 * b) by (nonlinear_arith)
                requires
                    a < b,
                    0 < t <= 0x10_0000_0000_0000,
            ;
            assert(false);
        }
        if j > 53 {
            vstd::arithmetic::power2::lemma_pow2_strictly_increases(53, j);
        }
        let less = (t - 1) as nat;
        assert(a * t <= less * b) by (nonlinear_arith)
            requires
                a + 1 <= b,
                b <= t,
                less == t - 1,
        ;
        lemma_rounded_between(a * t, b, less);
        lemma_coarse_exact(q);
        assert(m * q == q) by (nonlinear_arith)
            requires
                m == 1,
        ;
        assert(t * d == t) by (nonlinear_arith)
            requires
                d == 1,
        ;
        let w = (q * c) / t;
        vstd::arithmetic::div_mod::lemma_fundamental_div_mod((q * c) as int, t as int);
        assert(w < c) by (nonlinear_arith)
            requires
                q * c == t * w + (q * c) % t,
                q < t,
                t > 0,
                c > 0,
        ;
    }
}

} // verus!
