//! Simulated time.
//!
//! Time is a count of nanoseconds, so that every computation on it is exact.
//! The arithmetic operators ask their callers to rule out overflow; the
//! `saturating_*` methods accept every argument.

use vstd::prelude::*;
use vstd::string::StringExecFns;

use crate::text::{push_decimal, push_padded};

verus! {

/// `n` cut off at the largest representable number of nanoseconds.
pub open spec fn saturated(n: int) -> u64 {
    if n < 0 {
        0
    } else if n > u64::MAX {
        u64::MAX
    } else {
        n as u64
    }
}

/// The product of two counts, cut off at `u64::MAX`.
fn saturating_product(a: u64, b: u64) -> (r: u64)
    ensures
        r == saturated(a * b),
{
    proof {
        assert(a * b >= 0) by (nonlinear_arith);
    }
    match a.checked_mul(b) {
        Some(p) => p,
        None => u64::MAX,
    }
}

/// The text of a number of nanoseconds, in the largest unit that it reaches.
pub open spec fn nanos_text(nanos: u64) -> Seq<char> {
    let n = nanos as nat;
    if n >= 1_000_000_000 {
        crate::text::decimal(n / 1_000_000_000) + "."@ + crate::text::padded(n % 1_000_000_000, 9)
            + "s"@
    } else if n >= 1_000_000 {
        crate::text::decimal(n / 1_000_000) + "."@ + crate::text::padded(n % 1_000_000, 6) + "ms"@
    } else if n >= 1_000 {
        crate::text::decimal(n / 1_000) + "."@ + crate::text::padded(n % 1_000, 3) + "µs"@
    } else {
        crate::text::decimal(n) + "ns"@
    }
}

/// Renders a number of nanoseconds in the largest unit that it reaches.
fn render_nanos(nanos: u64) -> (s: String)
    ensures
        s@ == nanos_text(nanos),
{
    let mut out: String = String::new();
    if nanos >= 1_000_000_000 {
        push_decimal(&mut out, nanos / 1_000_000_000);
        out.append(".");
        push_padded(&mut out, nanos % 1_000_000_000, 9);
        out.append("s");
    } else if nanos >= 1_000_000 {
        push_decimal(&mut out, nanos / 1_000_000);
        out.append(".");
        push_padded(&mut out, nanos % 1_000_000, 6);
        out.append("ms");
    } else if nanos >= 1_000 {
        push_decimal(&mut out, nanos / 1_000);
        out.append(".");
        push_padded(&mut out, nanos % 1_000, 3);
        out.append("µs");
    } else {
        push_decimal(&mut out, nanos);
        out.append("ns");
    }
    assert(out@ =~= nanos_text(nanos));
    out
}

/// A point in simulated time, in nanoseconds from the start of the simulation.
#[derive(Clone, Copy, Debug, PartialEq, Eq, Structural, PartialOrd, Ord, Hash)]
pub struct Time(pub u64);

/// A span of simulated time, in nanoseconds.
#[derive(Clone, Copy, Debug, PartialEq, Eq, Structural, PartialOrd, Ord, Hash)]
pub struct Duration(pub u64);

impl Time {
    /// The start of the simulation.
    pub fn zero() -> (t: Time)
        ensures
            t.0 == 0,
    {
        Time(0)
    }

    /// The last representable point.
    pub fn max_value() -> (t: Time)
        ensures
            t.0 == u64::MAX,
    {
        Time(u64::MAX)
    }

    /// The point `nanos` nanoseconds from the start.
    pub fn from_nanos(nanos: u64) -> (t: Time)
        ensures
            t.0 == nanos,
    {
        Time(nanos)
    }

    /// The point `micros` microseconds from the start, cut off at the largest representable one.
    pub fn from_micros(micros: u64) -> (t: Time)
        ensures
            t.0 == saturated(micros * 1_000),
    {
        Time(saturating_product(micros, 1_000))
    }

    /// The point `millis` milliseconds from the start, cut off at the largest representable one.
    pub fn from_millis(millis: u64) -> (t: Time)
        ensures
            t.0 == saturated(millis * 1_000_000),
    {
        Time(saturating_product(millis, 1_000_000))
    }

    /// The point `secs` seconds from the start, cut off at the largest representable one.
    pub fn from_secs(secs: u64) -> (t: Time)
        ensures
            t.0 == saturated(secs * 1_000_000_000),
    {
        Time(saturating_product(secs, 1_000_000_000))
    }

    /// The number of nanoseconds.
    pub fn as_nanos(&self) -> (n: u64)
        ensures
            n == self.0,
    {
        self.0
    }

    /// The number of whole microseconds.
    pub fn as_micros(&self) -> (n: u64)
        ensures
            n == self.0 / 1_000,
    {
        self.0 / 1_000
    }

    /// The number of whole milliseconds.
    pub fn as_millis(&self) -> (n: u64)
        ensures
            n == self.0 / 1_000_000,
    {
        self.0 / 1_000_000
    }

    /// The number of whole seconds.
    pub fn as_secs(&self) -> (n: u64)
        ensures
            n == self.0 / 1_000_000_000,
    {
        self.0 / 1_000_000_000
    }

    /// The time that has passed since `earlier`, or zero if `earlier` is later than `self`.
    pub fn saturating_duration_since(&self, earlier: Time) -> (d: Duration)
        ensures
            d.0 == saturated(self.0 - earlier.0),
    {
        Duration(self.0.saturating_sub(earlier.0))
    }

    /// The point `duration` later, cut off at the last representable one.
    pub fn saturating_add(&self, duration: Duration) -> (t: Time)
        ensures
            t.0 == saturated(self.0 + duration.0),
    {
        Time(self.0.saturating_add(duration.0))
    }

    /// The point `duration` earlier, cut off at the start.
    pub fn saturating_sub(&self, duration: Duration) -> (t: Time)
        ensures
            t.0 == saturated(self.0 - duration.0),
    {
        Time(self.0.saturating_sub(duration.0))
    }

    /// The later of two points.
    pub fn later(self, other: Time) -> (t: Time)
        ensures
            t.0 == (if self.0 >= other.0 { self.0 } else { other.0 }),
    {
        if self.0 >= other.0 {
            self
        } else {
            other
        }
    }

    /// The text of this point, in the largest unit that it reaches.
    pub fn to_string(&self) -> (s: String)
        ensures
            s@ == nanos_text(self.0),
    {
        render_nanos(self.0)
    }

    /// The text of this point for debugging: its type and its nanoseconds.
    pub fn to_debug_string(&self) -> (s: String)
        ensures
            s@ == "Time("@ + crate::text::decimal(self.0 as nat) + "ns)"@,
    {
        let mut out: String = String::from_str("Time(");
        push_decimal(&mut out, self.0);
        out.append("ns)");
        out
    }
}

impl Default for Time {
    /// The start of the simulation.
    fn default() -> (t: Time)
        ensures
            t.0 == 0,
    {
        Time(0)
    }
}

impl core::ops::Add<Duration> for Time {
    type Output = Time;

    fn add(self, rhs: Duration) -> (r: Time) {
        Time(self.0 + rhs.0)
    }
}

impl vstd::std_specs::ops::AddSpecImpl<Duration> for Time {
    open spec fn obeys_add_spec() -> bool {
        true
    }

    open spec fn add_req(self, rhs: Duration) -> bool {
        self.0 + rhs.0 <= u64::MAX
    }

    open spec fn add_spec(self, rhs: Duration) -> Time {
        Time((self.0 + rhs.0) as u64)
    }
}

impl core::ops::AddAssign<Duration> for Time {
    fn add_assign(&mut self, rhs: Duration)
        requires
            old(self).0 + rhs.0 <= u64::MAX,
        ensures
            final(self).0 == old(self).0 + rhs.0,
    {
        self.0 = self.0 + rhs.0;
    }
}

impl core::ops::Sub<Duration> for Time {
    type Output = Time;

    fn sub(self, rhs: Duration) -> (r: Time) {
        Time(self.0 - rhs.0)
    }
}

impl vstd::std_specs::ops::SubSpecImpl<Duration> for Time {
    open spec fn obeys_sub_spec() -> bool {
        true
    }

    open spec fn sub_req(self, rhs: Duration) -> bool {
        rhs.0 <= self.0
    }

    open spec fn sub_spec(self, rhs: Duration) -> Time {
        Time((self.0 - rhs.0) as u64)
    }
}

impl core::ops::SubAssign<Duration> for Time {
    fn sub_assign(&mut self, rhs: Duration)
        requires
            rhs.0 <= old(self).0,
        ensures
            final(self).0 == old(self).0 - rhs.0,
    {
        self.0 = self.0 - rhs.0;
    }
}

impl core::ops::Sub<Time> for Time {
    type Output = Duration;

    fn sub(self, rhs: Time) -> (r: Duration) {
        Duration(self.0 - rhs.0)
    }
}

impl vstd::std_specs::ops::SubSpecImpl<Time> for Time {
    open spec fn obeys_sub_spec() -> bool {
        true
    }

    open spec fn sub_req(self, rhs: Time) -> bool {
        rhs.0 <= self.0
    }

    open spec fn sub_spec(self, rhs: Time) -> Duration {
        Duration((self.0 - rhs.0) as u64)
    }
}

impl Duration {
    /// The empty span.
    pub fn zero() -> (d: Duration)
        ensures
            d.0 == 0,
    {
        Duration(0)
    }

    /// The longest representable span.
    pub fn max_value() -> (d: Duration)
        ensures
            d.0 == u64::MAX,
    {
        Duration(u64::MAX)
    }

    /// The span of `nanos` nanoseconds.
    pub fn from_nanos(nanos: u64) -> (d: Duration)
        ensures
            d.0 == nanos,
    {
        Duration(nanos)
    }

    /// The span `micros` microseconds long, cut off at the largest representable one.
    pub fn from_micros(micros: u64) -> (t: Duration)
        ensures
            t.0 == saturated(micros * 1_000),
    {
        Duration(saturating_product(micros, 1_000))
    }

    /// The span `millis` milliseconds long, cut off at the largest representable one.
    pub fn from_millis(millis: u64) -> (t: Duration)
        ensures
            t.0 == saturated(millis * 1_000_000),
    {
        Duration(saturating_product(millis, 1_000_000))
    }

    /// The span `secs` seconds long, cut off at the largest representable one.
    pub fn from_secs(secs: u64) -> (t: Duration)
        ensures
            t.0 == saturated(secs * 1_000_000_000),
    {
        Duration(saturating_product(secs, 1_000_000_000))
    }

    /// The number of nanoseconds.
    pub fn as_nanos(&self) -> (n: u64)
        ensures
            n == self.0,
    {
        self.0
    }

    /// The number of whole microseconds.
    pub fn as_micros(&self) -> (n: u64)
        ensures
            n == self.0 / 1_000,
    {
        self.0 / 1_000
    }

    /// The number of whole milliseconds.
    pub fn as_millis(&self) -> (n: u64)
        ensures
            n == self.0 / 1_000_000,
    {
        self.0 / 1_000_000
    }

    /// The number of whole seconds.
    pub fn as_secs(&self) -> (n: u64)
        ensures
            n == self.0 / 1_000_000_000,
    {
        self.0 / 1_000_000_000
    }

    /// Whether the span is empty.
    pub fn is_zero(&self) -> (r: bool)
        ensures
            r == (self.0 == 0),
    {
        self.0 == 0
    }

    /// The sum of two spans, cut off at the longest representable one.
    pub fn saturating_add(&self, other: Duration) -> (d: Duration)
        ensures
            d.0 == saturated(self.0 + other.0),
    {
        Duration(self.0.saturating_add(other.0))
    }

    /// The difference of two spans, or the empty span if `other` is longer.
    pub fn saturating_sub(&self, other: Duration) -> (d: Duration)
        ensures
            d.0 == saturated(self.0 - other.0),
    {
        Duration(self.0.saturating_sub(other.0))
    }

    /// `n` times this span, cut off at the longest representable one.
    pub fn saturating_mul(&self, n: u64) -> (d: Duration)
        ensures
            d.0 == saturated(self.0 * n),
    {
        Duration(saturating_product(self.0, n))
    }

    /// The text of this span, in the largest unit that it reaches.
    pub fn to_string(&self) -> (s: String)
        ensures
            s@ == nanos_text(self.0),
    {
        render_nanos(self.0)
    }

    /// The text of this span for debugging: its type and its nanoseconds.
    pub fn to_debug_string(&self) -> (s: String)
        ensures
            s@ == "Duration("@ + crate::text::decimal(self.0 as nat) + "ns)"@,
    {
        let mut out: String = String::from_str("Duration(");
        push_decimal(&mut out, self.0);
        out.append("ns)");
        out
    }
}

impl Default for Duration {
    /// The empty span.
    fn default() -> (t: Duration)
        ensures
            t.0 == 0,
    {
        Duration(0)
    }
}

impl core::ops::Add<Duration> for Duration {
    type Output = Duration;

    fn add(self, rhs: Duration) -> (r: Duration) {
        Duration(self.0 + rhs.0)
    }
}

impl vstd::std_specs::ops::AddSpecImpl<Duration> for Duration {
    open spec fn obeys_add_spec() -> bool {
        true
    }

    open spec fn add_req(self, rhs: Duration) -> bool {
        self.0 + rhs.0 <= u64::MAX
    }

    open spec fn add_spec(self, rhs: Duration) -> Duration {
        Duration((self.0 + rhs.0) as u64)
    }
}

impl core::ops::AddAssign<Duration> for Duration {
    fn add_assign(&mut self, rhs: Duration)
        requires
            old(self).0 + rhs.0 <= u64::MAX,
        ensures
            final(self).0 == old(self).0 + rhs.0,
    {
        self.0 = self.0 + rhs.0;
    }
}

impl core::ops::Sub<Duration> for Duration {
    type Output = Duration;

    fn sub(self, rhs: Duration) -> (r: Duration) {
        Duration(self.0 - rhs.0)
    }
}

impl vstd::std_specs::ops::SubSpecImpl<Duration> for Duration {
    open spec fn obeys_sub_spec() -> bool {
        true
    }

    open spec fn sub_req(self, rhs: Duration) -> bool {
        rhs.0 <= self.0
    }

    open spec fn sub_spec(self, rhs: Duration) -> Duration {
        Duration((self.0 - rhs.0) as u64)
    }
}

impl core::ops::SubAssign<Duration> for Duration {
    fn sub_assign(&mut self, rhs: Duration)
        requires
            rhs.0 <= old(self).0,
        ensures
            final(self).0 == old(self).0 - rhs.0,
    {
        self.0 = self.0 - rhs.0;
    }
}

} // verus!
