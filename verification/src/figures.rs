//! What the digits of a number say, and how times are cut off and written.

use vstd::prelude::*;
use vstd::std_specs::ops::{AddSpec, SubSpec};

use crate::net::node::{MessageId, NodeId};
use crate::text::{decimal, digit, padded, push_decimal, push_padded};
use crate::time::{nanos_text, saturated, Duration, Time};

verus! {

/// Whether every character is a decimal digit.
pub open spec fn all_digits(text: Seq<char>) -> bool {
    forall|i: int| 0 <= i < text.len() ==> '0' <= #[trigger] text[i] <= '9'
}

/// The number that decimal digits stand for.
pub open spec fn reading(text: Seq<char>) -> int
    decreases text.len(),
{
    if text.len() == 0 {
        0
    } else {
        10 * reading(text.drop_last()) + (text.last() as int - '0' as int)
    }
}

/// Ten to the power of `n`.
pub open spec fn ten_to(n: nat) -> nat
    decreases n,
{
    if n == 0 {
        1
    } else {
        10 * ten_to((n - 1) as nat)
    }
}

proof fn lemma_digit(d: nat)
    requires
        d < 10,
    ensures
        '0' <= digit(d) <= '9',
        digit(d) as int - '0' as int == d,
{
}

/// The decimal digits of a number read as that number, and do not begin with a zero unless that
/// is all there is.
pub proof fn digits_read_as_the_number(n: nat)
    ensures
        reading(decimal(n)) == n,
        all_digits(decimal(n)),
        decimal(n).len() > 0,
        decimal(n)[0] == '0' ==> n == 0 && decimal(n).len() == 1,
    decreases n,
{
    lemma_digit(n % 10);
    if n < 10 {
        assert(decimal(n).drop_last() =~= Seq::<char>::empty());
        assert(reading(Seq::<char>::empty()) == 0);
        lemma_digit(n);
    } else {
        digits_read_as_the_number(n / 10);
        assert(decimal(n).drop_last() =~= decimal(n / 10));
        assert(decimal(n)[0] == decimal(n / 10)[0]);
    }
}

/// Padded digits are as many as were asked for and read as the number, as far as it fits into
/// them.
pub proof fn padded_digits_keep_their_width(n: nat, width: nat)
    ensures
        padded(n, width).len() == width,
        all_digits(padded(n, width)),
        n < ten_to(width) ==> reading(padded(n, width)) == n,
    decreases width,
{
    if width > 0 {
        padded_digits_keep_their_width(n / 10, (width - 1) as nat);
        lemma_digit(n % 10);
        assert(padded(n, width).drop_last() =~= padded(n / 10, (width - 1) as nat));
    }
}

/// Whether `text` writes `nanos` nanoseconds as a whole number of units of 10^`width`
/// nanoseconds, a point, and the `width` digits of the rest, followed by the name of the unit.
pub open spec fn writes(
    text: Seq<char>,
    nanos: u64,
    whole: Seq<char>,
    rest: Seq<char>,
    unit: Seq<char>,
) -> bool {
    &&& text == whole + "."@ + rest + unit
    &&& all_digits(whole)
    &&& all_digits(rest)
    &&& reading(whole) * ten_to(rest.len()) + reading(rest) == nanos
    &&& reading(whole) >= 1
    &&& whole.len() > 0
    &&& whole[0] != '0'
}

proof fn lemma_units(n: nat, width: nat, unit: nat)
    requires
        ten_to(width) == unit,
        unit > 0,
    ensures
        (n / unit) * ten_to(width) + n % unit == n,
{
    vstd::arithmetic::div_mod::lemma_fundamental_div_mod(n as int, unit as int);
    assert((n / unit) * unit == unit * (n / unit)) by (nonlinear_arith);
}

/// A time is written in the largest unit of which it has at least one, to the last nanosecond.
/// `whole` and `rest` are the digits before and after the point.
pub proof fn times_are_written_exactly(nanos: u64) -> (r: (Seq<char>, Seq<char>))
    ensures
        ({
            let (whole, rest) = r;
            let text = nanos_text(nanos);
            &&& nanos < 1_000 ==> text == whole + "ns"@ && reading(whole) == nanos && all_digits(
                whole,
            ) && whole.len() > 0 && (whole[0] == '0' ==> nanos == 0)
            &&& 1_000 <= nanos < 1_000_000 ==> rest.len() == 3 && writes(
                text,
                nanos,
                whole,
                rest,
                "µs"@,
            )
            &&& 1_000_000 <= nanos < 1_000_000_000 ==> rest.len() == 6 && writes(
                text,
                nanos,
                whole,
                rest,
                "ms"@,
            )
            &&& 1_000_000_000 <= nanos ==> rest.len() == 9 && writes(
                text,
                nanos,
                whole,
                rest,
                "s"@,
            )
        }),
{
    let n = nanos as nat;
    reveal_with_fuel(ten_to, 10);
    if n >= 1_000_000_000 {
        digits_read_as_the_number(n / 1_000_000_000);
        padded_digits_keep_their_width(n % 1_000_000_000, 9);
        lemma_units(n, 9, 1_000_000_000);
        (decimal(n / 1_000_000_000), padded(n % 1_000_000_000, 9))
    } else if n >= 1_000_000 {
        digits_read_as_the_number(n / 1_000_000);
        padded_digits_keep_their_width(n % 1_000_000, 6);
        lemma_units(n, 6, 1_000_000);
        (decimal(n / 1_000_000), padded(n % 1_000_000, 6))
    } else if n >= 1_000 {
        digits_read_as_the_number(n / 1_000);
        padded_digits_keep_their_width(n % 1_000, 3);
        lemma_units(n, 3, 1_000);
        (decimal(n / 1_000), padded(n % 1_000, 3))
    } else {
        digits_read_as_the_number(n);
        (decimal(n), Seq::empty())
    }
}

/// A number that is cut off becomes the nearest one that can be represented.
pub proof fn numbers_are_cut_off_at_the_nearest(n: int, other: u64)
    ensures
        n <= saturated(n) ==> saturated(n) - n <= (if other >= n {
            other - n
        } else {
            n - other
        }),
        n >= saturated(n) ==> n - saturated(n) <= (if other >= n {
            other - n
        } else {
            n - other
        }),
{
}

/// Adding a span to a time and taking it away again, or taking the difference of two times, gives
/// back what was there; a sum is as far from each part as the other part is long.
pub proof fn times_and_spans_add_up(t: Time, a: Duration, b: Duration)
    requires
        t.0 + a.0 <= u64::MAX,
        a.0 + b.0 <= u64::MAX,
    ensures
        t.add_spec(a).0 - t.0 == a.0,
        t.add_spec(a).sub_spec(a) == t,
        t.add_spec(a).sub_spec(t) == a,
        a.add_spec(b).0 - b.0 == a.0,
        a.add_spec(b).sub_spec(b) == a,
        t.add_req(a),
        a.add_req(b),
{
}

/// Whether `nanos` nanoseconds are `units` units of `size` nanoseconds, or the most that can be
/// counted if these are more.
pub open spec fn makes(units: u64, size: u64, nanos: u64) -> bool {
    if units * size <= u64::MAX {
        nanos == units * size
    } else {
        nanos == u64::MAX
    }
}

/// Whether `units` is the number of whole units of `size` nanoseconds in `nanos` nanoseconds.
pub open spec fn holds(nanos: u64, size: u64, units: u64) -> bool {
    units * size <= nanos < (units + 1) * size
}

/// A microsecond is a thousand nanoseconds, a millisecond a million, and a second a thousand
/// million; a point that is made from them is as far from the start, or the last one.
pub proof fn points_are_made_from_units(units: u64, n: Time, us: Time, ms: Time, s: Time)
    requires
        call_ensures(Time::from_nanos, (units,), n),
        call_ensures(Time::from_micros, (units,), us),
        call_ensures(Time::from_millis, (units,), ms),
        call_ensures(Time::from_secs, (units,), s),
    ensures
        makes(units, 1, n.0),
        makes(units, 1_000, us.0),
        makes(units, 1_000_000, ms.0),
        makes(units, 1_000_000_000, s.0),
{
}

/// A span that is made from units is as long as they are, or the longest one.
pub proof fn spans_are_made_from_units(
    units: u64,
    n: Duration,
    us: Duration,
    ms: Duration,
    s: Duration,
)
    requires
        call_ensures(Duration::from_nanos, (units,), n),
        call_ensures(Duration::from_micros, (units,), us),
        call_ensures(Duration::from_millis, (units,), ms),
        call_ensures(Duration::from_secs, (units,), s),
    ensures
        makes(units, 1, n.0),
        makes(units, 1_000, us.0),
        makes(units, 1_000_000, ms.0),
        makes(units, 1_000_000_000, s.0),
{
}

/// The units of a point are those that have passed by then, without the one that has begun.
pub proof fn points_hold_whole_units(t: Time, n: u64, us: u64, ms: u64, s: u64)
    requires
        call_ensures(Time::as_nanos, (&t,), n),
        call_ensures(Time::as_micros, (&t,), us),
        call_ensures(Time::as_millis, (&t,), ms),
        call_ensures(Time::as_secs, (&t,), s),
    ensures
        holds(t.0, 1, n),
        holds(t.0, 1_000, us),
        holds(t.0, 1_000_000, ms),
        holds(t.0, 1_000_000_000, s),
{
}

/// The units of a span are those that fit into it.
pub proof fn spans_hold_whole_units(d: Duration, n: u64, us: u64, ms: u64, s: u64)
    requires
        call_ensures(Duration::as_nanos, (&d,), n),
        call_ensures(Duration::as_micros, (&d,), us),
        call_ensures(Duration::as_millis, (&d,), ms),
        call_ensures(Duration::as_secs, (&d,), s),
    ensures
        holds(d.0, 1, n),
        holds(d.0, 1_000, us),
        holds(d.0, 1_000_000, ms),
        holds(d.0, 1_000_000_000, s),
{
}

/// Moving a point forth and back, and taking the difference of two points, stops at the ends of
/// what can be represented and nowhere else; the later of two points is one of them, and not
/// before either.
pub proof fn points_stop_at_the_ends(
    t: Time,
    other: Time,
    d: Duration,
    since: Duration,
    forth: Time,
    back: Time,
    later: Time,
)
    requires
        call_ensures(Time::saturating_duration_since, (&t, other), since),
        call_ensures(Time::saturating_add, (&t, d), forth),
        call_ensures(Time::saturating_sub, (&t, d), back),
        call_ensures(Time::later, (t, other), later),
    ensures
        t.0 >= other.0 ==> other.0 + since.0 == t.0,
        t.0 <= other.0 ==> since.0 == 0,
        forth.0 == t.0 + d.0 || (forth.0 == u64::MAX && t.0 + d.0 > u64::MAX),
        back.0 + d.0 == t.0 || (back.0 == 0 && d.0 > t.0),
        later == t || later == other,
        later.0 >= t.0 && later.0 >= other.0,
{
}

/// Adding, subtracting and multiplying spans stops at the ends of what can be represented and
/// nowhere else.
pub proof fn spans_stop_at_the_ends(
    a: Duration,
    b: Duration,
    n: u64,
    sum: Duration,
    rest: Duration,
    times: Duration,
    empty: bool,
)
    requires
        call_ensures(Duration::saturating_add, (&a, b), sum),
        call_ensures(Duration::saturating_sub, (&a, b), rest),
        call_ensures(Duration::saturating_mul, (&a, n), times),
        call_ensures(Duration::is_zero, (&a,), empty),
    ensures
        sum.0 == a.0 + b.0 || (sum.0 == u64::MAX && a.0 + b.0 > u64::MAX),
        rest.0 + b.0 == a.0 || (rest.0 == 0 && b.0 > a.0),
        makes(n, a.0, times.0),
        empty <==> a.0 + a.0 == a.0,
{
    assert(n * a.0 == a.0 * n) by (nonlinear_arith);
    assert(a.0 * n >= 0) by (nonlinear_arith);
}

/// Whether `text` is a number between `before` and `after`.
pub open spec fn says(text: Seq<char>, before: Seq<char>, n: int, after: Seq<char>) -> bool {
    exists|digits: Seq<char>|
        #![trigger reading(digits)]
        text == before + digits + after && all_digits(digits) && digits.len() > 0 && reading(digits)
            == n
}

proof fn lemma_says(before: Seq<char>, n: nat, after: Seq<char>)
    ensures
        says(before + decimal(n) + after, before, n as int, after),
        says(before + decimal(n), before, n as int, Seq::empty()),
{
    digits_read_as_the_number(n);
    assert(before + decimal(n) =~= before + decimal(n) + Seq::<char>::empty());
    assert(reading(decimal(n)) == n);
}

/// The text of an identifier is its number behind an `N` for a node and an `M` for a message, and
/// for debugging its number in brackets behind what it is.
pub proof fn identifiers_are_written_with_their_number(
    node: NodeId,
    message: MessageId,
    n: String,
    nd: String,
    m: String,
    md: String,
)
    requires
        call_ensures(NodeId::to_string, (&node,), n),
        call_ensures(NodeId::to_debug_string, (&node,), nd),
        call_ensures(MessageId::to_string, (&message,), m),
        call_ensures(MessageId::to_debug_string, (&message,), md),
    ensures
        says(n@, seq!['N'], node.0 as int, Seq::empty()),
        says(nd@, seq!['N', 'o', 'd', 'e', '('], node.0 as int, seq![')']),
        says(m@, seq!['M'], message.0 as int, Seq::empty()),
        says(md@, seq!['M', 's', 'g', '('], message.0 as int, seq![')']),
{
    reveal_strlit("N");
    reveal_strlit("Node(");
    reveal_strlit("M");
    reveal_strlit("Msg(");
    reveal_strlit(")");
    assert("N"@ =~= seq!['N']);
    assert("Node("@ =~= seq!['N', 'o', 'd', 'e', '(']);
    assert("M"@ =~= seq!['M']);
    assert("Msg("@ =~= seq!['M', 's', 'g', '(']);
    assert(")"@ =~= seq![')']);
    lemma_says("N"@, node.0 as nat, Seq::empty());
    lemma_says("Node("@, node.0 as nat, ")"@);
    lemma_says("M"@, message.0 as nat, Seq::empty());
    lemma_says("Msg("@, message.0 as nat, ")"@);
}

/// The text of a time for debugging is its nanoseconds in brackets behind what it is, and its
/// text is the one in the largest unit.
pub proof fn times_are_written_with_their_nanoseconds(
    t: Time,
    d: Duration,
    ts: String,
    td: String,
    ds: String,
    dd: String,
)
    requires
        call_ensures(Time::to_string, (&t,), ts),
        call_ensures(Time::to_debug_string, (&t,), td),
        call_ensures(Duration::to_string, (&d,), ds),
        call_ensures(Duration::to_debug_string, (&d,), dd),
    ensures
        ts@ == nanos_text(t.0),
        ds@ == nanos_text(d.0),
        says(td@, seq!['T', 'i', 'm', 'e', '('], t.0 as int, seq!['n', 's', ')']),
        says(
            dd@,
            seq!['D', 'u', 'r', 'a', 't', 'i', 'o', 'n', '('],
            d.0 as int,
            seq!['n', 's', ')'],
        ),
{
    reveal_strlit("Time(");
    reveal_strlit("Duration(");
    reveal_strlit("ns)");
    assert("Time("@ =~= seq!['T', 'i', 'm', 'e', '(']);
    assert("Duration("@ =~= seq!['D', 'u', 'r', 'a', 't', 'i', 'o', 'n', '(']);
    assert("ns)"@ =~= seq!['n', 's', ')']);
    lemma_says("Time("@, t.0 as nat, "ns)"@);
    lemma_says("Duration("@, d.0 as nat, "ns)"@);
}

/// Digits are written behind what is already there.
pub proof fn digits_are_written_at_the_end(out: &mut String, n: u64, width: u32)
    ensures
        call_ensures(push_decimal, (out, n), ()) ==> says(
            final(out)@,
            old(out)@,
            n as int,
            Seq::empty(),
        ),
        call_ensures(push_padded, (out, n, width), ()) && n < ten_to(width as nat) ==> {
            &&& final(out)@.len() == old(out)@.len() + width
            &&& final(out)@.take(old(out)@.len() as int) == old(out)@
            &&& reading(final(out)@.skip(old(out)@.len() as int)) == n
        },
{
    lemma_says(old(out)@, n as nat, Seq::empty());
    padded_digits_keep_their_width(n as nat, width as nat);
    let digits = padded(n as nat, width as nat);
    let whole = old(out)@ + digits;
    assert(whole.take(old(out)@.len() as int) =~= old(out)@);
    assert(whole.skip(old(out)@.len() as int) =~= digits);
}

/// An identifier has the number with which it is made.
pub proof fn identifiers_have_their_number(
    id: u32,
    number: u64,
    n: NodeId,
    m: MessageId,
    again: u32,
    place: usize,
    message: u64,
)
    requires
        call_ensures(NodeId::new, (id,), n),
        call_ensures(NodeId::as_u32, (&n,), again),
        call_ensures(NodeId::as_usize, (&n,), place),
        call_ensures(MessageId::new, (number,), m),
        call_ensures(MessageId::as_u64, (&m,), message),
    ensures
        n.0 == id,
        again == id,
        place == id,
        m.0 == number,
        message == number,
{
}

/// Nothing is before the first point or shorter than the empty span, and nothing after the last
/// point or longer than the longest span.
pub proof fn points_and_spans_have_ends(
    t: Time,
    d: Duration,
    first: Time,
    last: Time,
    empty: Duration,
    longest: Duration,
)
    requires
        call_ensures(Time::zero, (), first),
        call_ensures(Time::max_value, (), last),
        call_ensures(Duration::zero, (), empty),
        call_ensures(Duration::max_value, (), longest),
    ensures
        first.0 <= t.0 <= last.0,
        empty.0 <= d.0 <= longest.0,
{
}

} // verus!
