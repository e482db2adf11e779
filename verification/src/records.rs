//! How traces are recorded, read back and compared.

use vstd::prelude::*;
use vstd::std_specs::cmp::PartialEqSpec;

use crate::figures::{all_digits, digits_read_as_the_number, reading};
use crate::net::traced::NetTraceEvent;
use crate::task::event::TaskTraceEvent;
use crate::text::decimal;
use crate::time::{nanos_text, Time};
use crate::trace::{
    difference, first_difference, loaded, validated, verdict, ReplayError, Trace,
    TraceEnvelopeOwned, TraceEnvelopeRef, TraceEvent, TraceLoadError, TraceMismatch,
    TraceRecorder, TraceState,
};

verus! {

/// A new trace is empty, and recording adds one event at the end, at its time and numbered by its
/// place; the end of the trace is the time of the last event.
pub proof fn events_are_recorded_in_turn<E>(trace: TraceState<E>, seed: u64, time: Time, event: E)
    requires
        trace.events.len() < u64::MAX,
    ensures
        TraceState::<E>::empty(seed).seed == seed,
        TraceState::<E>::empty(seed).events.len() == 0,
        TraceState::<E>::empty(seed).final_time_ns == 0,
        ({
            let after = trace.recorded(time, event);
            &&& after.seed == trace.seed
            &&& after.events.len() == trace.events.len() + 1
            &&& after.events.drop_last() == trace.events
            &&& after.events.last().time_ns == time.0
            &&& after.events.last().sequence == trace.events.len()
            &&& after.events.last().event == event
            &&& after.final_time_ns == time.0
        }),
{
    assert(trace.recorded(time, event).events.drop_last() =~= trace.events);
}

/// A trace is read only with the tag of the format and in the version that is written; whatever
/// lacks the tag is no trace, whichever version it claims to have.
pub proof fn only_tagged_traces_are_read<E>(
    format: Seq<char>,
    schema_version: u32,
    content: TraceState<E>,
)
    ensures
        match loaded(format, schema_version, content) {
            Ok(trace) => {
                &&& format == "simulacra-trace"@
                &&& schema_version == 1
                &&& trace == content
            },
            Err(TraceLoadError::NotASimulacraTrace) => format != "simulacra-trace"@,
            Err(TraceLoadError::SchemaVersion { expected, found }) => {
                &&& format == "simulacra-trace"@
                &&& schema_version != 1
                &&& expected == 1
                &&& found == schema_version
            },
        },
{
}

/// Whether two traces have equal events at the same time at a place.
pub open spec fn agree_at<E: PartialEq>(
    a: Seq<TraceEvent<E>>,
    b: Seq<TraceEvent<E>>,
    k: int,
) -> bool {
    a[k].time_ns == b[k].time_ns && a[k].event.eq_spec(&b[k].event)
}

/// Whether two traces agree at every place before `n`.
pub open spec fn agree_before<E: PartialEq>(
    a: Seq<TraceEvent<E>>,
    b: Seq<TraceEvent<E>>,
    n: int,
) -> bool {
    forall|k: int| 0 <= k < n ==> #[trigger] agree_at(a, b, k)
}

proof fn lemma_first_difference<E: PartialEq>(
    a: Seq<TraceEvent<E>>,
    b: Seq<TraceEvent<E>>,
    i: nat,
)
    requires
        i <= a.len() <= usize::MAX,
        a.len() == b.len(),
        agree_before(a, b, i as int),
    ensures
        match first_difference(a, b, i) {
            None => agree_before(a, b, a.len() as int),
            Some(TraceMismatch::TimeMismatch { index, expected, actual }) => {
                &&& index < a.len()
                &&& agree_before(a, b, index as int)
                &&& a[index as int].time_ns != b[index as int].time_ns
                &&& expected.0 == a[index as int].time_ns
                &&& actual.0 == b[index as int].time_ns
            },
            Some(TraceMismatch::EventMismatch { index }) => {
                &&& index < a.len()
                &&& agree_before(a, b, index as int)
                &&& a[index as int].time_ns == b[index as int].time_ns
                &&& !a[index as int].event.eq_spec(&b[index as int].event)
            },
            _ => false,
        },
    decreases a.len() - i,
{
    if i < a.len() && agree_at(a, b, i as int) {
        assert forall|k: int| 0 <= k < i + 1 implies #[trigger] agree_at(a, b, k) by {
            assert(k < i || k == i);
        }
        lemma_first_difference(a, b, i + 1);
    }
}

/// What is told of two traces that differ is their first difference: the seeds, or the lengths of
/// traces with one seed, or the first place at which they do not agree, where different times are
/// told before different events. It tells what each of the two has there.
pub proof fn the_first_difference_is_told<E: PartialEq>(a: TraceState<E>, b: TraceState<E>)
    requires
        a.events.len() <= usize::MAX,
        b.events.len() <= usize::MAX,
    ensures
        match difference(a, b) {
            None => a.seed == b.seed && a.events.len() == b.events.len() && agree_before(
                a.events,
                b.events,
                a.events.len() as int,
            ),
            Some(TraceMismatch::SeedMismatch { expected, actual }) => expected == a.seed && actual
                == b.seed && a.seed != b.seed,
            Some(TraceMismatch::LengthMismatch { expected, actual }) => a.seed == b.seed
                && expected == a.events.len() && actual == b.events.len() && a.events.len()
                != b.events.len(),
            Some(TraceMismatch::TimeMismatch { index, expected, actual }) => {
                let i = index as int;
                &&& a.seed == b.seed
                &&& a.events.len() == b.events.len()
                &&& i < a.events.len()
                &&& agree_before(a.events, b.events, i)
                &&& a.events[i].time_ns != b.events[i].time_ns
                &&& expected.0 == a.events[i].time_ns
                &&& actual.0 == b.events[i].time_ns
            },
            Some(TraceMismatch::EventMismatch { index }) => {
                let i = index as int;
                &&& a.seed == b.seed
                &&& a.events.len() == b.events.len()
                &&& i < a.events.len()
                &&& agree_before(a.events, b.events, i)
                &&& a.events[i].time_ns == b.events[i].time_ns
                &&& !a.events[i].event.eq_spec(&b.events[i].event)
            },
        },
{
    if a.events.len() == b.events.len() {
        lemma_first_difference(a.events, b.events, 0);
    }
}

/// A comparison succeeds exactly if there is no difference, and a replay is turned away with the
/// seed of the run and the difference.
pub proof fn differences_are_errors(found: Option<TraceMismatch>, seed: u64)
    ensures
        verdict(found) is Ok <==> found is None,
        found matches Some(m) ==> verdict(found) == Err::<(), TraceMismatch>(m),
        validated(seed, verdict(found)) is Ok <==> found is None,
        validated(seed, verdict(found)) matches Err(e) ==> e.seed == seed && found == Some(
            e.mismatch,
        ),
{
}

/// What is recorded can be read: each event at its place and none behind the last, and a recorder
/// hands out what it recorded.
pub proof fn recorded_events_can_be_read<E>(
    t: Trace<E>,
    n: usize,
    empty: bool,
    end: Time,
    index: usize,
    e: Option<&TraceEvent<E>>,
    all: Vec<TraceEvent<E>>,
    r: TraceRecorder<E>,
    finished: Trace<E>,
    count: usize,
    none: bool,
)
    requires
        call_ensures(Trace::<E>::len, (&t,), n),
        call_ensures(Trace::<E>::is_empty, (&t,), empty),
        call_ensures(Trace::<E>::final_time, (&t,), end),
        call_ensures(Trace::<E>::get, (&t, index), e),
        call_ensures(Trace::<E>::into_events, (t,), all),
        call_ensures(TraceRecorder::<E>::finish, (r,), finished),
        call_ensures(TraceRecorder::<E>::len, (&r,), count),
        call_ensures(TraceRecorder::<E>::is_empty, (&r,), none),
    ensures
        all@ == t@.events,
        n == all.len(),
        empty == (n == 0),
        end.0 == t@.final_time_ns,
        e is Some <==> index < n,
        e matches Some(event) ==> *event == all[index as int],
        finished@ == r@,
        count == r@.events.len(),
        none == (count == 0),
{
}

/// Recording adds the event to the trace, and a new trace has its seed and nothing else.
pub proof fn traces_are_recorded_as_told<E>(
    t: &mut Trace<E>,
    r: &mut TraceRecorder<E>,
    seed: u64,
    capacity: usize,
    time: Time,
    event: E,
    fresh: Trace<E>,
    roomy: Trace<E>,
    recorder: TraceRecorder<E>,
)
    requires
        call_ensures(Trace::<E>::new, (seed,), fresh),
        call_ensures(Trace::<E>::with_capacity, (seed, capacity), roomy),
        call_ensures(TraceRecorder::<E>::new, (seed,), recorder),
    ensures
        fresh@.seed == seed,
        fresh@.events.len() == 0,
        fresh@.final_time_ns == 0,
        roomy@ == fresh@,
        recorder@ == fresh@,
        call_ensures(Trace::<E>::record, (t, time, event), ()) ==> {
            &&& final(t)@.seed == old(t)@.seed
            &&& final(t)@.final_time_ns == time.0
            &&& final(t)@.events == old(t)@.events.push(
                TraceEvent { time_ns: time.0, sequence: old(t)@.events.len() as u64, event },
            )
        },
        call_ensures(TraceRecorder::<E>::record, (r, time, event), ()) ==> {
            &&& final(r)@.seed == old(r)@.seed
            &&& final(r)@.final_time_ns == time.0
            &&& final(r)@.events == old(r)@.events.push(
                TraceEvent { time_ns: time.0, sequence: old(r)@.events.len() as u64, event },
            )
        },
{
}

/// A trace that is written and read again is the trace that it was, and what is written carries
/// the tag and the version with which it is read.
pub proof fn written_traces_are_read_again<'a, E>(
    t: Trace<E>,
    written: TraceEnvelopeRef<'a, E>,
    read: TraceEnvelopeOwned<E>,
    r: Result<Trace<E>, TraceLoadError>,
)
    requires
        call_ensures(Trace::<E>::envelope, (&t,), written),
        read.format@ == written.format@,
        read.schema_version == written.schema_version,
        read.seed == written.seed,
        read.events@ == written.events@,
        read.final_time_ns == written.final_time_ns,
        call_ensures(Trace::<E>::from_envelope, (read,), r),
    ensures
        r matches Ok(again) && again@ == t@,
{
    assert((TraceState {
        seed: read.seed,
        events: read.events@,
        final_time_ns: read.final_time_ns,
    }) =~= t@);
}

/// Comparing two traces succeeds exactly if they do not differ, and validating a replay succeeds
/// exactly if comparing does; it is turned away with the seed of the run and the difference.
pub proof fn replays_are_compared<E: PartialEq>(
    t: Trace<E>,
    replay: Trace<E>,
    c: Result<(), TraceMismatch>,
    v: Result<(), ReplayError>,
)
    requires
        E::obeys_eq_spec(),
        call_ensures(Trace::<E>::compare, (&t, &replay), c),
        call_ensures(Trace::<E>::validate_replay, (&t, &replay), v),
    ensures
        c is Ok <==> difference(t@, replay@) is None,
        c matches Err(m) ==> difference(t@, replay@) == Some(m),
        v is Ok <==> c is Ok,
        v matches Err(e) ==> e.seed == t@.seed && c == Err::<(), TraceMismatch>(e.mismatch),
{
}

/// An event of a trace has the time, the number and the content with which it is made.
pub proof fn events_of_traces_have_their_time<E>(
    time: Time,
    sequence: u64,
    event: E,
    e: TraceEvent<E>,
    t: Time,
)
    requires
        call_ensures(TraceEvent::<E>::new, (time, sequence, event), e),
        call_ensures(TraceEvent::<E>::time, (&e,), t),
    ensures
        t == time,
        e.time_ns == time.0,
        e.sequence == sequence,
        e.event == event,
{
}

/// Events that a trace tells are equal only if they are the same in everything that they tell.
pub proof fn told_events_are_equal_if_they_are_the_same(
    a: NetTraceEvent,
    b: NetTraceEvent,
    c: TaskTraceEvent,
    d: TaskTraceEvent,
)
    ensures
        a.eq_spec(&b) <==> a == b,
        c.eq_spec(&d) <==> c == d,
{
}

/// Whether digits stand for a number.
pub open spec fn reads(digits: Seq<char>, n: int) -> bool {
    all_digits(digits) && digits.len() > 0 && reading(digits) == n
}

/// The text of a difference says what was expected before what was found, and at which place; that
/// of an error which version was found before the one that is read. The numbers in both
/// texts are returned.
pub proof fn texts_tell_what_was_expected_first(
    m: TraceMismatch,
    found: u32,
    expected: u32,
) -> (r: (Seq<char>, Seq<char>, Seq<char>, Seq<char>))
    ensures
        ({
            let (first, second, version, wanted) = r;
            let text = m.text();
            let error = TraceLoadError::SchemaVersion { expected, found };
            &&& match m {
                TraceMismatch::SeedMismatch { expected, actual } => reads(first, expected as int)
                    && reads(second, actual as int) && text == "seed mismatch: expected "@ + first
                    + ", got "@ + second,
                TraceMismatch::LengthMismatch { expected, actual } => reads(first, expected as int)
                    && reads(second, actual as int) && text == "length mismatch: expected "@ + first
                    + " events, got "@ + second,
                TraceMismatch::TimeMismatch { index, expected, actual } => reads(
                    first,
                    index as int,
                ) && text == "time mismatch at event "@ + first + ": expected "@ + nanos_text(
                    expected.0,
                ) + ", got "@ + nanos_text(actual.0),
                TraceMismatch::EventMismatch { index } => reads(first, index as int) && text
                    == "event data mismatch at index "@ + first,
            }
            &&& reads(version, found as int)
            &&& reads(wanted, expected as int)
            &&& error.text() == "unsupported trace schema version: file is v"@ + version
                + ", this build expects v"@ + wanted
        }),
{
    let (first, second): (nat, nat) = match m {
        TraceMismatch::SeedMismatch { expected, actual } => (expected as nat, actual as nat),
        TraceMismatch::LengthMismatch { expected, actual } => (expected as nat, actual as nat),
        TraceMismatch::TimeMismatch { index, .. } => (index as nat, 0),
        TraceMismatch::EventMismatch { index } => (index as nat, 0),
    };
    digits_read_as_the_number(first);
    digits_read_as_the_number(second);
    digits_read_as_the_number(found as nat);
    digits_read_as_the_number(expected as nat);
    (decimal(first), decimal(second), decimal(found as nat), decimal(expected as nat))
}

} // verus!
