//! Traces of simulation runs: recording, comparison and replay validation.

use vstd::prelude::*;
use vstd::std_specs::cmp::PartialEqSpec;
use vstd::std_specs::iter::IteratorSpec;
use vstd::string::StringExecFns;

use crate::text::{decimal, push_decimal};
use crate::time::{nanos_text, Time};

verus! {

/// The version of the serialized shape of a trace.
pub const TRACE_SCHEMA_VERSION: u32 = 1;

/// The tag by which a serialized trace is recognised.
pub const TRACE_FORMAT: &'static str = "simulacra-trace";

/// An event of a trace.
#[derive(Debug, Clone)]
pub struct TraceEvent<E> {
    /// The simulated time of the event, in nanoseconds.
    pub time_ns: u64,
    /// The number of events before it.
    pub sequence: u64,
    /// The event itself.
    pub event: E,
}

impl<E> TraceEvent<E> {
    /// Creates an event of a trace.
    pub fn new(time: Time, sequence: u64, event: E) -> (t: TraceEvent<E>)
        ensures
            t == (TraceEvent { time_ns: time.0, sequence, event }),
    {
        TraceEvent { time_ns: time.0, sequence, event }
    }

    /// The simulated time of the event.
    pub fn time(&self) -> (t: Time)
        ensures
            t.0 == self.time_ns,
    {
        Time(self.time_ns)
    }
}

/// What a trace holds.
#[verifier::ext_equal]
pub struct TraceState<E> {
    /// The seed of the run.
    pub seed: u64,
    /// The events, in processing order.
    pub events: Seq<TraceEvent<E>>,
    /// The simulated time at the end of the run, in nanoseconds.
    pub final_time_ns: u64,
}

impl<E> TraceState<E> {
    /// A trace without events.
    pub open spec fn empty(seed: u64) -> TraceState<E> {
        TraceState { seed, events: Seq::empty(), final_time_ns: 0 }
    }

    /// The trace with one more event, which is numbered by its place.
    pub open spec fn recorded(self, time: Time, event: E) -> TraceState<E> {
        TraceState {
            seed: self.seed,
            events: self.events.push(
                TraceEvent { time_ns: time.0, sequence: self.events.len() as u64, event },
            ),
            final_time_ns: time.0,
        }
    }
}

/// The trace of a simulation run.
#[derive(Debug, Clone)]
pub struct Trace<E> {
    /// The seed of the run.
    pub seed: u64,
    events: Vec<TraceEvent<E>>,
    /// The simulated time at the end of the run, in nanoseconds.
    pub final_time_ns: u64,
}

impl<E> View for Trace<E> {
    type V = TraceState<E>;

    closed spec fn view(&self) -> TraceState<E> {
        TraceState { seed: self.seed, events: self.events@, final_time_ns: self.final_time_ns }
    }
}

impl<E> Trace<E> {
    /// Creates a trace without events.
    pub fn new(seed: u64) -> (t: Trace<E>)
        ensures
            t@ == TraceState::<E>::empty(seed),
    {
        Trace { seed, events: Vec::new(), final_time_ns: 0 }
    }

    /// Creates a trace without events, with room for `capacity` of them.
    pub fn with_capacity(seed: u64, capacity: usize) -> (t: Trace<E>)
        ensures
            t@ == TraceState::<E>::empty(seed),
    {
        Trace { seed, events: Vec::with_capacity(capacity), final_time_ns: 0 }
    }

    /// Records an event.
    pub fn record(&mut self, time: Time, event: E)
        ensures
            final(self)@ == old(self)@.recorded(time, event),
    {
        let sequence: u64 = self.events.len() as u64;
        self.events.push(TraceEvent::new(time, sequence, event));
        self.final_time_ns = time.0;
    }

    /// Sets the simulated time at the end of the run.
    pub(crate) fn set_final_time(&mut self, time: Time)
        ensures
            final(self)@ == (TraceState { final_time_ns: time.0, ..old(self)@ }),
    {
        self.final_time_ns = time.0;
    }

    /// The simulated time at the end of the run.
    pub fn final_time(&self) -> (t: Time)
        ensures
            t.0 == self@.final_time_ns,
    {
        Time(self.final_time_ns)
    }

    /// The number of events.
    pub fn len(&self) -> (n: usize)
        ensures
            n == self@.events.len(),
    {
        self.events.len()
    }

    /// Whether there are no events.
    pub fn is_empty(&self) -> (r: bool)
        ensures
            r == (self@.events.len() == 0),
    {
        self.events.len() == 0
    }

    /// The events, in processing order.
    pub fn events(&self) -> (it: std::slice::Iter<'_, TraceEvent<E>>)
        ensures
            it.remaining() == self@.events.as_ref(),
    {
        broadcast use vstd::std_specs::slice::axiom_spec_slice_iter;

        self.events.as_slice().iter()
    }

    /// The event at a place.
    pub fn get(&self, index: usize) -> (r: Option<&TraceEvent<E>>)
        ensures
            r == (if index < self@.events.len() {
                Some(&self@.events[index as int])
            } else {
                None
            }),
    {
        if index < self.events.len() {
            Some(&self.events[index])
        } else {
            None
        }
    }

    /// Hands out the events.
    pub fn into_events(self) -> (events: Vec<TraceEvent<E>>)
        ensures
            events@ == self@.events,
    {
        self.events
    }
}

/// The serialized shape of a trace, borrowed.
pub struct TraceEnvelopeRef<'a, E> {
    /// The tag of the format.
    pub format: &'static str,
    /// The version of the shape.
    pub schema_version: u32,
    /// The seed of the run.
    pub seed: u64,
    /// The events, in processing order.
    pub events: &'a [TraceEvent<E>],
    /// The simulated time at the end of the run, in nanoseconds.
    pub final_time_ns: u64,
}

/// The serialized shape of a trace, as it is read and not yet checked.
pub struct TraceEnvelopeOwned<E> {
    /// The tag of the format, empty where there is none.
    pub format: String,
    /// The version of the shape, zero where there is none.
    pub schema_version: u32,
    /// The seed of the run.
    pub seed: u64,
    /// The events, in processing order.
    pub events: Vec<TraceEvent<E>>,
    /// The simulated time at the end of the run, in nanoseconds.
    pub final_time_ns: u64,
}

/// Why a serialized trace was turned away.
#[derive(Debug, Clone, Copy, PartialEq, Eq, Structural)]
pub enum TraceLoadError {
    /// It lacks the tag of the format.
    NotASimulacraTrace,
    /// It has another version.
    SchemaVersion {
        /// The version that is read.
        expected: u32,
        /// The version that was found.
        found: u32,
    },
}

impl TraceLoadError {
    /// The text of the error.
    pub open spec fn text(self) -> Seq<char> {
        match self {
            TraceLoadError::NotASimulacraTrace =>
                "not a Simulacra trace (missing or wrong \"simulacra-trace\" format tag)"@,
            TraceLoadError::SchemaVersion { expected, found } =>
                "unsupported trace schema version: file is v"@ + decimal(found as nat)
                    + ", this build expects v"@ + decimal(expected as nat),
        }
    }

    /// The text of the error.
    pub fn to_string(&self) -> (s: String)
        ensures
            s@ == self.text(),
    {
        match self {
            TraceLoadError::NotASimulacraTrace => String::from_str(
                "not a Simulacra trace (missing or wrong \"simulacra-trace\" format tag)",
            ),
            TraceLoadError::SchemaVersion { expected, found } => {
                let mut out: String = String::from_str(
                    "unsupported trace schema version: file is v",
                );
                push_decimal(&mut out, *found as u64);
                out.append(", this build expects v");
                push_decimal(&mut out, *expected as u64);
                out
            },
        }
    }
}

/// What reading a serialized trace comes to: whatever lacks the tag or has another
/// version is turned away, the tag being checked first.
pub open spec fn loaded<E>(
    format: Seq<char>,
    schema_version: u32,
    content: TraceState<E>,
) -> Result<TraceState<E>, TraceLoadError> {
    if format != TRACE_FORMAT@ {
        Err(TraceLoadError::NotASimulacraTrace)
    } else if schema_version != TRACE_SCHEMA_VERSION {
        Err(
            TraceLoadError::SchemaVersion {
                expected: TRACE_SCHEMA_VERSION,
                found: schema_version,
            },
        )
    } else {
        Ok(content)
    }
}

/// A trace is read back from its serialized shape as it was.
pub proof fn envelopes_carry_traces<E>(trace: TraceState<E>)
    ensures
        loaded(TRACE_FORMAT@, TRACE_SCHEMA_VERSION, trace) == Ok::<TraceState<E>, TraceLoadError>(
            trace,
        ),
{
}

/// Whether every event is numbered by its place.
pub open spec fn numbered<E>(trace: TraceState<E>) -> bool {
    forall|i: int| 0 <= i < trace.events.len() ==> (#[trigger] trace.events[i]).sequence == i
}

/// Recording numbers the events by their places, keeps what was recorded before,
/// and leaves the final time at that of the last event.
pub proof fn recording_numbers_events<E>(trace: TraceState<E>, time: Time, event: E)
    requires
        numbered(trace),
        trace.events.len() < u64::MAX,
    ensures
        numbered(TraceState::<E>::empty(trace.seed)),
        numbered(trace.recorded(time, event)),
        trace.recorded(time, event).events.drop_last() == trace.events,
        trace.recorded(time, event).events.last().event == event,
        trace.recorded(time, event).final_time_ns == time.0,
        trace.recorded(time, event).seed == trace.seed,
{
    assert(trace.recorded(time, event).events.drop_last() =~= trace.events);
}

impl<E> Trace<E> {
    /// The serialized shape of the trace, tagged and versioned.
    pub fn envelope(&self) -> (env: TraceEnvelopeRef<'_, E>)
        ensures
            env.format@ == TRACE_FORMAT@,
            env.schema_version == TRACE_SCHEMA_VERSION,
            env.seed == self@.seed,
            env.events@ == self@.events,
            env.final_time_ns == self@.final_time_ns,
    {
        TraceEnvelopeRef {
            format: TRACE_FORMAT,
            schema_version: TRACE_SCHEMA_VERSION,
            seed: self.seed,
            events: self.events.as_slice(),
            final_time_ns: self.final_time_ns,
        }
    }

    /// Takes a trace from its serialized shape. Whatever lacks the tag or has
    /// another version is turned away, the tag being checked first.
    pub fn from_envelope(env: TraceEnvelopeOwned<E>) -> (r: Result<Trace<E>, TraceLoadError>)
        ensures
            match r {
                Ok(trace) => Ok(trace@),
                Err(e) => Err(e),
            } == loaded(
                env.format@,
                env.schema_version,
                TraceState {
                    seed: env.seed,
                    events: env.events@,
                    final_time_ns: env.final_time_ns,
                },
            ),
    {
        if env.format != String::from_str(TRACE_FORMAT) {
            return Err(TraceLoadError::NotASimulacraTrace);
        }
        if env.schema_version != TRACE_SCHEMA_VERSION {
            return Err(
                TraceLoadError::SchemaVersion {
                    expected: TRACE_SCHEMA_VERSION,
                    found: env.schema_version,
                },
            );
        }
        Ok(Trace { seed: env.seed, events: env.events, final_time_ns: env.final_time_ns })
    }
}

/// How two traces differ.
#[derive(Debug, Clone, Copy, PartialEq, Eq, Structural)]
pub enum TraceMismatch {
    /// In their seeds.
    SeedMismatch {
        /// The seed of the first trace.
        expected: u64,
        /// The seed of the second trace.
        actual: u64,
    },
    /// In the number of their events.
    LengthMismatch {
        /// The number of events of the first trace.
        expected: usize,
        /// The number of events of the second trace.
        actual: usize,
    },
    /// In the time of an event.
    TimeMismatch {
        /// The place of the event.
        index: usize,
        /// Its time in the first trace.
        expected: Time,
        /// Its time in the second trace.
        actual: Time,
    },
    /// In an event.
    EventMismatch {
        /// The place of the event.
        index: usize,
    },
}

impl TraceMismatch {
    /// The text of the mismatch.
    pub open spec fn text(self) -> Seq<char> {
        match self {
            TraceMismatch::SeedMismatch { expected, actual } => "seed mismatch: expected "@
                + decimal(expected as nat) + ", got "@ + decimal(actual as nat),
            TraceMismatch::LengthMismatch { expected, actual } => "length mismatch: expected "@
                + decimal(expected as nat) + " events, got "@ + decimal(actual as nat),
            TraceMismatch::TimeMismatch { index, expected, actual } => "time mismatch at event "@
                + decimal(index as nat) + ": expected "@ + nanos_text(expected.0) + ", got "@
                + nanos_text(actual.0),
            TraceMismatch::EventMismatch { index } => "event data mismatch at index "@ + decimal(
                index as nat,
            ),
        }
    }

    /// The text of the mismatch.
    pub fn to_string(&self) -> (s: String)
        ensures
            s@ == self.text(),
    {
        match self {
            TraceMismatch::SeedMismatch { expected, actual } => {
                let mut out: String = String::from_str("seed mismatch: expected ");
                push_decimal(&mut out, *expected);
                out.append(", got ");
                push_decimal(&mut out, *actual);
                out
            },
            TraceMismatch::LengthMismatch { expected, actual } => {
                let mut out: String = String::from_str("length mismatch: expected ");
                push_decimal(&mut out, *expected as u64);
                out.append(" events, got ");
                push_decimal(&mut out, *actual as u64);
                out
            },
            TraceMismatch::TimeMismatch { index, expected, actual } => {
                let mut out: String = String::from_str("time mismatch at event ");
                push_decimal(&mut out, *index as u64);
                out.append(": expected ");
                out.append(expected.to_string().as_str());
                out.append(", got ");
                out.append(actual.to_string().as_str());
                out
            },
            TraceMismatch::EventMismatch { index } => {
                let mut out: String = String::from_str("event data mismatch at index ");
                push_decimal(&mut out, *index as u64);
                out
            },
        }
    }
}

/// The first difference between two sequences of events of one length, from
/// place `i` on: at each place the times come before the events.
pub open spec fn first_difference<E: PartialEq>(
    a: Seq<TraceEvent<E>>,
    b: Seq<TraceEvent<E>>,
    i: nat,
) -> Option<TraceMismatch>
    decreases a.len() - i,
{
    if i >= a.len() {
        None
    } else if a[i as int].time_ns != b[i as int].time_ns {
        Some(
            TraceMismatch::TimeMismatch {
                index: i as usize,
                expected: Time(a[i as int].time_ns),
                actual: Time(b[i as int].time_ns),
            },
        )
    } else if !a[i as int].event.eq_spec(&b[i as int].event) {
        Some(TraceMismatch::EventMismatch { index: i as usize })
    } else {
        first_difference(a, b, i + 1)
    }
}

/// The first difference between two traces: the seeds come before the lengths,
/// these before the events. The numbers of the events and the final times do
/// not count.
pub open spec fn difference<E: PartialEq>(a: TraceState<E>, b: TraceState<E>) -> Option<
    TraceMismatch,
> {
    if a.seed != b.seed {
        Some(TraceMismatch::SeedMismatch { expected: a.seed, actual: b.seed })
    } else if a.events.len() != b.events.len() {
        Some(
            TraceMismatch::LengthMismatch {
                expected: a.events.len() as usize,
                actual: b.events.len() as usize,
            },
        )
    } else {
        first_difference(a.events, b.events, 0)
    }
}

proof fn lemma_first_difference<E: PartialEq>(
    a: Seq<TraceEvent<E>>,
    b: Seq<TraceEvent<E>>,
    i: nat,
)
    requires
        a.len() == b.len(),
    ensures
        first_difference(a, b, i) is None <==> forall|k: int|
            i <= k < a.len() ==> (#[trigger] a[k]).time_ns == b[k].time_ns && a[k].event.eq_spec(
                &b[k].event,
            ),
    decreases a.len() - i,
{
    if i < a.len() {
        lemma_first_difference(a, b, i + 1);
        if first_difference(a, b, i) is None {
            assert(a[i as int].time_ns == b[i as int].time_ns);
        } else if a[i as int].time_ns == b[i as int].time_ns && a[i as int].event.eq_spec(
            &b[i as int].event,
        ) {
            assert(first_difference(a, b, i + 1) is Some);
        } else {
            assert(!(a[i as int].time_ns == b[i as int].time_ns && a[i as int].event.eq_spec(
                &b[i as int].event,
            )));
        }
    }
}

/// Two traces do not differ exactly if they have the same seed, the same number of
/// events, and at each place equal events at the same time.
pub proof fn traces_agree_iff_same_events<E: PartialEq>(a: TraceState<E>, b: TraceState<E>)
    ensures
        difference(a, b) is None <==> {
            &&& a.seed == b.seed
            &&& a.events.len() == b.events.len()
            &&& forall|k: int|
                0 <= k < a.events.len() ==> (#[trigger] a.events[k]).time_ns == b.events[k].time_ns
                    && a.events[k].event.eq_spec(&b.events[k].event)
        },
{
    if a.events.len() == b.events.len() {
        lemma_first_difference(a.events, b.events, 0);
    }
}

/// Where equality of events is reflexive and symmetric, a trace agrees with itself
/// and with every trace that agrees with it.
pub proof fn agreement_is_reflexive_and_symmetric<E: PartialEq>(a: TraceState<E>, b: TraceState<E>)
    requires
        forall|x: E| #[trigger] x.eq_spec(&x),
        forall|x: E, y: E| #[trigger] x.eq_spec(&y) ==> y.eq_spec(&x),
    ensures
        difference(a, a) is None,
        difference(a, b) is None <==> difference(b, a) is None,
{
    traces_agree_iff_same_events(a, a);
    traces_agree_iff_same_events(a, b);
    traces_agree_iff_same_events(b, a);
    if difference(a, b) is None {
        assert forall|k: int| 0 <= k < b.events.len() implies (
        #[trigger] b.events[k]).time_ns == a.events[k].time_ns && b.events[k].event.eq_spec(
            &a.events[k].event,
        ) by {
            assert(a.events[k].time_ns == b.events[k].time_ns);
        }
    }
    if difference(b, a) is None {
        assert forall|k: int| 0 <= k < a.events.len() implies (
        #[trigger] a.events[k]).time_ns == b.events[k].time_ns && a.events[k].event.eq_spec(
            &b.events[k].event,
        ) by {
            assert(b.events[k].time_ns == a.events[k].time_ns);
        }
    }
}

/// Whether the first `n` events of two traces have the same times.
pub open spec fn same_times<E>(
    a: Seq<TraceEvent<E>>,
    b: Seq<TraceEvent<E>>,
    n: int,
) -> bool {
    forall|k: int| 0 <= k < n ==> (#[trigger] a[k]).time_ns == b[k].time_ns
}

/// What a comparison may return, whatever counts as equal events: the seeds, the
/// lengths and the times decide what they decide.
pub open spec fn plausible<E>(
    a: TraceState<E>,
    b: TraceState<E>,
    r: Result<(), TraceMismatch>,
) -> bool {
    let alike = a.seed == b.seed && a.events.len() == b.events.len();
    match r {
        Ok(()) => alike && same_times(a.events, b.events, a.events.len() as int),
        Err(TraceMismatch::SeedMismatch { expected, actual }) => expected == a.seed && actual
            == b.seed && expected != actual,
        Err(TraceMismatch::LengthMismatch { expected, actual }) => a.seed == b.seed && expected
            == a.events.len() && actual == b.events.len() && expected != actual,
        Err(TraceMismatch::TimeMismatch { index, expected, actual }) => {
            &&& alike
            &&& index < a.events.len()
            &&& same_times(a.events, b.events, index as int)
            &&& expected.0 == a.events[index as int].time_ns
            &&& actual.0 == b.events[index as int].time_ns
            &&& expected != actual
        },
        Err(TraceMismatch::EventMismatch { index }) => {
            &&& alike
            &&& index < a.events.len()
            &&& same_times(a.events, b.events, index + 1)
        },
    }
}

/// What a comparison returns.
pub open spec fn verdict(difference: Option<TraceMismatch>) -> Result<(), TraceMismatch> {
    match difference {
        Some(mismatch) => Err(mismatch),
        None => Ok(()),
    }
}

impl<E: PartialEq> Trace<E> {
    /// Compares two traces; an error tells their first difference.
    pub fn compare(&self, other: &Trace<E>) -> (r: Result<(), TraceMismatch>)
        ensures
            E::obeys_eq_spec() || self@.seed != other@.seed || self@.events.len()
                != other@.events.len() ==> r == verdict(difference(self@, other@)),
            plausible(self@, other@, r),
    {
        if self.seed != other.seed {
            return Err(
                TraceMismatch::SeedMismatch { expected: self.seed, actual: other.seed },
            );
        }
        if self.events.len() != other.events.len() {
            return Err(
                TraceMismatch::LengthMismatch {
                    expected: self.events.len(),
                    actual: other.events.len(),
                },
            );
        }
        let mut i: usize = 0;
        while i < self.events.len()
            invariant
                i <= self.events.len(),
                self.events.len() == other.events.len(),
                self@.seed == other@.seed,
                self@.events == self.events@,
                other@.events == other.events@,
                same_times(self@.events, other@.events, i as int),
                E::obeys_eq_spec() ==> difference(self@, other@) == first_difference(
                    self@.events,
                    other@.events,
                    i as nat,
                ),
            decreases self.events.len() - i,
        {
            let a: &TraceEvent<E> = &self.events[i];
            let b: &TraceEvent<E> = &other.events[i];
            if a.time_ns != b.time_ns {
                return Err(
                    TraceMismatch::TimeMismatch {
                        index: i,
                        expected: Time(a.time_ns),
                        actual: Time(b.time_ns),
                    },
                );
            }
            if a.event != b.event {
                return Err(TraceMismatch::EventMismatch { index: i });
            }
            i = i + 1;
        }
        Ok(())
    }

    /// Checks that `replay` repeats this trace: it does if comparing the two finds no
    /// difference, and otherwise the error tells what comparing them tells.
    pub fn validate_replay(&self, replay: &Trace<E>) -> (r: Result<(), ReplayError>)
        ensures
            exists|c: Result<(), TraceMismatch>|
                {
                    &&& #[trigger] call_ensures(Trace::<E>::compare, (self, replay), c)
                    &&& r == validated(self@.seed, c)
                },
            E::obeys_eq_spec() || self@.seed != replay@.seed || self@.events.len()
                != replay@.events.len() ==> r == (match difference(self@, replay@) {
                Some(mismatch) => Err(ReplayError { seed: self@.seed, mismatch }),
                None => Ok(()),
            }),
            plausible(
                self@,
                replay@,
                match r {
                    Ok(()) => Ok(()),
                    Err(e) => Err(e.mismatch),
                },
            ),
            r matches Err(e) ==> e.seed == self@.seed,
    {
        let compare = Trace::<E>::compare;
        match compare(self, replay) {
            Ok(()) => Ok(()),
            Err(mismatch) => Err(ReplayError { seed: self.seed, mismatch }),
        }
    }
}

/// What validating a replay makes of the outcome of a comparison.
pub open spec fn validated(seed: u64, compared: Result<(), TraceMismatch>) -> Result<
    (),
    ReplayError,
> {
    match compared {
        Ok(()) => Ok(()),
        Err(mismatch) => Err(ReplayError { seed, mismatch }),
    }
}

/// A replay that went another way.
#[derive(Debug, Clone, Copy, PartialEq, Eq, Structural)]
pub struct ReplayError {
    /// The seed of the run.
    pub seed: u64,
    /// How the replay differs.
    pub mismatch: TraceMismatch,
}

impl ReplayError {
    /// The text of the error.
    pub fn to_string(&self) -> (s: String)
        ensures
            s@ == "replay validation failed (seed "@ + decimal(self.seed as nat) + "): "@
                + self.mismatch.text(),
    {
        let mut out: String = String::from_str("replay validation failed (seed ");
        push_decimal(&mut out, self.seed);
        out.append("): ");
        out.append(self.mismatch.to_string().as_str());
        out
    }
}

/// A recorder of events during a simulation.
#[derive(Debug)]
pub struct TraceRecorder<E> {
    trace: Trace<E>,
}

impl<E> View for TraceRecorder<E> {
    type V = TraceState<E>;

    closed spec fn view(&self) -> TraceState<E> {
        self.trace@
    }
}

impl<E> TraceRecorder<E> {
    /// Creates a recorder.
    pub fn new(seed: u64) -> (t: TraceRecorder<E>)
        ensures
            t@ == TraceState::<E>::empty(seed),
    {
        TraceRecorder { trace: Trace::new(seed) }
    }

    /// Creates a recorder with room for `capacity` events.
    pub fn with_capacity(seed: u64, capacity: usize) -> (t: TraceRecorder<E>)
        ensures
            t@ == TraceState::<E>::empty(seed),
    {
        TraceRecorder { trace: Trace::with_capacity(seed, capacity) }
    }

    /// Records an event.
    pub fn record(&mut self, time: Time, event: E)
        ensures
            final(self)@ == old(self)@.recorded(time, event),
    {
        self.trace.record(time, event);
    }

    /// The number of recorded events.
    pub fn len(&self) -> (n: usize)
        ensures
            n == self@.events.len(),
    {
        self.trace.len()
    }

    /// Whether nothing was recorded.
    pub fn is_empty(&self) -> (r: bool)
        ensures
            r == (self@.events.len() == 0),
    {
        self.trace.is_empty()
    }

    /// Hands out the trace.
    pub fn finish(self) -> (t: Trace<E>)
        ensures
            t@ == self@,
    {
        self.trace
    }
}

impl<E: Clone> TraceRecorder<E> {
    /// Records a clone of an event.
    pub fn record_clone(&mut self, time: Time, event: &E)
        ensures
            exists|copy: E|
                cloned::<E>(*event, copy) && final(self)@ == #[trigger] old(self)@.recorded(
                    time,
                    copy,
                ),
    {
        let copy: E = event.clone();
        let ghost made = copy;
        self.trace.record(time, copy);
        assert(cloned::<E>(*event, made) && self@ == old(self)@.recorded(time, made));
    }
}

} // verus!
