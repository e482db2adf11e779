use serde_json::Value;
use simulacra::trace::{TraceEnvelopeOwned, TraceLoadError};
use simulacra::{Time, Trace, TraceEvent, TraceMismatch, TraceRecorder, TRACE_SCHEMA_VERSION};

#[derive(Debug, Clone, PartialEq)]
enum TestEvent {
    A(u32),
    B(String),
}

fn event_value(event: &TestEvent) -> Value {
    let mut object = serde_json::Map::new();
    match event {
        TestEvent::A(n) => object.insert("A".to_string(), Value::from(*n)),
        TestEvent::B(s) => object.insert("B".to_string(), Value::from(s.clone())),
    };
    Value::Object(object)
}

fn event_of(value: &Value) -> TestEvent {
    let object = value.as_object().unwrap();
    match object.get("A") {
        Some(n) => TestEvent::A(n.as_u64().unwrap() as u32),
        None => TestEvent::B(object.get("B").unwrap().as_str().unwrap().to_string()),
    }
}

fn to_json(trace: &Trace<TestEvent>) -> String {
    let envelope = trace.envelope();
    let mut events = Vec::new();
    for e in envelope.events {
        let mut object = serde_json::Map::new();
        object.insert("time_ns".to_string(), Value::from(e.time_ns));
        object.insert("sequence".to_string(), Value::from(e.sequence));
        object.insert("event".to_string(), event_value(&e.event));
        events.push(Value::Object(object));
    }
    let mut object = serde_json::Map::new();
    object.insert("format".to_string(), Value::from(envelope.format));
    object.insert(
        "schema_version".to_string(),
        Value::from(envelope.schema_version),
    );
    object.insert("seed".to_string(), Value::from(envelope.seed));
    object.insert("events".to_string(), Value::Array(events));
    object.insert(
        "final_time_ns".to_string(),
        Value::from(envelope.final_time_ns),
    );
    serde_json::to_string(&Value::Object(object)).unwrap()
}

#[derive(Debug)]
enum LoadError {
    Json(serde_json::Error),
    Load(TraceLoadError),
}

fn from_json(json: &str) -> Result<Trace<TestEvent>, LoadError> {
    let value: Value = serde_json::from_str(json).map_err(LoadError::Json)?;
    let events = value["events"]
        .as_array()
        .unwrap()
        .iter()
        .map(|e| {
            TraceEvent::new(
                Time::from_nanos(e["time_ns"].as_u64().unwrap()),
                e["sequence"].as_u64().unwrap(),
                event_of(&e["event"]),
            )
        })
        .collect();
    Trace::from_envelope(TraceEnvelopeOwned {
        format: value["format"].as_str().unwrap_or("").to_string(),
        schema_version: value["schema_version"].as_u64().unwrap_or(0) as u32,
        seed: value["seed"].as_u64().unwrap(),
        events,
        final_time_ns: value["final_time_ns"].as_u64().unwrap(),
    })
    .map_err(LoadError::Load)
}

#[test]
fn basic_recording() {
    let mut recorder = TraceRecorder::new(42);
    recorder.record(Time::from_millis(100), TestEvent::A(1));
    recorder.record(Time::from_millis(200), TestEvent::B("hello".into()));

    let trace = recorder.finish();
    assert_eq!(trace.seed, 42);
    assert_eq!(trace.len(), 2);
    assert_eq!(trace.final_time(), Time::from_millis(200));

    let events: Vec<_> = trace.events().collect();
    assert_eq!(events[0].time(), Time::from_millis(100));
    assert_eq!(events[0].sequence, 0);
    assert_eq!(events[1].sequence, 1);
}

#[test]
fn trace_comparison_equal() {
    let mut t1 = Trace::new(42);
    t1.record(Time::from_millis(100), TestEvent::A(1));
    t1.record(Time::from_millis(200), TestEvent::A(2));

    let mut t2 = Trace::new(42);
    t2.record(Time::from_millis(100), TestEvent::A(1));
    t2.record(Time::from_millis(200), TestEvent::A(2));

    assert!(t1.compare(&t2).is_ok());
}

#[test]
fn trace_comparison_seed_mismatch() {
    let t1 = Trace::<TestEvent>::new(42);
    let t2 = Trace::<TestEvent>::new(43);

    let err = t1.compare(&t2).unwrap_err();
    assert!(matches!(err, TraceMismatch::SeedMismatch { .. }));
}

#[test]
fn trace_comparison_length_mismatch() {
    let mut t1 = Trace::new(42);
    t1.record(Time::from_millis(100), TestEvent::A(1));

    let mut t2 = Trace::new(42);
    t2.record(Time::from_millis(100), TestEvent::A(1));
    t2.record(Time::from_millis(200), TestEvent::A(2));

    let err = t1.compare(&t2).unwrap_err();
    assert!(matches!(
        err,
        TraceMismatch::LengthMismatch {
            expected: 1,
            actual: 2
        }
    ));
}

#[test]
fn trace_comparison_time_mismatch() {
    let mut t1 = Trace::new(42);
    t1.record(Time::from_millis(100), TestEvent::A(1));

    let mut t2 = Trace::new(42);
    t2.record(Time::from_millis(150), TestEvent::A(1));

    let err = t1.compare(&t2).unwrap_err();
    assert!(matches!(err, TraceMismatch::TimeMismatch { index: 0, .. }));
}

#[test]
fn trace_comparison_event_mismatch() {
    let mut t1 = Trace::new(42);
    t1.record(Time::from_millis(100), TestEvent::A(1));

    let mut t2 = Trace::new(42);
    t2.record(Time::from_millis(100), TestEvent::A(2));

    let err = t1.compare(&t2).unwrap_err();
    assert!(matches!(err, TraceMismatch::EventMismatch { index: 0 }));
}

#[test]
fn into_events() {
    let mut trace = Trace::new(42);
    trace.record(Time::from_millis(100), TestEvent::A(1));
    trace.record(Time::from_millis(200), TestEvent::A(2));

    let events = trace.into_events();
    assert_eq!(events.len(), 2);
    assert_eq!(events[0].event, TestEvent::A(1));
    assert_eq!(events[1].event, TestEvent::A(2));
}

#[test]
fn validate_replay() {
    let mut original = Trace::new(42);
    original.record(Time::from_millis(100), TestEvent::A(1));

    let mut replay = Trace::new(42);
    replay.record(Time::from_millis(100), TestEvent::A(1));

    assert!(original.validate_replay(&replay).is_ok());

    let mut bad_replay = Trace::new(42);
    bad_replay.record(Time::from_millis(100), TestEvent::A(2));

    let err = original.validate_replay(&bad_replay).unwrap_err();
    assert_eq!(err.seed, 42);
}

#[test]
fn json_roundtrip() {
    let mut trace = Trace::new(42);
    trace.record(Time::from_millis(100), TestEvent::A(1));
    trace.record(Time::from_millis(200), TestEvent::B("hello".into()));

    let json = to_json(&trace);
    let parsed: Trace<TestEvent> = from_json(&json).unwrap();

    assert!(trace.compare(&parsed).is_ok());
}

#[test]
fn json_carries_format_tag_and_version() {
    let mut trace = Trace::new(7);
    trace.record(Time::from_millis(1), TestEvent::A(1));
    let json = to_json(&trace);

    assert!(json.contains(r#""format":"simulacra-trace""#));
    assert!(json.contains(&format!(r#""schema_version":{TRACE_SCHEMA_VERSION}"#)));
}

#[test]
fn from_json_rejects_foreign_document() {
    // Structurally trace-like, but no format tag.
    let foreign = r#"{"seed":1,"events":[],"final_time_ns":0}"#;
    let err = from_json(foreign).unwrap_err();
    assert!(matches!(err, LoadError::Load(TraceLoadError::NotASimulacraTrace)));
}

#[test]
fn from_json_rejects_other_schema_version() {
    let future = format!(
        r#"{{"format":"simulacra-trace","schema_version":{},"seed":1,"events":[],"final_time_ns":0}}"#,
        TRACE_SCHEMA_VERSION + 1
    );
    let err = from_json(&future).unwrap_err();
    match err {
        LoadError::Load(TraceLoadError::SchemaVersion { expected, found }) => {
            assert_eq!(expected, TRACE_SCHEMA_VERSION);
            assert_eq!(found, TRACE_SCHEMA_VERSION + 1);
        }
        other => panic!("expected SchemaVersion, got {other:?}"),
    }
}

#[test]
fn from_json_rejects_garbage() {
    let err = from_json("not json at all").unwrap_err();
    assert!(matches!(err, LoadError::Json(_)));
}
