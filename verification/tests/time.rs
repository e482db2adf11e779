use simulacra::{Duration, Time};

#[test]
fn time_arithmetic() {
    let t1 = Time::from_millis(100);
    let t2 = Time::from_millis(200);
    let d = Duration::from_millis(50);

    assert_eq!(t1 + d, Time::from_millis(150));
    assert_eq!(t2 - d, Time::from_millis(150));
    assert_eq!(t2 - t1, Duration::from_millis(100));
}

#[test]
fn time_ordering() {
    let times = [
        Time::from_nanos(100),
        Time::from_nanos(50),
        Time::from_nanos(200),
    ];
    let mut sorted = times;
    sorted.sort();
    assert_eq!(
        sorted,
        [
            Time::from_nanos(50),
            Time::from_nanos(100),
            Time::from_nanos(200),
        ]
    );
}

#[test]
fn duration_arithmetic() {
    let d1 = Duration::from_millis(100);
    let d2 = Duration::from_millis(50);

    assert_eq!(d1 + d2, Duration::from_millis(150));
    assert_eq!(d1 - d2, Duration::from_millis(50));
}

#[test]
fn saturating_operations() {
    assert_eq!(Time(u64::MAX).saturating_add(Duration::from_nanos(1)), Time(u64::MAX));
    assert_eq!(
        Time::zero().saturating_sub(Duration::from_nanos(1)),
        Time::zero()
    );
    assert_eq!(
        Duration(u64::MAX).saturating_add(Duration::from_nanos(1)),
        Duration(u64::MAX)
    );
}

#[test]
fn unit_conversions() {
    let t = Time::from_secs(1);
    assert_eq!(t.as_millis(), 1_000);
    assert_eq!(t.as_micros(), 1_000_000);
    assert_eq!(t.as_nanos(), 1_000_000_000);

    let d = Duration::from_millis(1_500);
    assert_eq!(d.as_secs(), 1);
    assert_eq!(d.as_millis(), 1_500);
}

#[test]
fn times_have_a_text_for_debugging() {
    assert_eq!(Time::from_micros(3).to_debug_string(), "Time(3000ns)");
    assert_eq!(Duration::zero().to_debug_string(), "Duration(0ns)");
}
