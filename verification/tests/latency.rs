use simulacra::{
    Duration, FixedLatency, LatencyModel, OverheadPlusJitter, SimRng, UniformJitter,
};

#[test]
fn fixed_latency() {
    let mut model = FixedLatency;
    let mut rng = SimRng::new(42);
    let base = Duration::from_millis(100);

    for _ in 0..100 {
        assert_eq!(model.compute(base, &mut rng), base);
    }
}

#[test]
fn uniform_jitter_bounds() {
    let mut model = UniformJitter::new(Duration::from_millis(10));
    let mut rng = SimRng::new(42);
    let base = Duration::from_millis(100);

    for _ in 0..1000 {
        let latency = model.compute(base, &mut rng);
        assert!(latency.as_millis() >= 90);
        assert!(latency.as_millis() <= 110);
    }
}

#[test]
fn uniform_jitter_clamps_negative() {
    let mut model = UniformJitter::new(Duration::from_millis(100));
    let mut rng = SimRng::new(42);
    let base = Duration::from_millis(10); // Small base, large jitter

    for _ in 0..1000 {
        let latency = model.compute(base, &mut rng);
        // `as_nanos()` returns u64, so non-negative is implicit;
        // exercise the call and keep the result observable.
        assert!(latency.as_nanos() < u64::MAX);
    }
}

#[test]
fn overhead_plus_jitter() {
    let mut model = OverheadPlusJitter::new(Duration::from_millis(5), Duration::from_millis(2));
    let mut rng = SimRng::new(42);
    let base = Duration::from_millis(100);

    for _ in 0..1000 {
        let latency = model.compute(base, &mut rng);
        // 100 + 5 = 105, with +/- 2ms jitter
        assert!(latency.as_millis() >= 103);
        assert!(latency.as_millis() <= 107);
    }
}

#[test]
fn deterministic_jitter() {
    let mut model1 = UniformJitter::new(Duration::from_millis(10));
    let mut model2 = UniformJitter::new(Duration::from_millis(10));
    let mut rng1 = SimRng::new(42);
    let mut rng2 = SimRng::new(42);
    let base = Duration::from_millis(100);

    for _ in 0..100 {
        assert_eq!(
            model1.compute(base, &mut rng1),
            model2.compute(base, &mut rng2)
        );
    }
}
