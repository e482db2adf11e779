use simulacra::{Duration, Probability, SimRng};

/// The probability `p` as the generator compares it with random bits.
fn probability(p: f64) -> Probability {
    assert!((0.0..=1.0).contains(&p));
    if p == 0.0 {
        Probability::Never
    } else if p == 1.0 {
        Probability::Always
    } else {
        Probability::Parts((p * 18_446_744_073_709_551_616.0) as u64)
    }
}

/// A number in [0, 1) from the generator's evenly spaced fractions.
fn unit(rng: &mut SimRng) -> f64 {
    rng.fraction() as f64 * (1.0 / 9_007_199_254_740_992.0)
}



#[test]
fn deterministic_sequence() {
    let mut rng1 = SimRng::new(42);
    let mut rng2 = SimRng::new(42);

    for _ in 0..100 {
        assert_eq!(rng1.u64(1000), rng2.u64(1000));
    }
}

#[test]
fn different_seeds_different_results() {
    let mut rng1 = SimRng::new(1);
    let mut rng2 = SimRng::new(2);

    let seq1: Vec<_> = (0..10).map(|_| rng1.u64(1000)).collect();
    let seq2: Vec<_> = (0..10).map(|_| rng2.u64(1000)).collect();

    assert_ne!(seq1, seq2);
}

#[test]
fn jitter_within_bounds() {
    let mut rng = SimRng::new(42);
    let max_jitter = Duration::from_millis(10);

    for _ in 0..1000 {
        let jitter = rng.jitter(max_jitter);
        assert!(jitter >= -10_000_000);
        assert!(jitter <= 10_000_000);
    }
}

#[test]
fn duration_with_jitter_non_negative() {
    let mut rng = SimRng::new(42);
    let base = Duration::from_millis(5);
    let max_jitter = Duration::from_millis(10);

    for _ in 0..1000 {
        let result = rng.duration_with_jitter(base, max_jitter);
        // `as_nanos()` returns u64 so non-negativity is implicit; this
        // test is really checking the call does not panic.
        assert!(result.as_nanos() < u64::MAX);
    }
}

#[test]
fn choice_selects_from_slice() {
    let mut rng = SimRng::new(42);
    let items = [1, 2, 3, 4, 5];

    let mut seen = [false; 5];
    for _ in 0..1000 {
        let choice = *rng.choice(&items);
        seen[choice - 1] = true;
    }

    assert!(
        seen.iter().all(|&x| x),
        "should see all elements eventually"
    );
}

#[test]
fn shuffle_is_deterministic() {
    let mut rng1 = SimRng::new(42);
    let mut rng2 = SimRng::new(42);

    let mut items1 = [1, 2, 3, 4, 5, 6, 7, 8, 9, 10];
    let mut items2 = [1, 2, 3, 4, 5, 6, 7, 8, 9, 10];

    rng1.shuffle(&mut items1);
    rng2.shuffle(&mut items2);

    assert_eq!(items1, items2);
}

#[test]
fn fork_produces_independent_streams() {
    let mut rng = SimRng::new(42);
    let mut child1 = rng.fork();
    let mut child2 = rng.fork();

    // Children should produce different sequences from each other
    let seq1: Vec<_> = (0..10).map(|_| child1.u64(1000)).collect();
    let seq2: Vec<_> = (0..10).map(|_| child2.u64(1000)).collect();

    assert_ne!(seq1, seq2);
}

#[test]
fn fork_is_deterministic() {
    let mut rng1 = SimRng::new(42);
    let mut rng2 = SimRng::new(42);

    let mut child1 = rng1.fork();
    let mut child2 = rng2.fork();

    let seq1: Vec<_> = (0..10).map(|_| child1.u64(1000)).collect();
    let seq2: Vec<_> = (0..10).map(|_| child2.u64(1000)).collect();

    assert_eq!(seq1, seq2);
}

/// Cross-version RNG-stream guardrail.
///
/// Every value Simulacra derives from a seed flows through the
/// `rand`/`rand_chacha` distribution layer (`random_range`, `random`,
/// `random_bool`, `fill`). `ChaCha8`'s raw bytes are algorithmically
/// stable, but that distribution layer is reworked at `rand`
/// minor/major boundaries — so a dependency bump can silently change
/// what every seed produces (jitter, packet loss, `choice`, `shuffle`,
/// forked sub-streams). Nothing else in the suite pins this: the
/// integration determinism test is only self-consistent within one
/// binary.
///
/// These literals are the stream for seed 42. If a `rand`/`rand_chacha`
/// upgrade makes this test fail, that is a **deliberate, reviewable**
/// stream change: confirm the new values are sane (in range,
/// deterministic, distinct), re-bless the literals in the same commit,
/// and note it in `CHANGELOG.md`. Pinned on `rand` 0.10 / `rand_chacha`
/// 0.10.
#[test]
fn golden_stream_is_stable_across_dep_versions() {
    let mut rng = SimRng::new(42);

    let u64_stream: Vec<u64> = (0..8).map(|_| rng.u64(1_000_000)).collect();
    assert_eq!(
        u64_stream,
        [
            681_896, 950_275, 427_516, 627_360, 288_593, 149_958, 308_040, 803_872
        ],
        "u64 range stream (random_range over integers) changed"
    );

    let f64_stream: Vec<u64> = (0..4).map(|_| unit(&mut rng).to_bits()).collect();
    assert_eq!(
        f64_stream,
        [
            4_605_122_010_988_943_809,
            4_597_763_960_352_646_552,
            4_602_740_670_442_056_384,
            4_606_297_940_404_477_195
        ],
        "f64 stream (random::<f64>() bit pattern) changed"
    );

    let bool_stream: u32 = (0..16).fold(0u32, |acc, i| acc | (u32::from(rng.bool(probability(0.5))) << i));
    assert_eq!(
        bool_stream, 0x3be8,
        "bool(0.5) stream (random_bool) changed"
    );

    let jitter_stream: Vec<i64> = (0..4)
        .map(|_| rng.jitter(Duration::from_millis(10)))
        .collect();
    assert_eq!(
        jitter_stream,
        [3_440_136, 3_642_442, 3_485_106, -8_003_166],
        "signed jitter stream (random_range over a signed range) changed"
    );

    let mut sh = [0u8, 1, 2, 3, 4, 5, 6, 7, 8, 9];
    rng.shuffle(&mut sh);
    assert_eq!(
        sh,
        [4, 7, 9, 5, 3, 0, 8, 6, 1, 2],
        "Fisher-Yates shuffle order changed"
    );

    // fork() derives the child seed via `fill()` — the surface most
    // likely to shift on a rand major bump.
    let mut child = SimRng::new(42).fork();
    let child_stream: Vec<u64> = (0..4).map(|_| child.u64(1_000_000)).collect();
    assert_eq!(
        child_stream,
        [999_698, 281_675, 181_238, 337_832],
        "forked sub-stream changed (fill()-based seed derivation)"
    );
}

#[test]
fn bool_respects_probability() {
    let mut rng = SimRng::new(42);

    // With probability 0, should never be true
    for _ in 0..100 {
        assert!(!rng.bool(probability(0.0)));
    }

    // With probability 1, should always be true
    for _ in 0..100 {
        assert!(rng.bool(probability(1.0)));
    }

    // With probability 0.5, should be roughly half true
    let count = (0..10000).filter(|_| rng.bool(probability(0.5))).count();
    assert!(count > 4500 && count < 5500, "expected ~5000, got {count}");
}
