use std::num::NonZeroUsize;

use simulacra::parallel::{merge, run_seed, seed_at, worker_count};

/// Shares the runs among the workers, one after the other.
fn run_seeds<F, T>(
    count: usize,
    base_seed: u64,
    threads: Option<NonZeroUsize>,
    factory: F,
) -> Vec<T>
where
    F: Fn(u64) -> T,
{
    let workers = worker_count(threads.map(NonZeroUsize::get), Some(4), count);
    let mut chunks: Vec<Vec<(usize, T)>> = (0..workers).map(|_| Vec::new()).collect();
    for i in 0..count {
        chunks[i % workers].push(run_seed(base_seed, i, &factory));
    }
    chunks.reverse();
    merge(count, chunks).unwrap()
}

#[test]
fn empty_count_returns_empty() {
    let results: Vec<u64> = run_seeds(0, 0, None, |s| s);
    assert!(results.is_empty());
}

#[test]
fn results_come_back_in_seed_order() {
    let results = run_seeds(100, 1000, None, |seed| seed);
    assert_eq!(results.len(), 100);
    for (i, r) in results.iter().enumerate() {
        assert_eq!(*r, 1000 + i as u64);
    }
}

#[test]
fn single_thread_matches_multi_thread_output() {
    let factory = |seed: u64| seed.wrapping_mul(31).rotate_left(7);
    let single = run_seeds(50, 42, NonZeroUsize::new(1), factory);
    let multi = run_seeds(50, 42, NonZeroUsize::new(8), factory);
    assert_eq!(single, multi);
}

#[test]
fn thread_count_higher_than_count_is_fine() {
    let results = run_seeds(3, 0, NonZeroUsize::new(16), |seed| seed);
    assert_eq!(results, vec![0, 1, 2]);
}

#[test]
fn seeds_wrap_around() {
    assert_eq!(seed_at(10, 5), 15);
    assert_eq!(seed_at(u64::MAX, 0), u64::MAX);
    assert_eq!(seed_at(u64::MAX, 3), 2);
}

#[test]
fn workers_are_limited_by_the_runs() {
    assert_eq!(worker_count(Some(8), Some(2), 100), 8);
    assert_eq!(worker_count(None, Some(2), 100), 2);
    assert_eq!(worker_count(None, None, 100), 1);
    assert_eq!(worker_count(Some(8), None, 3), 3);
}

#[test]
fn merging_needs_every_index_once() {
    assert_eq!(
        merge(3, vec![vec![(2, 'c')], vec![(0, 'a'), (1, 'b')]]),
        Some(vec!['a', 'b', 'c'])
    );
    assert_eq!(merge(3, vec![vec![(2, 'c'), (0, 'a')]]), None);
    assert_eq!(merge(2, vec![vec![(0, 'a'), (1, 'b')], vec![(1, 'x')]]), None);
    assert_eq!(merge(1, vec![vec![(0, 'a'), (1, 'b')]]), None);
    assert_eq!(merge::<char>(0, vec![]), Some(vec![]));
}
