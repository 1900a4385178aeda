use std::collections::VecDeque;

use parallel_primes::accumulator::add_prime;
use parallel_primes::accumulator::record_candidate_for_top;
use parallel_primes::accumulator::trim_top_primes;
use parallel_primes::cursor::WorkCursor;
use parallel_primes::pool::examine;
use parallel_primes::pool::prime_thread;
use parallel_primes::pool::Verdict;
use parallel_primes::sequential::find_primes_single;

fn sieved_primes(limit: u64) -> Vec<u64> {
    let n = limit as usize;
    let mut composite = vec![false; n.max(2)];
    let mut primes = Vec::new();
    for i in 2..n {
        if !composite[i] {
            primes.push(i as u64);
            let mut j = i * i;
            while j < n {
                composite[j] = true;
                j += i;
            }
        }
    }
    primes
}

fn last_ten(primes: &[u64]) -> Vec<u64> {
    let skip = primes.len().saturating_sub(10);
    primes[skip..].to_vec()
}

fn items(top: &VecDeque<u64>) -> Vec<u64> {
    top.iter().copied().collect()
}

fn run_one_worker(limit: u64) -> (u64, u64, VecDeque<u64>) {
    let mut cursor = WorkCursor::new(limit);
    let mut sum = 0u64;
    let mut count = 0u64;
    let mut top = VecDeque::new();
    prime_thread(&mut cursor, &mut sum, &mut count, &mut top);
    assert!(cursor.is_exhausted());
    (sum, count, top)
}

/// Runs `workers` workers in a fixed interleaving: a worker claims in one
/// turn and merges in a later one, so primes arrive out of order.
fn run_interleaved(limit: u64, workers: usize) -> (u64, u64, VecDeque<u64>) {
    let mut cursor = WorkCursor::new(limit);
    let mut sum = 0u64;
    let mut count = 0u64;
    let mut top = VecDeque::new();
    let mut holding: Vec<Option<u64>> = vec![None; workers];
    let mut running = vec![true; workers];
    let mut state = 0x2545_f491_4f6c_dd1du64;
    while running.iter().any(|r| *r) {
        state = state
            .wrapping_mul(6364136223846793005)
            .wrapping_add(1442695040888963407);
        let w = ((state >> 33) % workers as u64) as usize;
        if !running[w] {
            continue;
        }
        match holding[w].take() {
            Some(prime) => {
                add_prime(&mut sum, &mut count, prime);
                record_candidate_for_top(&mut top, prime);
            }
            None => match examine(cursor.claim_next(), limit) {
                Verdict::Stop => running[w] = false,
                Verdict::Skip { .. } => {}
                Verdict::Merge { prime, .. } => holding[w] = Some(prime),
            },
        }
    }
    (sum, count, top)
}

#[test]
fn sequential_run_below_thirty() {
    let (sum, count, top) = find_primes_single(30);
    assert_eq!(count, 10);
    assert_eq!(sum, 129);
    assert_eq!(items(&top), vec![2, 3, 5, 7, 11, 13, 17, 19, 23, 29]);
}

#[test]
fn sequential_run_below_ten() {
    let (sum, count, top) = find_primes_single(10);
    assert_eq!(count, 4);
    assert_eq!(sum, 17);
    assert_eq!(items(&top), vec![2, 3, 5, 7]);
}

#[test]
fn sequential_run_below_a_hundred() {
    let (sum, count, top) = find_primes_single(100);
    assert_eq!(count, 25);
    assert_eq!(sum, 1060);
    assert_eq!(items(&top), vec![53, 59, 61, 67, 71, 73, 79, 83, 89, 97]);
}

#[test]
fn sequential_run_with_nothing_to_test() {
    for limit in 0..=2u64 {
        let (sum, count, top) = find_primes_single(limit);
        assert_eq!((sum, count), (0, 0));
        assert!(top.is_empty());
    }
}

#[test]
fn sequential_run_does_not_test_the_limit() {
    let (sum, count, top) = find_primes_single(3);
    assert_eq!((sum, count), (2, 1));
    assert_eq!(items(&top), vec![2]);
    let (sum, count, _) = find_primes_single(13);
    assert_eq!((sum, count), (28, 5));
}

#[test]
fn sequential_run_agrees_with_a_sieve() {
    for limit in [50u64, 97, 98, 1000, 7919, 20_000] {
        let primes = sieved_primes(limit);
        let (sum, count, top) = find_primes_single(limit);
        assert_eq!(count, primes.len() as u64);
        assert_eq!(sum, primes.iter().sum::<u64>());
        assert_eq!(items(&top), last_ten(&primes));
    }
}

#[test]
fn worker_below_thirty() {
    let (sum, count, mut top) = run_one_worker(30);
    assert_eq!(count, 10);
    assert_eq!(sum, 129);
    assert_eq!(items(&top), vec![2, 3, 5, 7, 11, 13, 17, 19, 23, 29]);
    trim_top_primes(&mut top);
    assert_eq!(items(&top), vec![2, 3, 5, 7, 11, 13, 17, 19, 23, 29]);
}

#[test]
fn worker_below_ten() {
    let (sum, count, top) = run_one_worker(10);
    assert_eq!(count, 4);
    assert_eq!(sum, 17);
    assert_eq!(items(&top), vec![2, 3, 5, 7]);
}

#[test]
fn worker_keeps_every_prime_until_the_trim() {
    let (sum, count, mut top) = run_one_worker(100);
    assert_eq!(count, 25);
    assert_eq!(sum, 1060);
    assert_eq!(top.len(), 25);
    trim_top_primes(&mut top);
    assert_eq!(items(&top), vec![53, 59, 61, 67, 71, 73, 79, 83, 89, 97]);
}

#[test]
fn worker_takes_up_where_the_cursor_stands() {
    let mut cursor = WorkCursor::new(30);
    for expected in 2..20u64 {
        assert_eq!(cursor.claim_next(), Some(expected));
    }
    let mut sum = 1000u64;
    let mut count = 5u64;
    let mut top: VecDeque<u64> = VecDeque::new();
    top.push_back(1);
    prime_thread(&mut cursor, &mut sum, &mut count, &mut top);
    assert_eq!(sum, 1000 + 23 + 29);
    assert_eq!(count, 7);
    assert_eq!(items(&top), vec![1, 23, 29]);
    assert!(cursor.is_exhausted());
}

#[test]
fn worker_on_an_exhausted_cursor_changes_nothing() {
    let mut cursor = WorkCursor::new(10);
    while cursor.claim_next().is_some() {}
    let mut sum = 17u64;
    let mut count = 4u64;
    let mut top: VecDeque<u64> = VecDeque::new();
    prime_thread(&mut cursor, &mut sum, &mut count, &mut top);
    assert_eq!((sum, count), (17, 4));
    assert!(top.is_empty());
    assert_eq!(cursor.claim_next(), None);
}

#[test]
fn second_worker_finds_nothing_left() {
    let mut cursor = WorkCursor::new(50);
    let mut sum = 0u64;
    let mut count = 0u64;
    let mut top = VecDeque::new();
    prime_thread(&mut cursor, &mut sum, &mut count, &mut top);
    let after_first = (sum, count, top.clone());
    prime_thread(&mut cursor, &mut sum, &mut count, &mut top);
    assert_eq!((sum, count, top), after_first);
    assert_eq!(after_first.0, 328);
    assert_eq!(after_first.1, 15);
}

#[test]
fn verdict_on_exhaustion_is_stop() {
    assert_eq!(examine(None, 30), Verdict::Stop);
}

#[test]
fn verdict_on_a_composite_is_skip() {
    assert_eq!(examine(Some(4), 30), Verdict::Skip { progress: None });
    assert_eq!(examine(Some(27), 30), Verdict::Skip { progress: None });
}

#[test]
fn verdict_on_a_prime_is_merge() {
    assert_eq!(examine(Some(2), 30), Verdict::Merge { prime: 2, progress: None });
    assert_eq!(examine(Some(29), 30), Verdict::Merge { prime: 29, progress: None });
}

#[test]
fn verdict_carries_the_progress_signal() {
    assert_eq!(
        examine(Some(4_000_000), 10_000_000),
        Verdict::Skip { progress: Some(40) }
    );
    assert_eq!(
        examine(Some(4_000_001), 10_000_000),
        Verdict::Skip { progress: None }
    );
}

#[test]
fn pool_and_sequential_agree_on_sum_and_count() {
    for limit in [0u64, 2, 3, 10, 30, 31, 500, 5000] {
        let (single_sum, single_count, _) = find_primes_single(limit);
        for workers in [1usize, 2, 3, 8] {
            let (sum, count, _) = run_interleaved(limit, workers);
            assert_eq!(sum, single_sum);
            assert_eq!(count, single_count);
        }
        let (sum, count, _) = run_one_worker(limit);
        assert_eq!((sum, count), (single_sum, single_count));
    }
}

#[test]
fn pool_collection_arrives_out_of_order_and_trims_to_the_largest() {
    let limit = 2000u64;
    let primes = sieved_primes(limit);
    let (_, _, mut top) = run_interleaved(limit, 8);
    assert_eq!(top.len(), primes.len());
    assert_ne!(items(&top), primes);
    trim_top_primes(&mut top);
    assert_eq!(items(&top), last_ten(&primes));
    assert_eq!(
        items(&top),
        vec![1931, 1933, 1949, 1951, 1973, 1979, 1987, 1993, 1997, 1999]
    );
}

#[test]
fn the_two_policies_leave_the_same_collection() {
    for limit in [10u64, 30, 100, 1234] {
        let (_, _, window) = find_primes_single(limit);
        let (_, _, mut top) = run_interleaved(limit, 5);
        trim_top_primes(&mut top);
        assert_eq!(top, window);
    }
}
