use std::collections::HashMap;

use uma_bingo::batch::{run_batch, summarize, BatchError};

/// The exact expected trial length of the process: random draws until all
/// eight prizes are in or 25 draws are made, then one draw per missing prize.
fn expected_trial_length() -> f64 {
    let mut dist = [0.0f64; 9];
    dist[0] = 1.0;
    let mut expected = 0.0;
    for t in 1..=25 {
        let mut next = [0.0f64; 9];
        for k in 0..8 {
            next[k] += dist[k] * k as f64 / 8.0;
            next[k + 1] += dist[k] * (8 - k) as f64 / 8.0;
        }
        expected += next[8] * t as f64;
        next[8] = 0.0;
        dist = next;
    }
    for k in 0..8 {
        expected += dist[k] * (25 + 8 - k) as f64;
    }
    expected
}

#[test]
fn summarize_counts_each_length() {
    let s = summarize(&vec![8, 9, 8, 32, 8]).unwrap();
    assert_eq!(s.trial_count, 5);
    assert_eq!(s.total_rolls, 65);
    let mut expected = HashMap::new();
    expected.insert(8, 3);
    expected.insert(9, 1);
    expected.insert(32, 1);
    assert_eq!(s.histogram, expected);
}

#[test]
fn summarize_of_nothing_is_refused() {
    assert_eq!(summarize(&Vec::new()).err(), Some(BatchError::InvalidArgument));
}

#[test]
fn batch_of_zero_trials_is_refused() {
    let mut rng = rand::rng();
    assert_eq!(run_batch(0, &mut rng).err(), Some(BatchError::InvalidArgument));
}

#[test]
fn batch_of_one_trial_has_one_entry() {
    let mut rng = rand::rng();
    let s = run_batch(1, &mut rng).unwrap();
    assert_eq!(s.trial_count, 1);
    assert_eq!(s.histogram.len(), 1);
    let (&len, &count) = s.histogram.iter().next().unwrap();
    assert_eq!(count, 1);
    assert_eq!(s.total_rolls, len as u128);
    assert!((8..=32).contains(&len));
}

#[test]
fn batch_summary_agrees_with_its_histogram() {
    let mut rng = rand::rng();
    let s = run_batch(1000, &mut rng).unwrap();
    assert_eq!(s.trial_count, 1000);
    assert_eq!(s.histogram.values().sum::<usize>(), 1000);
    let total: u128 = s.histogram.iter().map(|(&k, &c)| (k * c) as u128).sum();
    assert_eq!(s.total_rolls, total);
    assert!(s.histogram.keys().all(|k| (8..=32).contains(k)));
    assert!(s.histogram.values().all(|&c| c > 0));
}

#[test]
fn large_batch_mean_matches_the_process() {
    let expected = expected_trial_length();
    assert!((expected - 19.838).abs() < 0.001);
    let mut rng = rand::rng();
    let runs = 1_000_000usize;
    let s = run_batch(runs, &mut rng).unwrap();
    let mean = s.total_rolls as f64 / s.trial_count as f64;
    assert!((mean - expected).abs() <= 0.02 * expected, "mean {mean}, expected {expected}");
}
