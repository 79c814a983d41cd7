use uma_bingo::prize::{RollResult, PRIZE_COUNT};
use uma_bingo::trial::{run_trial, sample_outcome, trial_from_draws, MAX_TRIAL_LEN, RANDOM_ROLLS};

fn prizes(indices: &[usize]) -> Vec<RollResult> {
    indices.iter().map(|&i| RollResult::from_index(i)).collect()
}

fn check_trial(t: &[RollResult]) {
    assert!(t.len() >= PRIZE_COUNT && t.len() <= MAX_TRIAL_LEN);
    let mut earned = [false; 8];
    for (pos, roll) in t.iter().enumerate() {
        assert!(earned.iter().any(|e| !e), "drew after every prize was earned");
        if pos >= RANDOM_ROLLS {
            let lowest = earned.iter().position(|e| !e).unwrap();
            assert_eq!(roll.index(), lowest);
        }
        earned[roll.index()] = true;
    }
    assert!(earned.iter().all(|e| *e));
}

#[test]
fn eight_distinct_draws_make_the_shortest_trial() {
    let draws = prizes(&[3, 1, 4, 0, 5, 7, 2, 6, 0, 0]);
    let t = trial_from_draws(&draws).unwrap();
    assert_eq!(t, prizes(&[3, 1, 4, 0, 5, 7, 2, 6]));
}

#[test]
fn trial_stops_at_first_completion() {
    let draws = prizes(&[0, 0, 1, 2, 1, 3, 4, 5, 6, 2, 7, 7, 7]);
    let t = trial_from_draws(&draws).unwrap();
    assert_eq!(t, prizes(&[0, 0, 1, 2, 1, 3, 4, 5, 6, 2, 7]));
    assert_eq!(t.len(), 11);
}

#[test]
fn fallback_supplies_the_single_missing_prize() {
    let mut idx = vec![0, 1, 2, 3, 4, 6, 7];
    while idx.len() < 40 {
        idx.push(0);
    }
    let t = trial_from_draws(&prizes(&idx)).unwrap();
    let mut expected: Vec<usize> = idx[..RANDOM_ROLLS].to_vec();
    expected.push(5);
    assert_eq!(t, prizes(&expected));
    assert_eq!(t.len(), 26);
}

#[test]
fn fallback_fills_missing_prizes_lowest_first() {
    let mut idx = vec![7, 0, 5, 1, 4, 2];
    while idx.len() < RANDOM_ROLLS {
        idx.push(2);
    }
    let t = trial_from_draws(&prizes(&idx)).unwrap();
    let mut expected = idx.clone();
    expected.push(3);
    expected.push(6);
    assert_eq!(t, prizes(&expected));
}

#[test]
fn one_prize_repeated_gives_the_longest_trial() {
    let draws = vec![RollResult::FirstPrize; RANDOM_ROLLS];
    let t = trial_from_draws(&draws).unwrap();
    assert_eq!(t.len(), MAX_TRIAL_LEN);
    let mut expected = vec![0usize; RANDOM_ROLLS];
    expected.extend(1..8);
    assert_eq!(t, prizes(&expected));
}

#[test]
fn draws_that_run_out_give_no_trial() {
    assert_eq!(trial_from_draws(&Vec::new()), None);
    assert_eq!(trial_from_draws(&prizes(&[0, 1, 2, 3, 4, 5, 6])), None);
    assert_eq!(trial_from_draws(&vec![RollResult::ThirdPrize; RANDOM_ROLLS - 1]), None);
}

#[test]
fn same_draws_give_the_same_trial() {
    let draws = prizes(&[2, 2, 5, 1, 0, 0, 3, 7, 4, 4, 1, 2, 0, 5, 5, 3, 1, 0, 2, 2, 7, 7, 0, 1, 3]);
    let a = trial_from_draws(&draws).unwrap();
    let b = trial_from_draws(&draws).unwrap();
    assert_eq!(a, b);
    assert_eq!(a, prizes(&[2, 2, 5, 1, 0, 0, 3, 7, 4, 4, 1, 2, 0, 5, 5, 3, 1, 0, 2, 2, 7, 7, 0, 1, 3, 6]));
}

#[test]
fn random_trials_follow_the_rule() {
    let mut rng = rand::rng();
    for _ in 0..2000 {
        let t = run_trial(&mut rng);
        check_trial(&t);
    }
}

#[test]
fn sampling_reaches_every_prize() {
    let mut rng = rand::rng();
    let mut seen = [0usize; 8];
    for _ in 0..8000 {
        seen[sample_outcome(&mut rng).index()] += 1;
    }
    assert!(seen.iter().all(|&c| c > 0));
}
