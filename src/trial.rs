//! One coupon-collector trial: draw prizes until all eight have come up.
//!
//! The first `RANDOM_ROLLS` draws are uniform random; after that each draw is
//! the lowest-indexed prize not yet earned, which bounds a trial at 32 draws.

use vstd::prelude::*;

use crate::prize::{RollResult, PRIZE_COUNT};
use crate::rng::random_below;

verus! {

/// How many draws of a trial are taken at random before the trial fills in
/// the missing prizes in index order.
pub const RANDOM_ROLLS: usize = 25;

/// The longest a trial can be: the random draws, then at most seven more.
pub const MAX_TRIAL_LEN: usize = 32;

/// The prize with index `k` occurs among the rolls `s`.
pub open spec fn seen(s: Seq<RollResult>, k: int) -> bool {
    exists|i: int| 0 <= i < s.len() && #[trigger] s[i].spec_index() == k
}

/// Every one of the eight prizes occurs among the rolls `s`.
pub open spec fn has_all(s: Seq<RollResult>) -> bool {
    forall|k: int| 0 <= k < PRIZE_COUNT ==> #[trigger] seen(s, k)
}

/// `k` is the lowest prize index that does not occur among the rolls `s`.
pub open spec fn is_lowest_unseen(s: Seq<RollResult>, k: int) -> bool {
    &&& 0 <= k < PRIZE_COUNT
    &&& !seen(s, k)
    &&& forall|j: int| 0 <= j < k ==> #[trigger] seen(s, j)
}

/// How many of the prize indices `0..n` occur among the rolls `s`.
pub open spec fn seen_count(s: Seq<RollResult>, n: nat) -> nat
    decreases n,
{
    if n == 0 {
        0
    } else {
        seen_count(s, (n - 1) as nat) + if seen(s, n - 1) {
            1nat
        } else {
            0nat
        }
    }
}

/// The stopping and sampling rule holds at every draw of `s`: no draw is
/// made once all prizes are earned, and every draw from position
/// `RANDOM_ROLLS` on is the lowest prize not yet earned.
pub open spec fn follows_rule(s: Seq<RollResult>) -> bool {
    &&& forall|i: int| 0 <= i < s.len() ==> !has_all(#[trigger] s.take(i))
    &&& forall|i: int|
        RANDOM_ROLLS <= i < s.len() ==> is_lowest_unseen(s.take(i), (#[trigger] s[i]).spec_index() as int)
}

/// `s` is a complete trial: it follows the rule and has earned every prize.
pub open spec fn is_trial(s: Seq<RollResult>) -> bool {
    follows_rule(s) && has_all(s)
}

/// The random part of the trial `s` is the prefix of `draws`: every draw
/// of `s` made before position `RANDOM_ROLLS` is the draw `draws` supplies.
pub open spec fn agrees_with(s: Seq<RollResult>, draws: Seq<RollResult>) -> bool {
    &&& s.len() < RANDOM_ROLLS ==> s.len() <= draws.len()
    &&& s.len() >= RANDOM_ROLLS ==> RANDOM_ROLLS <= draws.len()
    &&& forall|i: int| 0 <= i < s.len() && i < RANDOM_ROLLS ==> #[trigger] s[i] == draws[i]
}

proof fn lemma_seen_push(s: Seq<RollResult>, x: RollResult, k: int)
    ensures
        seen(s.push(x), k) <==> seen(s, k) || x.spec_index() == k,
{
    let t = s.push(x);
    if seen(s, k) {
        let i = choose|i: int| 0 <= i < s.len() && #[trigger] s[i].spec_index() == k;
        assert(t[i] == s[i]);
    }
    if x.spec_index() == k {
        assert(t[s.len() as int] == x);
    }
    if seen(t, k) {
        let i = choose|i: int| 0 <= i < t.len() && #[trigger] t[i].spec_index() == k;
        if i < s.len() {
            assert(s[i] == t[i]);
        }
    }
}

proof fn lemma_seen_count_push(s: Seq<RollResult>, x: RollResult, n: nat)
    ensures
        seen_count(s.push(x), n) == seen_count(s, n) + if x.spec_index() < n && !seen(
            s,
            x.spec_index() as int,
        ) {
            1nat
        } else {
            0nat
        },
    decreases n,
{
    if n > 0 {
        lemma_seen_count_push(s, x, (n - 1) as nat);
        lemma_seen_push(s, x, n - 1);
        lemma_seen_push(s, x, x.spec_index() as int);
    }
}

proof fn lemma_seen_count_bound(s: Seq<RollResult>, n: nat)
    ensures
        seen_count(s, n) <= n,
        seen_count(s, n) == n <==> forall|k: int| 0 <= k < n ==> #[trigger] seen(s, k),
        forall|k: int| 0 <= k < n && #[trigger] seen(s, k) ==> seen_count(s, n) >= 1,
    decreases n,
{
    if n > 0 {
        lemma_seen_count_bound(s, (n - 1) as nat);
    }
}

proof fn lemma_seen_count_le_len(s: Seq<RollResult>)
    ensures
        seen_count(s, PRIZE_COUNT as nat) <= s.len(),
    decreases s.len(),
{
    if s.len() == 0 {
        lemma_seen_count_zero(s, PRIZE_COUNT as nat);
    } else {
        let p = s.drop_last();
        lemma_seen_count_le_len(p);
        assert(p.push(s.last()) =~= s);
        lemma_seen_count_push(p, s.last(), PRIZE_COUNT as nat);
    }
}

proof fn lemma_seen_count_zero(s: Seq<RollResult>, n: nat)
    requires
        s.len() == 0,
    ensures
        seen_count(s, n) == 0,
    decreases n,
{
    if n > 0 {
        lemma_seen_count_zero(s, (n - 1) as nat);
    }
}

/// All prizes are earned exactly when all eight indices are counted.
pub proof fn lemma_has_all_iff_count(s: Seq<RollResult>)
    ensures
        has_all(s) <==> seen_count(s, PRIZE_COUNT as nat) == PRIZE_COUNT,
        seen_count(s, PRIZE_COUNT as nat) <= PRIZE_COUNT,
{
    lemma_seen_count_bound(s, PRIZE_COUNT as nat);
}

/// A prize is determined by its index.
pub proof fn lemma_index_injective(a: RollResult, b: RollResult)
    ensures
        a.spec_index() == b.spec_index() <==> a == b,
{
}

/// Every draw of the deterministic phase of a trial earns exactly one new
/// prize: from position `RANDOM_ROLLS` on, no draw repeats an earned prize.
pub proof fn lemma_fallback_earns_one(s: Seq<RollResult>, i: int)
    requires
        follows_rule(s),
        RANDOM_ROLLS <= i < s.len(),
    ensures
        !seen(s.take(i), s[i].spec_index() as int),
        seen_count(s.take(i + 1), PRIZE_COUNT as nat) == seen_count(s.take(i), PRIZE_COUNT as nat)
            + 1,
{
    assert(is_lowest_unseen(s.take(i), s[i].spec_index() as int));
    assert(s.take(i).push(s[i]) =~= s.take(i + 1));
    lemma_seen_count_push(s.take(i), s[i], PRIZE_COUNT as nat);
}

/// Once `RANDOM_ROLLS` draws have been made, the number of earned prizes is
/// at least the number of draws beyond the random ones, plus one.
proof fn lemma_count_after_random(s: Seq<RollResult>, m: int)
    requires
        follows_rule(s),
        RANDOM_ROLLS <= m <= s.len(),
    ensures
        seen_count(s.take(m), PRIZE_COUNT as nat) >= m - RANDOM_ROLLS + 1,
    decreases m,
{
    if m == RANDOM_ROLLS {
        let p = s.take(m);
        assert(p[0].spec_index() == p[0].spec_index());
        assert(seen(p, p[0].spec_index() as int));
        lemma_seen_count_bound(p, PRIZE_COUNT as nat);
    } else {
        lemma_count_after_random(s, m - 1);
        lemma_fallback_earns_one(s, m - 1);
    }
}

/// Every trial draws between 8 and 32 times, and every prize occurs in it.
pub proof fn lemma_trial_bounds(s: Seq<RollResult>)
    requires
        is_trial(s),
    ensures
        PRIZE_COUNT <= s.len() <= MAX_TRIAL_LEN,
        forall|p: RollResult| #[trigger] s.contains(p),
{
    lemma_has_all_iff_count(s);
    lemma_seen_count_le_len(s);
    if s.len() > MAX_TRIAL_LEN {
        lemma_count_after_random(s, MAX_TRIAL_LEN as int);
        lemma_has_all_iff_count(s.take(MAX_TRIAL_LEN as int));
        assert(!has_all(s.take(MAX_TRIAL_LEN as int)));
    }
    assert forall|p: RollResult| #[trigger] s.contains(p) by {
        assert(seen(s, p.spec_index() as int));
        let i = choose|i: int| 0 <= i < s.len() && #[trigger] s[i].spec_index() == p.spec_index();
        lemma_index_injective(s[i], p);
    }
}

/// A trial is fixed by the draws that feed its random part: two trials that
/// agree with the same draws are the same trial.
pub proof fn lemma_trial_determined(a: Seq<RollResult>, b: Seq<RollResult>, draws: Seq<RollResult>)
    requires
        is_trial(a),
        is_trial(b),
        agrees_with(a, draws),
        agrees_with(b, draws),
    ensures
        a == b,
{
    if a.len() <= b.len() {
        lemma_prefixes_equal(a, b, draws, a.len() as int);
        assert(a.take(a.len() as int) =~= a);
        if a.len() < b.len() {
            assert(!has_all(b.take(a.len() as int)));
        }
        assert(b.take(b.len() as int) =~= b);
    } else {
        lemma_prefixes_equal(b, a, draws, b.len() as int);
        assert(b.take(b.len() as int) =~= b);
        assert(!has_all(a.take(b.len() as int)));
    }
}

proof fn lemma_prefixes_equal(a: Seq<RollResult>, b: Seq<RollResult>, draws: Seq<RollResult>, m: int)
    requires
        follows_rule(a),
        follows_rule(b),
        agrees_with(a, draws),
        agrees_with(b, draws),
        0 <= m <= a.len(),
        m <= b.len(),
    ensures
        a.take(m) == b.take(m),
    decreases m,
{
    if m > 0 {
        let i = m - 1;
        lemma_prefixes_equal(a, b, draws, i);
        if i >= RANDOM_ROLLS {
            let ka = a[i].spec_index() as int;
            let kb = b[i].spec_index() as int;
            assert(is_lowest_unseen(a.take(i), ka));
            assert(is_lowest_unseen(b.take(i), kb));
            if ka < kb {
                assert(seen(b.take(i), ka));
            } else if kb < ka {
                assert(seen(a.take(i), kb));
            }
            lemma_index_injective(a[i], b[i]);
        }
        assert(a.take(m) =~= a.take(i).push(a[i]));
        assert(b.take(m) =~= b.take(i).push(b[i]));
    }
}

proof fn lemma_seen_prefix(s: Seq<RollResult>, m: int, k: int)
    requires
        0 <= m <= s.len(),
        seen(s.take(m), k),
    ensures
        seen(s, k),
{
    let p = s.take(m);
    let i = choose|i: int| 0 <= i < p.len() && #[trigger] p[i].spec_index() == k;
    assert(s[i] == p[i]);
}

/// The rolls so far and the earned flags of a trial in progress agree, the
/// rule has held at every draw, and the trial is still within its bound.
pub open spec fn progress_wf(rolls: Seq<RollResult>, earned: Seq<bool>) -> bool {
    &&& earned.len() == PRIZE_COUNT
    &&& forall|k: int| 0 <= k < PRIZE_COUNT ==> earned[k] == #[trigger] seen(rolls, k)
    &&& follows_rule(rolls)
    &&& rolls.len() <= MAX_TRIAL_LEN
    &&& rolls.len() >= RANDOM_ROLLS ==> seen_count(rolls, PRIZE_COUNT as nat) >= rolls.len()
        - RANDOM_ROLLS + 1
}

proof fn lemma_not_all_earned(rolls: Seq<RollResult>, earned: Seq<bool>)
    requires
        progress_wf(rolls, earned),
        !(forall|k: int| 0 <= k < PRIZE_COUNT ==> earned[k]),
    ensures
        !has_all(rolls),
        exists|k: int| 0 <= k < PRIZE_COUNT && !earned[k],
{
    let k = choose|k: int| 0 <= k < PRIZE_COUNT && !earned[k];
    assert(!seen(rolls, k));
}

/// Whether every flag of the earned set is set.
fn all_earned(earned: &Vec<bool>) -> (r: bool)
    requires
        earned@.len() == PRIZE_COUNT,
    ensures
        r == forall|k: int| 0 <= k < PRIZE_COUNT ==> earned@[k],
{
    let mut i: usize = 0;
    while i < PRIZE_COUNT
        invariant
            earned@.len() == PRIZE_COUNT,
            i <= PRIZE_COUNT,
            forall|k: int| 0 <= k < i ==> earned@[k],
        decreases PRIZE_COUNT - i,
    {
        if !earned[i] {
            return false;
        }
        i = i + 1;
    }
    true
}

/// The lowest-indexed prize whose flag is not set.
fn first_unearned(earned: &Vec<bool>) -> (r: RollResult)
    requires
        earned@.len() == PRIZE_COUNT,
        exists|k: int| 0 <= k < PRIZE_COUNT && !earned@[k],
    ensures
        !earned@[r.spec_index() as int],
        forall|j: int| 0 <= j < r.spec_index() ==> earned@[j],
{
    let mut i: usize = 0;
    while i < PRIZE_COUNT && earned[i]
        invariant
            earned@.len() == PRIZE_COUNT,
            i <= PRIZE_COUNT,
            forall|j: int| 0 <= j < i ==> earned@[j],
        decreases PRIZE_COUNT - i,
    {
        i = i + 1;
    }
    RollResult::from_index(i)
}

/// The earned set of a trial that has not drawn yet: no flag set.
fn empty_earned() -> (r: Vec<bool>)
    ensures
        r@.len() == PRIZE_COUNT,
        forall|k: int| 0 <= k < PRIZE_COUNT ==> !r@[k],
{
    let mut r: Vec<bool> = Vec::new();
    while r.len() < PRIZE_COUNT
        invariant
            r@.len() <= PRIZE_COUNT,
            forall|k: int| 0 <= k < r@.len() ==> !r@[k],
        decreases PRIZE_COUNT - r@.len(),
    {
        r.push(false);
    }
    r
}

/// Appends one draw to a trial in progress and marks its prize as earned.
/// The draw is one the rule allows: from position `RANDOM_ROLLS` on, the
/// lowest prize not yet earned.
fn record(rolls: &mut Vec<RollResult>, earned: &mut Vec<bool>, roll: RollResult)
    requires
        progress_wf(old(rolls)@, old(earned)@),
        !has_all(old(rolls)@),
        old(rolls)@.len() >= RANDOM_ROLLS ==> is_lowest_unseen(old(rolls)@, roll.spec_index() as int),
    ensures
        final(rolls)@ == old(rolls)@.push(roll),
        progress_wf(final(rolls)@, final(earned)@),
{
    let ghost s = rolls@;
    let ghost t = s.push(roll);
    proof {
        lemma_has_all_iff_count(s);
        lemma_seen_count_push(s, roll, PRIZE_COUNT as nat);
        assert forall|i: int| 0 <= i < t.len() implies !has_all(#[trigger] t.take(i)) by {
            if i < s.len() {
                assert(t.take(i) =~= s.take(i));
            } else {
                assert(t.take(i) =~= s);
            }
        }
        assert forall|i: int| RANDOM_ROLLS <= i < t.len() implies is_lowest_unseen(
            t.take(i),
            (#[trigger] t[i]).spec_index() as int,
        ) by {
            if i < s.len() {
                assert(t.take(i) =~= s.take(i));
            } else {
                assert(t.take(i) =~= s);
            }
        }
        if t.len() == RANDOM_ROLLS {
            assert(seen(t, t[0].spec_index() as int));
            lemma_seen_count_bound(t, PRIZE_COUNT as nat);
        }
        assert forall|k: int| 0 <= k < PRIZE_COUNT implies (#[trigger] seen(t, k)) == (seen(s, k)
            || roll.spec_index() == k) by {
            lemma_seen_push(s, roll, k);
        }
    }
    let i = roll.index();
    earned.set(i, true);
    rolls.push(roll);
}

/// Draws one prize uniformly at random from `rng`.
pub fn sample_outcome(rng: &mut rand::rngs::ThreadRng) -> (r: RollResult)
    ensures
        r.spec_index() < PRIZE_COUNT,
{
    let i = random_below(rng, PRIZE_COUNT);
    RollResult::from_index(i)
}

/// Runs one trial, drawing its random part from `rng`. Whatever is drawn,
/// the result is a complete trial of 8 to 32 draws that holds every prize.
pub fn run_trial(rng: &mut rand::rngs::ThreadRng) -> (r: Vec<RollResult>)
    ensures
        is_trial(r@),
        PRIZE_COUNT <= r@.len() <= MAX_TRIAL_LEN,
{
    let mut rolls: Vec<RollResult> = Vec::new();
    let mut earned = empty_earned();
    proof {
        lemma_seen_count_zero(rolls@, PRIZE_COUNT as nat);
    }
    while !all_earned(&earned)
        invariant
            progress_wf(rolls@, earned@),
        decreases MAX_TRIAL_LEN - rolls@.len(),
    {
        proof {
            lemma_has_all_iff_count(rolls@);
            lemma_not_all_earned(rolls@, earned@);
        }
        let roll = if rolls.len() < RANDOM_ROLLS {
            sample_outcome(rng)
        } else {
            first_unearned(&earned)
        };
        record(&mut rolls, &mut earned, roll);
    }
    proof {
        lemma_trial_bounds(rolls@);
    }
    rolls
}

/// Runs one trial whose random part is taken, in order, from `draws`.
/// There is no trial when `draws` runs out first: when it is shorter than
/// `RANDOM_ROLLS` and does not hold every prize.
pub fn trial_from_draws(draws: &Vec<RollResult>) -> (r: Option<Vec<RollResult>>)
    ensures
        r is None <==> draws@.len() < RANDOM_ROLLS && !has_all(draws@),
        r matches Some(t) ==> is_trial(t@) && agrees_with(t@, draws@),
{
    let mut rolls: Vec<RollResult> = Vec::new();
    let mut earned = empty_earned();
    proof {
        lemma_seen_count_zero(rolls@, PRIZE_COUNT as nat);
    }
    while !all_earned(&earned)
        invariant
            progress_wf(rolls@, earned@),
            agrees_with(rolls@, draws@),
        decreases MAX_TRIAL_LEN - rolls@.len(),
    {
        proof {
            lemma_has_all_iff_count(rolls@);
            lemma_not_all_earned(rolls@, earned@);
        }
        let n = rolls.len();
        let ghost before = rolls@;
        if n < RANDOM_ROLLS {
            if n >= draws.len() {
                proof {
                    assert forall|i: int| 0 <= i < rolls@.len() implies rolls@[i] == draws@[i] by {
                        assert(rolls@[i] == draws@[i]);
                    }
                    assert(rolls@ =~= draws@);
                }
                return None;
            }
            let roll = draws[n];
            record(&mut rolls, &mut earned, roll);
            proof {
                assert(rolls@[n as int] == draws@[n as int]);
            }
        } else {
            let roll = first_unearned(&earned);
            record(&mut rolls, &mut earned, roll);
        }
        proof {
            assert forall|i: int| 0 <= i < rolls@.len() && i < RANDOM_ROLLS implies #[trigger] rolls@[i]
                == draws@[i] by {
                if i < n {
                    assert(rolls@[i] == before[i]);
                    assert(before[i] == draws@[i]);
                } else {
                    assert(i == n);
                }
            }
        }
    }
    proof {
        if draws@.len() < RANDOM_ROLLS {
            let m = rolls@.len() as int;
            assert forall|i: int| 0 <= i < m implies rolls@[i] == #[trigger] draws@.take(m)[i] by {
                assert(rolls@[i] == draws@[i]);
            }
            assert(rolls@ =~= draws@.take(m));
            assert forall|k: int| 0 <= k < PRIZE_COUNT implies #[trigger] seen(draws@, k) by {
                lemma_seen_prefix(draws@, m, k);
            }
        }
    }
    Some(rolls)
}

} // verus!
