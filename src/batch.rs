//! Running a batch of trials and reducing their lengths to a summary: the
//! number of trials, the total number of draws, and a histogram from trial
//! length to the number of trials of that length.

use vstd::multiset::Multiset;
use vstd::prelude::*;

use std::collections::HashMap;

use crate::prize::PRIZE_COUNT;
use crate::trial::{run_trial, MAX_TRIAL_LEN};

verus! {

broadcast use vstd::std_specs::hash::group_hash_axioms, vstd::seq_lib::group_to_multiset_ensures;

/// The reasons a batch cannot be run.
#[derive(Debug, Clone, Copy, PartialEq, Eq, Structural)]
pub enum BatchError {
    /// A batch needs at least one trial.
    InvalidArgument,
}

/// What a batch of trials reduces to. The mean trial length is
/// `total_rolls / trial_count`.
pub struct BatchSummary {
    /// How many trials were run.
    pub trial_count: usize,
    /// The sum of the lengths of all trials.
    pub total_rolls: u128,
    /// For each trial length that occurred, how many trials had it.
    pub histogram: HashMap<usize, usize>,
}

/// The sum of all lengths.
pub open spec fn total_of(lengths: Seq<usize>) -> int
    decreases lengths.len(),
{
    if lengths.len() == 0 {
        0
    } else {
        total_of(lengths.drop_last()) + lengths.last()
    }
}

/// The histogram of `lengths`: each length that occurs, mapped to the number
/// of times it occurs.
pub open spec fn histogram_of(lengths: Seq<usize>) -> Map<usize, usize> {
    Map::new(
        |k: usize| lengths.to_multiset().count(k) > 0,
        |k: usize| lengths.to_multiset().count(k) as usize,
    )
}

/// The sum of the counts of a histogram.
pub open spec fn histogram_total(h: Map<usize, usize>) -> nat {
    Multiset::from_map(h.map_values(|c: usize| c as nat)).len()
}

impl BatchSummary {
    /// This summary is the reduction of exactly the trial lengths `lengths`.
    pub open spec fn summarizes(&self, lengths: Seq<usize>) -> bool {
        &&& self.trial_count == lengths.len()
        &&& self.total_rolls == total_of(lengths)
        &&& self.histogram@ == histogram_of(lengths)
    }
}

proof fn lemma_total_bound(lengths: Seq<usize>)
    ensures
        0 <= total_of(lengths) <= lengths.len() * 0xffff_ffff_ffff_ffff,
    decreases lengths.len(),
{
    if lengths.len() > 0 {
        lemma_total_bound(lengths.drop_last());
    }
}

/// A summary accounts for every trial it was built from: the counts of its
/// histogram add up to the number of trials, and its total is the sum of the
/// trial lengths, so that the mean is that sum over the number of trials.
pub proof fn lemma_summary_accounts_for_all(s: &BatchSummary, lengths: Seq<usize>)
    requires
        s.summarizes(lengths),
    ensures
        histogram_total(s.histogram@) == lengths.len(),
        histogram_total(s.histogram@) == s.trial_count,
        s.total_rolls == total_of(lengths),
{
    let m = lengths.to_multiset();
    let h = s.histogram@.map_values(|c: usize| c as nat);
    assert(h.dom() =~= m.dom());
    assert(m.dom().finite());
    assert forall|v: usize| Multiset::from_map(h).count(v) == m.count(v) by {
        if h.contains_key(v) {
            assert(m.count(v) <= m.len());
            assert(h[v] == m.count(v));
        }
    }
    assert(Multiset::from_map(h) =~= m);
}

/// A summary of a single trial has exactly one histogram entry: that
/// trial's length, with count one; its total is that length.
pub proof fn lemma_single_trial_summary(s: &BatchSummary, lengths: Seq<usize>)
    requires
        s.summarizes(lengths),
        lengths.len() == 1,
    ensures
        s.histogram@ == map![lengths[0] => 1usize],
        s.histogram@.dom().len() == 1,
        s.total_rolls == lengths[0],
{
    assert(lengths =~= Seq::<usize>::empty().push(lengths[0]));
    assert(lengths.drop_last() =~= Seq::<usize>::empty());
    assert(total_of(lengths.drop_last()) == 0);
    assert(Seq::<usize>::empty().to_multiset() =~= Multiset::empty());
    assert(s.histogram@ =~= map![lengths[0] => 1usize]);
    assert(s.histogram@.dom() =~= set![lengths[0]]);
}

/// Reduces the trial lengths of a batch to its summary. An empty batch is
/// refused, since it has no mean.
pub fn summarize(lengths: &Vec<usize>) -> (r: Result<BatchSummary, BatchError>)
    ensures
        r is Err <==> lengths@.len() == 0,
        r matches Err(e) ==> e == BatchError::InvalidArgument,
        r matches Ok(s) ==> s.summarizes(lengths@),
{
    if lengths.len() == 0 {
        return Err(BatchError::InvalidArgument);
    }
    let mut histogram: HashMap<usize, usize> = HashMap::new();
    let mut total: u128 = 0;
    let mut i: usize = 0;
    proof {
        assert(lengths@.take(0) =~= Seq::<usize>::empty());
        assert(histogram@ =~= histogram_of(lengths@.take(0)));
    }
    while i < lengths.len()
        invariant
            i <= lengths@.len(),
            total == total_of(lengths@.take(i as int)),
            histogram@ == histogram_of(lengths@.take(i as int)),
            forall|k: usize| #[trigger] histogram@.contains_key(k) ==> histogram@[k] <= i,
        decreases lengths@.len() - i,
    {
        let l = lengths[i];
        let ghost p = lengths@.take(i as int);
        let ghost q = lengths@.take(i + 1);
        proof {
            assert(q =~= p.push(l));
            assert(q.drop_last() =~= p);
            lemma_total_bound(p);
            assert(p.to_multiset().insert(l) == q.to_multiset());
            assert(p.to_multiset().count(l) <= p.to_multiset().len());
        }
        let count = match histogram.get(&l) {
            Some(c) => *c + 1,
            None => 1,
        };
        proof {
            assert(count == q.to_multiset().count(l));
        }
        histogram.insert(l, count);
        total = total + l as u128;
        i = i + 1;
        proof {
            assert(histogram@ =~= histogram_of(q));
        }
    }
    proof {
        assert(lengths@.take(i as int) =~= lengths@);
    }
    Ok(BatchSummary { trial_count: lengths.len(), total_rolls: total, histogram })
}

/// Runs `trial_count` independent trials, drawing from `rng`, and reduces
/// their lengths to a summary. A batch of no trials is refused. Whatever is
/// drawn, the summary is that of `trial_count` lengths, each between 8 and
/// 32, so every histogram key lies in that range.
pub fn run_batch(trial_count: usize, rng: &mut rand::rngs::ThreadRng) -> (r: Result<
    BatchSummary,
    BatchError,
>)
    ensures
        r is Err <==> trial_count == 0,
        r matches Err(e) ==> e == BatchError::InvalidArgument,
        r matches Ok(s) ==> {
            &&& s.trial_count == trial_count
            &&& exists|lengths: Seq<usize>|
                {
                    &&& lengths.len() == trial_count
                    &&& forall|i: int|
                        0 <= i < lengths.len() ==> PRIZE_COUNT <= #[trigger] lengths[i]
                            <= MAX_TRIAL_LEN
                    &&& #[trigger] s.summarizes(lengths)
                }
            &&& forall|k: usize| #[trigger]
                s.histogram@.contains_key(k) ==> PRIZE_COUNT <= k <= MAX_TRIAL_LEN
        },
{
    if trial_count == 0 {
        return Err(BatchError::InvalidArgument);
    }
    let mut lengths: Vec<usize> = Vec::new();
    while lengths.len() < trial_count
        invariant
            lengths@.len() <= trial_count,
            forall|i: int|
                0 <= i < lengths@.len() ==> PRIZE_COUNT <= #[trigger] lengths@[i] <= MAX_TRIAL_LEN,
        decreases trial_count - lengths@.len(),
    {
        let rolls = run_trial(rng);
        lengths.push(rolls.len());
    }
    let r = summarize(&lengths);
    proof {
        if let Ok(s) = &r {
            assert forall|k: usize| #[trigger] s.histogram@.contains_key(k) implies PRIZE_COUNT <= k
                <= MAX_TRIAL_LEN by {
                assert(lengths@.contains(k));
            }
        }
    }
    r
}

} // verus!
