//! Batches of task records: one outcome per record, and their tally.
//!
//! A record is a duration text and the band its score falls in. Each record
//! is judged on its own, so the outcomes may be computed in any order and on
//! any number of workers; the tally of a batch is the merge of the tallies of
//! its parts, whatever the parts are.

use crate::shape::{matched_len, ArgumentMismatch};
use crate::time_text::{parse_time_string_fast, time_seconds};
use vstd::prelude::*;

verus! {

/// Where a score stands against the pass mark.
#[derive(Clone, Copy, Debug, PartialEq, Eq, Structural)]
pub enum ScoreBand {
    /// The score is below the pass mark.
    Failing,
    /// The score is at or above the pass mark.
    Passing,
    /// The score compares with nothing, so it is neither.
    Unrated,
}

/// What one record comes to.
#[derive(Clone, Copy, Debug, PartialEq, Eq, Structural)]
pub struct TaskOutcome {
    pub duration_seconds: u64,
    pub is_fail: bool,
    pub is_bonus: bool,
}

/// The counts and the total time of a batch.
#[derive(Clone, Copy, Debug, PartialEq, Eq, Structural)]
pub struct BatchTally {
    pub total_seconds: u128,
    pub fail_count: usize,
    pub bonus_tasks_count: usize,
    pub task_count: usize,
}

/// The outcomes of a batch, in the order of its records, and their tally.
#[derive(Debug)]
pub struct BatchReport {
    pub outcomes: Vec<TaskOutcome>,
    pub tally: BatchTally,
}

/// A tally as plain numbers.
pub struct Tally {
    pub total_seconds: nat,
    pub fail_count: nat,
    pub bonus_tasks_count: nat,
    pub task_count: nat,
}

impl Tally {
    /// The tally of no record.
    pub open spec fn zero() -> Tally {
        Tally { total_seconds: 0, fail_count: 0, bonus_tasks_count: 0, task_count: 0 }
    }

    /// The tally of one record.
    pub open spec fn single(outcome: TaskOutcome) -> Tally {
        Tally {
            total_seconds: outcome.duration_seconds as nat,
            fail_count: if outcome.is_fail {
                1
            } else {
                0
            },
            bonus_tasks_count: if outcome.is_bonus {
                1
            } else {
                0
            },
            task_count: 1,
        }
    }

    /// The tally of two batches taken together.
    pub open spec fn merge(self, other: Tally) -> Tally {
        Tally {
            total_seconds: self.total_seconds + other.total_seconds,
            fail_count: self.fail_count + other.fail_count,
            bonus_tasks_count: self.bonus_tasks_count + other.bonus_tasks_count,
            task_count: self.task_count + other.task_count,
        }
    }
}

impl View for BatchTally {
    type V = Tally;

    open spec fn view(&self) -> Tally {
        Tally {
            total_seconds: self.total_seconds as nat,
            fail_count: self.fail_count as nat,
            bonus_tasks_count: self.bonus_tasks_count as nat,
            task_count: self.task_count as nat,
        }
    }
}

/// What one record comes to: its seconds, whether it failed, and whether it
/// earns the bonus rate. A record fails when its score is below the pass
/// mark; it earns the bonus rate when bonuses are on and it passed.
pub open spec fn outcome_of(text: Seq<char>, band: ScoreBand, bonus_enabled: bool) -> TaskOutcome {
    TaskOutcome {
        duration_seconds: time_seconds(text) as u64,
        is_fail: band == ScoreBand::Failing,
        is_bonus: bonus_enabled && band == ScoreBand::Passing,
    }
}

/// The outcomes of a batch, record by record.
pub open spec fn outcomes_of(
    durations: Seq<String>,
    bands: Seq<ScoreBand>,
    bonus_enabled: bool,
) -> Seq<TaskOutcome> {
    Seq::new(durations.len(), |i: int| outcome_of(durations[i]@, bands[i], bonus_enabled))
}

/// The tally of a run of outcomes.
pub open spec fn tally_of(outcomes: Seq<TaskOutcome>) -> Tally
    decreases outcomes.len(),
{
    if outcomes.len() == 0 {
        Tally::zero()
    } else {
        tally_of(outcomes.drop_last()).merge(Tally::single(outcomes.last()))
    }
}

/// A tally never counts more fails than records, nor more bonuses, and its
/// total time is bounded by what the records can hold.
pub proof fn lemma_tally_bounds(outcomes: Seq<TaskOutcome>)
    ensures
        tally_of(outcomes).task_count == outcomes.len(),
        tally_of(outcomes).fail_count <= outcomes.len(),
        tally_of(outcomes).bonus_tasks_count <= outcomes.len(),
        tally_of(outcomes).total_seconds <= outcomes.len() * u64::MAX,
    decreases outcomes.len(),
{
    if outcomes.len() > 0 {
        lemma_tally_bounds(outcomes.drop_last());
        assert(outcomes.len() * u64::MAX == (outcomes.len() - 1) * u64::MAX + u64::MAX)
            by (nonlinear_arith);
    }
}

/// Judges one record.
pub fn task_outcome(duration_text: &str, band: ScoreBand, bonus_enabled: bool) -> (outcome:
    TaskOutcome)
    ensures
        outcome == outcome_of(duration_text@, band, bonus_enabled),
{
    let duration_seconds = parse_time_string_fast(duration_text);
    let is_fail = match band {
        ScoreBand::Failing => true,
        _ => false,
    };
    let is_bonus = match band {
        ScoreBand::Passing => bonus_enabled,
        _ => false,
    };
    TaskOutcome { duration_seconds, is_fail, is_bonus }
}

/// Tallies a run of outcomes.
pub fn tally_outcomes(outcomes: &Vec<TaskOutcome>) -> (tally: BatchTally)
    ensures
        tally@ == tally_of(outcomes@),
{
    let mut tally = BatchTally {
        total_seconds: 0,
        fail_count: 0,
        bonus_tasks_count: 0,
        task_count: 0,
    };
    let mut i: usize = 0;
    while i < outcomes.len()
        invariant
            i <= outcomes.len(),
            tally@ == tally_of(outcomes@.take(i as int)),
        decreases outcomes.len() - i,
    {
        let outcome = outcomes[i];
        proof {
            let longer = outcomes@.take(i + 1);
            assert(longer.drop_last() == outcomes@.take(i as int));
            assert(longer.last() == outcome);
            lemma_tally_bounds(outcomes@.take(i as int));
            assert(i * u64::MAX + u64::MAX <= usize::MAX * u64::MAX + u64::MAX) by (nonlinear_arith)
                requires
                    i <= usize::MAX,
            ;
        }
        tally.total_seconds = tally.total_seconds + outcome.duration_seconds as u128;
        if outcome.is_fail {
            tally.fail_count = tally.fail_count + 1;
        }
        if outcome.is_bonus {
            tally.bonus_tasks_count = tally.bonus_tasks_count + 1;
        }
        tally.task_count = tally.task_count + 1;
        i += 1;
    }
    assert(outcomes@.take(i as int) == outcomes@);
    tally
}

/// Judges every record of a batch and tallies the outcomes.
///
/// A batch whose two columns differ in length is turned away before any
/// record is read. An empty batch is no error: its tally is all zeros.
pub fn process_tasks_batch(
    duration_strings: &Vec<String>,
    bands: &Vec<ScoreBand>,
    bonus_enabled: bool,
) -> (result: Result<BatchReport, ArgumentMismatch>)
    ensures
        result is Err <==> duration_strings.len() != bands.len(),
        result matches Err(e) ==> e == (ArgumentMismatch {
            left: duration_strings.len(),
            right: bands.len(),
        }),
        result matches Ok(report) ==> {
            &&& report.outcomes@ == outcomes_of(duration_strings@, bands@, bonus_enabled)
            &&& report.tally@ == tally_of(report.outcomes@)
            &&& report.tally.task_count == duration_strings.len()
            &&& report.tally.fail_count + report.tally.bonus_tasks_count
                <= report.tally.task_count
        },
{
    match matched_len(duration_strings.len(), bands.len()) {
        Ok(_) => {},
        Err(mismatch) => {
            return Err(mismatch);
        },
    }
    let mut outcomes: Vec<TaskOutcome> = Vec::new();
    let mut i: usize = 0;
    while i < duration_strings.len()
        invariant
            i <= duration_strings.len(),
            duration_strings.len() == bands.len(),
            outcomes@ == outcomes_of(duration_strings@, bands@, bonus_enabled).take(i as int),
        decreases duration_strings.len() - i,
    {
        let outcome = task_outcome(duration_strings[i].as_str(), bands[i], bonus_enabled);
        outcomes.push(outcome);
        i += 1;
    }
    let tally = tally_outcomes(&outcomes);
    proof {
        let all = outcomes_of(duration_strings@, bands@, bonus_enabled);
        assert(all.take(i as int) == all);
        lemma_tally_bounds(outcomes@);
        lemma_fails_and_bonuses_apart(duration_strings@, bands@, bonus_enabled);
    }
    Ok(BatchReport { outcomes, tally })
}

/// No record both fails and earns the bonus rate, so fails and bonuses
/// together never outnumber the records.
pub proof fn lemma_fails_and_bonuses_apart(
    durations: Seq<String>,
    bands: Seq<ScoreBand>,
    bonus_enabled: bool,
)
    ensures
        forall|i: int|
            0 <= i < durations.len() ==> !({
                let outcome = #[trigger] outcomes_of(durations, bands, bonus_enabled)[i];
                outcome.is_fail && outcome.is_bonus
            }),
        tally_of(outcomes_of(durations, bands, bonus_enabled)).fail_count + tally_of(
            outcomes_of(durations, bands, bonus_enabled),
        ).bonus_tasks_count <= durations.len(),
{
    let outcomes = outcomes_of(durations, bands, bonus_enabled);
    lemma_exclusive_counts(outcomes);
}

/// Merging two tallies gives the same whichever comes first.
pub proof fn lemma_merge_commutative(a: Tally, b: Tally)
    ensures
        a.merge(b) == b.merge(a),
{
}

/// Merging three tallies gives the same however they are grouped.
pub proof fn lemma_merge_associative(a: Tally, b: Tally, c: Tally)
    ensures
        a.merge(b).merge(c) == a.merge(b.merge(c)),
{
}

/// Merging with the tally of no record changes nothing.
pub proof fn lemma_merge_zero(a: Tally)
    ensures
        a.merge(Tally::zero()) == a,
        Tally::zero().merge(a) == a,
{
}

/// The tally of a batch cut in two is the merge of the tallies of the parts.
pub proof fn lemma_tally_concat(front: Seq<TaskOutcome>, back: Seq<TaskOutcome>)
    ensures
        tally_of(front + back) == tally_of(front).merge(tally_of(back)),
    decreases back.len(),
{
    if back.len() == 0 {
        assert(front + back == front);
    } else {
        assert((front + back).drop_last() == front + back.drop_last());
        assert((front + back).last() == back.last());
        lemma_tally_concat(front, back.drop_last());
    }
}

/// Taking one outcome out of a run lowers the tally by that outcome.
proof fn lemma_tally_remove(outcomes: Seq<TaskOutcome>, at: int)
    requires
        0 <= at < outcomes.len(),
    ensures
        tally_of(outcomes) == tally_of(outcomes.remove(at)).merge(Tally::single(outcomes[at])),
{
    let front = outcomes.take(at);
    let one = seq![outcomes[at]];
    let back = outcomes.skip(at + 1);
    assert(outcomes == front + one + back);
    assert(outcomes.remove(at) == front + back);
    lemma_tally_concat(front + one, back);
    lemma_tally_concat(front, one);
    lemma_tally_concat(front, back);
    assert(one.drop_last().len() == 0);
    assert(tally_of(one.drop_last()) == Tally::zero());
    assert(one.last() == outcomes[at]);
    assert(tally_of(one) == Tally::single(outcomes[at]));
}

/// The order of the records does not matter to the tally: two runs that hold
/// the same outcomes the same number of times have the same tally.
pub proof fn lemma_tally_ignores_order(a: Seq<TaskOutcome>, b: Seq<TaskOutcome>)
    requires
        a.to_multiset() == b.to_multiset(),
    ensures
        tally_of(a) == tally_of(b),
    decreases a.len(),
{
    a.to_multiset_ensures();
    b.to_multiset_ensures();
    if a.len() == 0 {
        assert(b.len() == 0);
    } else {
        let last = a.last();
        assert(a.contains(last));
        assert(b.to_multiset().count(last) > 0);
        assert(b.contains(last));
        let at = b.index_of(last);
        let rest = a.drop_last();
        assert(rest == a.remove(a.len() - 1));
        assert(rest.to_multiset() == a.to_multiset().remove(last));
        assert(b.remove(at).to_multiset() == b.to_multiset().remove(last));
        lemma_tally_ignores_order(rest, b.remove(at));
        lemma_tally_remove(b, at);
    }
}

/// Where no outcome is both a fail and a bonus, the two counts together stay
/// within the number of outcomes.
proof fn lemma_exclusive_counts(outcomes: Seq<TaskOutcome>)
    requires
        forall|i: int|
            0 <= i < outcomes.len() ==> !((#[trigger] outcomes[i]).is_fail && outcomes[i].is_bonus),
    ensures
        tally_of(outcomes).fail_count + tally_of(outcomes).bonus_tasks_count <= outcomes.len(),
    decreases outcomes.len(),
{
    if outcomes.len() > 0 {
        let shorter = outcomes.drop_last();
        assert forall|i: int| 0 <= i < shorter.len() implies !((#[trigger] shorter[i]).is_fail
            && shorter[i].is_bonus) by {
            assert(shorter[i] == outcomes[i]);
        }
        lemma_exclusive_counts(shorter);
        assert(!(outcomes[outcomes.len() - 1].is_fail && outcomes[outcomes.len() - 1].is_bonus));
    }
}

} // verus!
