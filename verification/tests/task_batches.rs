use stat_engine::shape::ArgumentMismatch;
use stat_engine::tasks::{
    process_tasks_batch, tally_outcomes, task_outcome, BatchTally, ScoreBand, TaskOutcome,
};

fn band(score: f64) -> ScoreBand {
    if score < 3.0 {
        ScoreBand::Failing
    } else if score >= 3.0 {
        ScoreBand::Passing
    } else {
        ScoreBand::Unrated
    }
}

fn earnings(outcome: &TaskOutcome, global_rate: f64, bonus_rate: f64) -> f64 {
    let hours = outcome.duration_seconds as f64 / 3600.0;
    if outcome.is_bonus {
        hours * bonus_rate
    } else {
        hours * global_rate
    }
}

#[test]
fn one_hour_bonus_task() {
    let durations = vec!["01:00:00".to_string()];
    let bands = vec![band(5.0)];
    let report = process_tasks_batch(&durations, &bands, true).unwrap();
    assert_eq!(report.outcomes.len(), 1);
    assert_eq!(report.outcomes[0].duration_seconds, 3600);
    assert!(report.outcomes[0].is_bonus);
    assert!(!report.outcomes[0].is_fail);
    assert_eq!(earnings(&report.outcomes[0], 10.0, 20.0), 20.0);
    assert_eq!(report.tally.fail_count, 0);
    assert_eq!(report.tally.bonus_tasks_count, 1);
    assert_eq!(report.tally.task_count, 1);
    assert_eq!(report.tally.total_seconds, 3600);
}

#[test]
fn mismatched_lengths_are_turned_away() {
    let durations = vec!["01:00:00".to_string(), "00:30:00".to_string()];
    let bands = vec![band(5.0)];
    let result = process_tasks_batch(&durations, &bands, true);
    assert_eq!(
        result.err(),
        Some(ArgumentMismatch { left: 2, right: 1 })
    );
    let result = process_tasks_batch(&Vec::new(), &bands, false);
    assert_eq!(
        result.err(),
        Some(ArgumentMismatch { left: 0, right: 1 })
    );
}

#[test]
fn empty_batch_is_all_zeros() {
    let report = process_tasks_batch(&Vec::new(), &Vec::new(), true).unwrap();
    assert!(report.outcomes.is_empty());
    assert_eq!(
        report.tally,
        BatchTally { total_seconds: 0, fail_count: 0, bonus_tasks_count: 0, task_count: 0 }
    );
}

#[test]
fn fails_and_bonuses_are_told_apart() {
    let durations: Vec<String> =
        ["00:10:00", "00:20:00", "bad", "01:00:00", "00:00:30"].iter().map(|s| s.to_string()).collect();
    let scores = [2.9, 3.0, 4.0, 1.0, f64::NAN];
    let bands: Vec<ScoreBand> = scores.iter().map(|s| band(*s)).collect();
    let report = process_tasks_batch(&durations, &bands, true).unwrap();
    let fails: Vec<bool> = report.outcomes.iter().map(|o| o.is_fail).collect();
    let bonuses: Vec<bool> = report.outcomes.iter().map(|o| o.is_bonus).collect();
    assert_eq!(fails, vec![true, false, false, true, false]);
    assert_eq!(bonuses, vec![false, true, true, false, false]);
    assert_eq!(report.tally.total_seconds, 600 + 1200 + 0 + 3600 + 30);
    assert_eq!(report.tally.fail_count, 2);
    assert_eq!(report.tally.bonus_tasks_count, 2);
    assert_eq!(report.tally.task_count, 5);
    let fail_rate = report.tally.fail_count as f64 / report.tally.task_count as f64 * 100.0;
    assert_eq!(fail_rate, 40.0);
}

#[test]
fn no_bonus_when_bonuses_are_off() {
    let outcome = task_outcome("02:00:00", band(4.5), false);
    assert_eq!(
        outcome,
        TaskOutcome { duration_seconds: 7200, is_fail: false, is_bonus: false }
    );
    assert_eq!(earnings(&outcome, 10.0, 20.0), 20.0);
    let outcome = task_outcome("02:00:00", band(4.5), true);
    assert!(outcome.is_bonus);
    assert_eq!(earnings(&outcome, 10.0, 20.0), 40.0);
    let outcome = task_outcome("02:00:00", band(3.0), true);
    assert!(outcome.is_bonus && !outcome.is_fail);
    let outcome = task_outcome("02:00:00", band(2.999), true);
    assert!(!outcome.is_bonus && outcome.is_fail);
}

#[test]
fn tally_does_not_depend_on_order_or_partition() {
    let outcomes = vec![
        TaskOutcome { duration_seconds: 10, is_fail: true, is_bonus: false },
        TaskOutcome { duration_seconds: 20, is_fail: false, is_bonus: true },
        TaskOutcome { duration_seconds: 30, is_fail: false, is_bonus: false },
        TaskOutcome { duration_seconds: u64::MAX, is_fail: true, is_bonus: false },
        TaskOutcome { duration_seconds: u64::MAX, is_fail: false, is_bonus: true },
    ];
    let whole = tally_outcomes(&outcomes);
    assert_eq!(whole.total_seconds, 60 + 2 * (u64::MAX as u128));
    assert_eq!((whole.fail_count, whole.bonus_tasks_count, whole.task_count), (2, 2, 5));
    let mut reversed = outcomes.clone();
    reversed.reverse();
    assert_eq!(tally_outcomes(&reversed), whole);
    for cut in 0..=outcomes.len() {
        let front = tally_outcomes(&outcomes[..cut].to_vec());
        let back = tally_outcomes(&outcomes[cut..].to_vec());
        assert_eq!(front.total_seconds + back.total_seconds, whole.total_seconds);
        assert_eq!(front.fail_count + back.fail_count, whole.fail_count);
        assert_eq!(front.bonus_tasks_count + back.bonus_tasks_count, whole.bonus_tasks_count);
        assert_eq!(front.task_count + back.task_count, whole.task_count);
    }
}
