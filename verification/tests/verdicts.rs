use shared_sum::accumulate::Contribution;
use shared_sum::accumulate::TrialError;
use shared_sum::summary::elapsed_of;
use shared_sum::summary::summarize;
use shared_sum::summary::BenchmarkSummary;
use shared_sum::trial::find_failure;
use shared_sum::trial::judge_trial;
use shared_sum::trial::Joined;
use shared_sum::trial::TrialReport;

fn done(before: f64) -> Result<Contribution, TrialError> {
    Ok(Contribution {
        before: before.to_bits(),
        after: (before + 42.0).to_bits(),
    })
}

fn completed(elapsed_nanos: u64) -> Result<TrialReport, TrialError> {
    Ok(TrialReport {
        elapsed_nanos,
        final_total: 10752.0f64.to_bits(),
    })
}

#[test]
fn a_joined_trial_reports_time_and_total() {
    let seen = Joined {
        exits: vec![done(0.0), done(42.0)],
        total: Ok(84.0f64.to_bits()),
        reread: 84.0f64.to_bits(),
    };
    assert_eq!(
        judge_trial(2, Some(seen), 1234),
        Ok(TrialReport {
            elapsed_nanos: 1234,
            final_total: 84.0f64.to_bits(),
        })
    );
}

#[test]
fn a_trial_without_workers_reports_its_total() {
    let seen = Joined {
        exits: Vec::new(),
        total: Ok(0),
        reread: 0,
    };
    assert_eq!(
        judge_trial(0, Some(seen), 0),
        Ok(TrialReport {
            elapsed_nanos: 0,
            final_total: 0,
        })
    );
}

#[test]
fn a_trial_not_joined_in_time_has_stalled() {
    assert_eq!(judge_trial(4, None, 5_000_000), Err(TrialError::BarrierStall));
}

#[test]
fn the_first_failed_worker_fails_the_trial() {
    let seen = Joined {
        exits: vec![
            done(0.0),
            Err(TrialError::PoisonedLock),
            Err(TrialError::BitReinterpretationMismatch),
        ],
        total: Ok(42.0f64.to_bits()),
        reread: 42.0f64.to_bits(),
    };
    assert_eq!(judge_trial(3, Some(seen), 7), Err(TrialError::PoisonedLock));
}

#[test]
fn a_trial_short_of_a_worker_has_stalled() {
    let seen = Joined {
        exits: vec![done(0.0), done(42.0), done(84.0)],
        total: Ok(126.0f64.to_bits()),
        reread: 126.0f64.to_bits(),
    };
    assert_eq!(judge_trial(4, Some(seen), 7), Err(TrialError::BarrierStall));
    let seen = Joined {
        exits: vec![done(0.0), done(42.0), done(84.0)],
        total: Ok(126.0f64.to_bits()),
        reread: 126.0f64.to_bits(),
    };
    assert_eq!(
        judge_trial(3, Some(seen), 7),
        Ok(TrialReport {
            elapsed_nanos: 7,
            final_total: 126.0f64.to_bits(),
        })
    );
    let seen = Joined {
        exits: vec![done(0.0), Err(TrialError::PoisonedLock)],
        total: Ok(42.0f64.to_bits()),
        reread: 42.0f64.to_bits(),
    };
    assert_eq!(judge_trial(1, Some(seen), 7), Err(TrialError::BarrierStall));
}

#[test]
fn a_total_that_cannot_be_read_fails_the_trial() {
    let seen = Joined {
        exits: vec![done(0.0)],
        total: Err(TrialError::PoisonedLock),
        reread: 0,
    };
    assert_eq!(judge_trial(1, Some(seen), 7), Err(TrialError::PoisonedLock));
}

#[test]
fn a_pattern_that_comes_back_changed_fails_the_trial() {
    let seen = Joined {
        exits: vec![done(0.0)],
        total: Ok(42.0f64.to_bits()),
        reread: 42.0f64.to_bits() + 1,
    };
    assert_eq!(
        judge_trial(1, Some(seen), 7),
        Err(TrialError::BitReinterpretationMismatch)
    );
}

#[test]
fn find_failure_takes_the_first() {
    assert_eq!(find_failure(&Vec::new()), None);
    assert_eq!(find_failure(&vec![done(0.0), done(42.0)]), None);
    assert_eq!(
        find_failure(&vec![
            done(0.0),
            Err(TrialError::BarrierStall),
            Err(TrialError::PoisonedLock)
        ]),
        Some(TrialError::BarrierStall)
    );
    assert_eq!(
        find_failure(&vec![Err(TrialError::PoisonedLock), done(0.0)]),
        Some(TrialError::PoisonedLock)
    );
}

#[test]
fn summary_of_no_trials() {
    let summary = summarize(&Vec::new());
    assert_eq!(
        summary,
        BenchmarkSummary {
            completed: 0,
            failed: 0,
            total_nanos: 0,
            fastest_nanos: None,
            slowest_nanos: None,
        }
    );
    assert_eq!(summary.mean_nanos(), None);
    assert_eq!(elapsed_of(&Vec::new()), Vec::<u64>::new());
}

#[test]
fn summary_counts_every_trial() {
    let outcomes = vec![
        completed(300),
        Err(TrialError::BarrierStall),
        completed(100),
        completed(201),
        Err(TrialError::PoisonedLock),
    ];
    let summary = summarize(&outcomes);
    assert_eq!(summary.completed, 3);
    assert_eq!(summary.failed, 2);
    assert_eq!(summary.total_nanos, 601);
    assert_eq!(summary.fastest_nanos, Some(100));
    assert_eq!(summary.slowest_nanos, Some(300));
    assert_eq!(summary.mean_nanos(), Some(200));
    assert_eq!(elapsed_of(&outcomes), vec![300, 100, 201]);
}

#[test]
fn summary_of_failures_only() {
    let outcomes = vec![
        Err(TrialError::BarrierStall),
        Err(TrialError::BitReinterpretationMismatch),
    ];
    let summary = summarize(&outcomes);
    assert_eq!(summary.completed, 0);
    assert_eq!(summary.failed, 2);
    assert_eq!(summary.total_nanos, 0);
    assert_eq!(summary.fastest_nanos, None);
    assert_eq!(summary.slowest_nanos, None);
    assert_eq!(summary.mean_nanos(), None);
    assert_eq!(elapsed_of(&outcomes), Vec::<u64>::new());
}

#[test]
fn summary_total_does_not_overflow() {
    let outcomes = vec![completed(u64::MAX), completed(u64::MAX), completed(1)];
    let summary = summarize(&outcomes);
    assert_eq!(summary.total_nanos, 2 * (u64::MAX as u128) + 1);
    assert_eq!(summary.fastest_nanos, Some(1));
    assert_eq!(summary.slowest_nanos, Some(u64::MAX));
    assert_eq!(summary.mean_nanos(), Some((2 * (u64::MAX as u128) + 1) / 3));
}

#[test]
fn summary_total_grows_with_each_repetition() {
    let mut outcomes = Vec::new();
    let mut last_total = 0;
    for elapsed in [5u64, 0, 17, 3] {
        outcomes.push(completed(elapsed));
        let summary = summarize(&outcomes);
        assert_eq!(summary.total_nanos, last_total + elapsed as u128);
        last_total = summary.total_nanos;
        outcomes.push(Err(TrialError::BarrierStall));
        assert_eq!(summarize(&outcomes).total_nanos, last_total);
    }
}
