//! The elapsed times of a benchmark's trials, and what they add up to.

use vstd::prelude::*;
use crate::accumulate::TrialError;
use crate::trial::TrialReport;

verus! {

/// The elapsed times of repeated trials in short. Failed trials are counted
/// and take no part in the times.
#[derive(Clone, Copy, Debug, PartialEq, Eq, Structural)]
pub struct BenchmarkSummary {
    /// How many trials completed.
    pub completed: usize,
    /// How many trials failed.
    pub failed: usize,
    /// The elapsed times of the completed trials, added up.
    pub total_nanos: u128,
    /// The shortest elapsed time of a completed trial.
    pub fastest_nanos: Option<u64>,
    /// The longest elapsed time of a completed trial.
    pub slowest_nanos: Option<u64>,
}

/// The elapsed times of the completed trials, in the order of the trials.
pub open spec fn elapsed_times(outcomes: Seq<Result<TrialReport, TrialError>>) -> Seq<u64>
    decreases outcomes.len(),
{
    if outcomes.len() == 0 {
        Seq::empty()
    } else {
        let earlier = elapsed_times(outcomes.drop_last());
        match outcomes.last() {
            Ok(report) => earlier.push(report.elapsed_nanos),
            Err(_) => earlier,
        }
    }
}

/// The sum of the times.
pub open spec fn total_of(times: Seq<u64>) -> nat
    decreases times.len(),
{
    if times.len() == 0 {
        0
    } else {
        total_of(times.drop_last()) + times.last() as nat
    }
}

/// `least` is the smallest of the times, or nothing where there are none.
pub open spec fn is_least(times: Seq<u64>, least: Option<u64>) -> bool {
    match least {
        None => times.len() == 0,
        Some(t) => times.contains(t) && forall|i: int| 0 <= i < times.len() ==> t <= times[i],
    }
}

/// `greatest` is the largest of the times, or nothing where there are none.
pub open spec fn is_greatest(times: Seq<u64>, greatest: Option<u64>) -> bool {
    match greatest {
        None => times.len() == 0,
        Some(t) => times.contains(t) && forall|i: int| 0 <= i < times.len() ==> times[i] <= t,
    }
}

/// The summary says of the outcomes what its fields stand for.
pub open spec fn summarizes(
    summary: BenchmarkSummary,
    outcomes: Seq<Result<TrialReport, TrialError>>,
) -> bool {
    let times = elapsed_times(outcomes);
    &&& summary.completed == times.len()
    &&& summary.completed + summary.failed == outcomes.len()
    &&& summary.total_nanos == total_of(times)
    &&& is_least(times, summary.fastest_nanos)
    &&& is_greatest(times, summary.slowest_nanos)
}

/// One more trial adds its elapsed time to the total if it completed, and
/// leaves the times alone if it failed: the total never shrinks as the
/// repetitions go on.
pub proof fn lemma_total_grows_with_repetitions(
    outcomes: Seq<Result<TrialReport, TrialError>>,
    next: Result<TrialReport, TrialError>,
)
    ensures
        elapsed_times(outcomes.push(next)) == match next {
            Ok(report) => elapsed_times(outcomes).push(report.elapsed_nanos),
            Err(_) => elapsed_times(outcomes),
        },
        total_of(elapsed_times(outcomes.push(next))) == total_of(elapsed_times(outcomes)) + match next {
            Ok(report) => report.elapsed_nanos as nat,
            Err(_) => 0,
        },
        total_of(elapsed_times(outcomes.push(next))) >= total_of(elapsed_times(outcomes)),
        elapsed_times(outcomes).len() <= outcomes.len(),
    decreases outcomes.len(),
{
    assert(outcomes.push(next).drop_last() =~= outcomes);
    if let Ok(report) = next {
        assert(elapsed_times(outcomes).push(report.elapsed_nanos).drop_last() =~= elapsed_times(
            outcomes,
        ));
    }
    if outcomes.len() > 0 {
        lemma_total_grows_with_repetitions(outcomes.drop_last(), outcomes.last());
        assert(outcomes.drop_last().push(outcomes.last()) =~= outcomes);
    }
}

/// The total lies between the count times the least and the count times
/// the greatest of the times: so does the mean between the two.
pub proof fn lemma_total_between(times: Seq<u64>, least: u64, greatest: u64)
    requires
        forall|i: int| 0 <= i < times.len() ==> least <= #[trigger] times[i] <= greatest,
    ensures
        times.len() * least <= total_of(times) <= times.len() * greatest,
    decreases times.len(),
{
    if times.len() > 0 {
        let earlier = times.drop_last();
        lemma_total_between(earlier, least, greatest);
        assert(times.len() * least == earlier.len() * least + least) by (nonlinear_arith)
            requires
                times.len() == earlier.len() + 1,
        ;
        assert(times.len() * greatest == earlier.len() * greatest + greatest) by (nonlinear_arith)
            requires
                times.len() == earlier.len() + 1,
        ;
    }
}

/// Where a trial completed, the mean elapsed time lies between the shortest
/// and the longest.
pub proof fn lemma_mean_between(
    summary: BenchmarkSummary,
    outcomes: Seq<Result<TrialReport, TrialError>>,
)
    requires
        summarizes(summary, outcomes),
        summary.completed > 0,
    ensures
        summary.fastest_nanos is Some,
        summary.slowest_nanos is Some,
        summary.fastest_nanos->Some_0 <= summary.total_nanos / (summary.completed as u128)
            <= summary.slowest_nanos->Some_0,
{
    let times = elapsed_times(outcomes);
    let least = summary.fastest_nanos->Some_0;
    let greatest = summary.slowest_nanos->Some_0;
    let count = summary.completed as int;
    let total = summary.total_nanos as int;
    lemma_total_between(times, least, greatest);
    assert(least <= total / count <= greatest) by (nonlinear_arith)
        requires
            count > 0,
            count * least <= total <= count * greatest,
    ;
}

/// The elapsed times of the completed trials, in the order of the trials.
pub fn elapsed_of(outcomes: &Vec<Result<TrialReport, TrialError>>) -> (times: Vec<u64>)
    ensures
        times@ == elapsed_times(outcomes@),
{
    let mut times: Vec<u64> = Vec::new();
    let mut at: usize = 0;
    assert(outcomes@.take(0) =~= Seq::empty());
    while at < outcomes.len()
        invariant
            at <= outcomes.len(),
            times@ == elapsed_times(outcomes@.take(at as int)),
        decreases outcomes.len() - at,
    {
        proof {
            assert(outcomes@.take(at + 1) =~= outcomes@.take(at as int).push(outcomes[at as int]));
            lemma_total_grows_with_repetitions(outcomes@.take(at as int), outcomes[at as int]);
        }
        match &outcomes[at] {
            Ok(report) => {
                times.push(report.elapsed_nanos);
            },
            Err(_) => {},
        }
        at = at + 1;
    }
    assert(outcomes@.take(at as int) =~= outcomes@);
    times
}

/// Sums up the outcomes of repeated trials. No trial is left out: each
/// counts as completed or as failed, and each completed one's elapsed time
/// is in the total.
pub fn summarize(outcomes: &Vec<Result<TrialReport, TrialError>>) -> (summary: BenchmarkSummary)
    ensures
        summarizes(summary, outcomes@),
{
    let mut completed: usize = 0;
    let mut failed: usize = 0;
    let mut total_nanos: u128 = 0;
    let mut fastest_nanos: Option<u64> = None;
    let mut slowest_nanos: Option<u64> = None;
    let mut at: usize = 0;
    assert(outcomes@.take(0) =~= Seq::empty());
    while at < outcomes.len()
        invariant
            at <= outcomes.len(),
            completed + failed == at,
            completed == elapsed_times(outcomes@.take(at as int)).len(),
            total_nanos == total_of(elapsed_times(outcomes@.take(at as int))),
            total_nanos <= completed * u64::MAX,
            is_least(elapsed_times(outcomes@.take(at as int)), fastest_nanos),
            is_greatest(elapsed_times(outcomes@.take(at as int)), slowest_nanos),
        decreases outcomes.len() - at,
    {
        let ghost before = elapsed_times(outcomes@.take(at as int));
        proof {
            assert(outcomes@.take(at + 1) =~= outcomes@.take(at as int).push(outcomes[at as int]));
            lemma_total_grows_with_repetitions(outcomes@.take(at as int), outcomes[at as int]);
        }
        match &outcomes[at] {
            Ok(report) => {
                let elapsed: u64 = report.elapsed_nanos;
                let ghost after = before.push(elapsed);
                proof {
                    assert((completed + 1) * u64::MAX == completed * u64::MAX + u64::MAX)
                        by (nonlinear_arith);
                    assert(completed * u64::MAX <= usize::MAX * u64::MAX) by (nonlinear_arith)
                        requires
                            completed <= usize::MAX,
                    ;
                    assert(after[before.len() as int] == elapsed);
                    assert(forall|i: int| 0 <= i < before.len() ==> after[i] == before[i]);
                }
                completed = completed + 1;
                total_nanos = total_nanos + elapsed as u128;
                fastest_nanos = match fastest_nanos {
                    Some(t) if t <= elapsed => {
                        proof {
                            let i = choose|i: int| 0 <= i < before.len() && before[i] == t;
                            assert(after[i] == t);
                        }
                        Some(t)
                    },
                    _ => Some(elapsed),
                };
                slowest_nanos = match slowest_nanos {
                    Some(t) if t >= elapsed => {
                        proof {
                            let i = choose|i: int| 0 <= i < before.len() && before[i] == t;
                            assert(after[i] == t);
                        }
                        Some(t)
                    },
                    _ => Some(elapsed),
                };
            },
            Err(_) => {
                failed = failed + 1;
            },
        }
        at = at + 1;
    }
    assert(outcomes@.take(at as int) =~= outcomes@);
    BenchmarkSummary { completed, failed, total_nanos, fastest_nanos, slowest_nanos }
}

impl BenchmarkSummary {
    /// The mean elapsed time of the completed trials, rounded down; nothing
    /// where no trial completed.
    pub fn mean_nanos(&self) -> (mean: Option<u128>)
        ensures
            mean == if self.completed == 0 {
                None
            } else {
                Some(self.total_nanos / (self.completed as u128))
            },
    {
        if self.completed == 0 {
            None
        } else {
            Some(self.total_nanos / (self.completed as u128))
        }
    }
}

} // verus!
