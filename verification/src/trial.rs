//! One trial: a fresh shared total, the workers' way to it, and the verdict
//! on what the driver saw.

use vstd::prelude::*;
use std::sync::Arc;
use std::sync::Barrier;
use std::sync::Mutex;
use std::sync::atomic::AtomicU64;
use std::sync::atomic::Ordering;
use crate::binary64::ZERO_BITS;
use crate::partial_sum::sum_with_partial;
use crate::accumulate::TrialError;
use crate::accumulate::Contribution;
use crate::accumulate::add_using_mutex;
use crate::accumulate::add_using_barrier_and_mutex;
use crate::accumulate::add_using_cas;
use crate::accumulate::read_locked_total;
use crate::accumulate::another;

verus! {

/// How the workers of a trial get at the shared total.
#[derive(Clone, Copy, Debug, PartialEq, Eq, Structural)]
pub enum Strategy {
    /// One lock; each worker adds under it.
    Exclusive,
    /// One lock, and a barrier before it at which all workers meet first.
    BarrierExclusive,
    /// No lock; each worker exchanges the total's bit pattern atomically.
    LockFree,
}

/// The total of one trial, shared by that trial's workers and by nothing
/// else.
pub enum SharedTotal {
    Exclusive(Arc<Mutex<u64>>),
    BarrierExclusive(Arc<Mutex<u64>>, Arc<Barrier>),
    LockFree(Arc<AtomicU64>),
}

impl SharedTotal {
    /// The strategy that this total is reached by.
    pub open spec fn strategy(&self) -> Strategy {
        match self {
            SharedTotal::Exclusive(_) => Strategy::Exclusive,
            SharedTotal::BarrierExclusive(_, _) => Strategy::BarrierExclusive,
            SharedTotal::LockFree(_) => Strategy::LockFree,
        }
    }

    /// A total of zero for a new trial, with a barrier for `worker_count`
    /// workers where the strategy has one.
    pub fn fresh(strategy: Strategy, worker_count: usize) -> (r: SharedTotal)
        ensures
            r.strategy() == strategy,
    {
        match strategy {
            Strategy::Exclusive => SharedTotal::Exclusive(Arc::new(Mutex::new(ZERO_BITS))),
            Strategy::BarrierExclusive => SharedTotal::BarrierExclusive(
                Arc::new(Mutex::new(ZERO_BITS)),
                Arc::new(Barrier::new(worker_count)),
            ),
            Strategy::LockFree => SharedTotal::LockFree(Arc::new(AtomicU64::new(ZERO_BITS))),
        }
    }

    /// Another handle to the same total, for one more worker.
    pub fn handle(&self) -> (r: SharedTotal)
        ensures
            r == *self,
    {
        match self {
            SharedTotal::Exclusive(total) => SharedTotal::Exclusive(another(total)),
            SharedTotal::BarrierExclusive(total, barrier) => SharedTotal::BarrierExclusive(
                another(total),
                another(barrier),
            ),
            SharedTotal::LockFree(cell) => SharedTotal::LockFree(another(cell)),
        }
    }

    /// One worker's contribution, made in the way of this total's strategy.
    /// Only a lock can fail it.
    pub fn contribute(self) -> (r: Result<Contribution, TrialError>)
        ensures
            match r {
                Ok(done) => done.after == sum_with_partial(done.before),
                Err(e) => e == TrialError::PoisonedLock && self.strategy() != Strategy::LockFree,
            },
    {
        match self {
            SharedTotal::Exclusive(total) => add_using_mutex(total),
            SharedTotal::BarrierExclusive(total, barrier) => add_using_barrier_and_mutex(
                total,
                barrier,
            ),
            SharedTotal::LockFree(cell) => Ok(add_using_cas(cell)),
        }
    }

    /// The total's bit pattern, for the driver to read once every worker has
    /// been joined. Only a lock can fail it.
    pub fn read(&self) -> (r: Result<u64, TrialError>)
        ensures
            r matches Err(e) ==> e == TrialError::PoisonedLock && self.strategy()
                != Strategy::LockFree,
    {
        match self {
            SharedTotal::Exclusive(total) => read_locked_total(total),
            SharedTotal::BarrierExclusive(total, _) => read_locked_total(total),
            SharedTotal::LockFree(cell) => Ok(cell.load(Ordering::SeqCst)),
        }
    }
}

/// What the driver holds once it has joined every worker of a trial.
pub struct Joined {
    /// What each worker's contribution returned, in the order of spawning.
    pub exits: Vec<Result<Contribution, TrialError>>,
    /// What reading the total returned.
    pub total: Result<u64, TrialError>,
    /// The total's pattern after the driver has read it as a number and
    /// taken that number's pattern again.
    pub reread: u64,
}

/// A completed trial: how long it took, and the total it ended with, as a
/// bit pattern.
#[derive(Clone, Copy, Debug, PartialEq, Eq, Structural)]
pub struct TrialReport {
    pub elapsed_nanos: u64,
    pub final_total: u64,
}

/// The first error among the workers' exits, if there is one.
pub open spec fn first_failure(exits: Seq<Result<Contribution, TrialError>>) -> Option<TrialError>
    decreases exits.len(),
{
    if exits.len() == 0 {
        None
    } else {
        match exits[0] {
            Err(e) => Some(e),
            Ok(_) => first_failure(exits.skip(1)),
        }
    }
}

/// The verdict on a trial of `worker_count` workers. A trial whose workers
/// were not all joined in time has stalled, and so has one that was joined
/// with another number of workers than it was to have: its total is
/// incomplete. Of a trial joined in full, the first worker that failed fails
/// the trial, then a total that could not be read, then a pattern that did
/// not survive being read as a number.
pub open spec fn verdict(worker_count: usize, joined: Option<Joined>, elapsed_nanos: u64) -> Result<
    TrialReport,
    TrialError,
> {
    match joined {
        None => Err(TrialError::BarrierStall),
        Some(seen) => if seen.exits@.len() != worker_count {
            Err(TrialError::BarrierStall)
        } else {
            match first_failure(seen.exits@) {
                Some(e) => Err(e),
                None => match seen.total {
                    Err(e) => Err(e),
                    Ok(bits) => if seen.reread != bits {
                        Err(TrialError::BitReinterpretationMismatch)
                    } else {
                        Ok(TrialReport { elapsed_nanos, final_total: bits })
                    },
                },
            }
        },
    }
}

/// The first error among the workers' exits, computed.
pub fn find_failure(exits: &Vec<Result<Contribution, TrialError>>) -> (r: Option<TrialError>)
    ensures
        r == first_failure(exits@),
        r is None <==> forall|i: int| 0 <= i < exits.len() ==> exits[i] is Ok,
{
    let mut at: usize = 0;
    assert(exits@.skip(0) =~= exits@);
    while at < exits.len()
        invariant
            at <= exits.len(),
            first_failure(exits@) == first_failure(exits@.skip(at as int)),
            forall|i: int| 0 <= i < at ==> exits[i] is Ok,
        decreases exits.len() - at,
    {
        let ghost rest = exits@.skip(at as int);
        assert(rest[0] == exits[at as int]);
        assert(rest.skip(1) =~= exits@.skip(at + 1));
        match &exits[at] {
            Err(e) => {
                return Some(*e);
            },
            Ok(_) => {},
        }
        at = at + 1;
    }
    assert(exits@.skip(at as int).len() == 0);
    None
}

/// Judges a trial of `worker_count` workers by what the driver saw of it:
/// `None` where the deadline for joining the workers passed, else what the
/// driver holds after the join.
pub fn judge_trial(worker_count: usize, joined: Option<Joined>, elapsed_nanos: u64) -> (r: Result<
    TrialReport,
    TrialError,
>)
    ensures
        r == verdict(worker_count, joined, elapsed_nanos),
{
    match joined {
        None => Err(TrialError::BarrierStall),
        Some(seen) => {
            if seen.exits.len() != worker_count {
                return Err(TrialError::BarrierStall);
            }
            match find_failure(&seen.exits) {
                Some(e) => Err(e),
                None => match seen.total {
                    Err(e) => Err(e),
                    Ok(bits) => if seen.reread != bits {
                        Err(TrialError::BitReinterpretationMismatch)
                    } else {
                        Ok(TrialReport { elapsed_nanos, final_total: bits })
                    },
                },
            }
        },
    }
}

} // verus!
