//! The three ways in which a worker adds its partial sum to the shared
//! total: under a lock, under a lock after a barrier, and by compare and
//! exchange on the total's bit pattern.

use vstd::prelude::*;
use std::sync::Arc;
use std::sync::Barrier;
use std::sync::Mutex;
use std::sync::MutexGuard;
use std::sync::atomic::AtomicU64;
use std::sync::atomic::Ordering;
use crate::partial_sum::add_partial_sum;
use crate::partial_sum::sum_with_partial;

verus! {

/// `std::sync::Mutex`, carried through as an opaque value.
#[verifier::external_type_specification]
#[verifier::external_body]
#[verifier::reject_recursive_types(T)]
pub struct ExMutex<T: ?Sized>(Mutex<T>);

/// `std::sync::MutexGuard`, carried through as an opaque value.
#[verifier::external_type_specification]
#[verifier::external_body]
#[verifier::reject_recursive_types(T)]
pub struct ExMutexGuard<'a, T: ?Sized + 'a>(MutexGuard<'a, T>);

/// `std::sync::Barrier`, carried through as an opaque value.
#[verifier::external_type_specification]
#[verifier::external_body]
pub struct ExBarrier(Barrier);

/// `Mutex::new`: a lock around the value, free and not poisoned.
pub assume_specification<T>[ std::sync::Mutex::<T>::new ](t: T) -> std::sync::Mutex<T>;

/// `Barrier::new`: a barrier that lets threads pass `n` at a time.
pub assume_specification[ std::sync::Barrier::new ](n: usize) -> std::sync::Barrier;

/// Why a trial is given up.
#[derive(Clone, Copy, Debug, PartialEq, Eq, Structural)]
pub enum TrialError {
    /// A worker failed while it held the lock: the total is in doubt.
    PoisonedLock,
    /// Fewer workers than the barrier waits for ever reached it.
    BarrierStall,
    /// A pattern did not come back unchanged from being read as a number.
    BitReinterpretationMismatch,
}

/// What one contribution did to the total: the pattern it found and the
/// pattern it left.
#[derive(Clone, Copy, Debug, PartialEq, Eq, Structural)]
pub struct Contribution {
    pub before: u64,
    pub after: u64,
}

/// `Arc::clone`: one more pointer to the same value.
#[verifier::external_body]
pub(crate) fn another<T>(shared: &Arc<T>) -> (r: Arc<T>)
    ensures
        r == *shared,
{
    Arc::clone(shared)
}

/// `Mutex::lock`: waits for the lock and returns its guard. A poisoned lock
/// is reported, not entered. The calling thread must not hold the lock
/// already.
#[verifier::external_body]
fn lock_total<'a>(total: &'a Mutex<u64>) -> (r: Result<MutexGuard<'a, u64>, TrialError>)
    ensures
        r is Err ==> r->Err_0 == TrialError::PoisonedLock,
{
    match total.lock() {
        Ok(guard) => Ok(guard),
        Err(_) => Err(TrialError::PoisonedLock),
    }
}

/// `DerefMut::deref_mut` of a guard: the total that the lock protects, for as
/// long as the guard is borrowed.
#[verifier::external_body]
fn guarded_total<'a, 'b>(guard: &'a mut MutexGuard<'b, u64>) -> (total: &'a mut u64) {
    &mut **guard
}

/// `Barrier::wait`: returns once as many threads wait as the barrier was made
/// for, and not before.
#[verifier::external_body]
fn wait_for_all(barrier: &Barrier) {
    barrier.wait();
}

/// `AtomicU64::fetch_update`, sequentially consistent in both orderings, with
/// `propose` as the function: reads the cell, and stores what `propose`
/// returns for the pattern read if no other thread has changed the cell in
/// between, else starts again; returns the pattern that was replaced.
#[verifier::external_body]
fn exchange_with_sum(cell: &AtomicU64) -> (before: u64) {
    match cell.fetch_update(Ordering::SeqCst, Ordering::SeqCst, |seen| propose(seen)) {
        Ok(before) => before,
        Err(before) => before,
    }
}

/// What a worker wants to store in place of the pattern it has seen.
fn propose(seen: u64) -> (next: Option<u64>)
    ensures
        next == Some(sum_with_partial(seen)),
{
    Some(add_partial_sum(seen))
}

/// The critical section: adds the partial sum to a total that the caller has
/// to itself.
pub fn contribute(total: &mut u64) -> (done: Contribution)
    ensures
        *final(total) == sum_with_partial(*old(total)),
        done.before == *old(total),
        done.after == *final(total),
{
    let before: u64 = *total;
    let after: u64 = add_partial_sum(before);
    *total = after;
    Contribution { before, after }
}

/// Adds the partial sum to the total under its lock. A poisoned lock ends
/// the contribution with `PoisonedLock` and leaves the total as it was.
pub fn add_using_mutex(sum_result: Arc<Mutex<u64>>) -> (r: Result<Contribution, TrialError>)
    ensures
        match r {
            Ok(done) => done.after == sum_with_partial(done.before),
            Err(e) => e == TrialError::PoisonedLock,
        },
{
    let mut guard = lock_total(&sum_result)?;
    let done = contribute(guarded_total(&mut guard));
    Ok(done)
}

/// Reads the total under its lock.
pub fn read_locked_total(sum_result: &Mutex<u64>) -> (r: Result<u64, TrialError>)
    ensures
        r matches Err(e) ==> e == TrialError::PoisonedLock,
{
    let mut guard = lock_total(sum_result)?;
    let total = guarded_total(&mut guard);
    Ok(*total)
}

/// Waits at the barrier until every worker of the trial has arrived, then
/// adds the partial sum to the total under its lock.
pub fn add_using_barrier_and_mutex(sum_result: Arc<Mutex<u64>>, barrier: Arc<Barrier>) -> (r:
    Result<Contribution, TrialError>)
    ensures
        match r {
            Ok(done) => done.after == sum_with_partial(done.before),
            Err(e) => e == TrialError::PoisonedLock,
        },
{
    wait_for_all(&barrier);
    add_using_mutex(sum_result)
}

/// Adds the partial sum to the total without a lock: the cell holds the
/// total's bit pattern, and the sum replaces the pattern it was computed
/// from in one atomic exchange, tried again for as long as other workers get
/// in between.
pub fn add_using_cas(sum: Arc<AtomicU64>) -> (done: Contribution)
    ensures
        done.after == sum_with_partial(done.before),
{
    let before: u64 = exchange_with_sum(&sum);
    let after: u64 = add_partial_sum(before);
    Contribution { before, after }
}

} // verus!
