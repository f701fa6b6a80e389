use crate::error::{CdnError, CdnErrorKind, CdnResult};
use std::sync::{Condvar, Mutex, MutexGuard, TryLockError};
use vstd::prelude::*;

verus! {

/// `std::sync::Mutex`; what it guards is not shown to Verus.
#[verifier::external_type_specification]
#[verifier::external_body]
#[verifier::reject_recursive_types(T)]
pub struct ExMutex<T: ?Sized>(Mutex<T>);

/// `std::sync::MutexGuard`, the proof that a lock is held.
#[verifier::external_type_specification]
#[verifier::external_body]
#[verifier::reject_recursive_types(T)]
pub struct ExMutexGuard<'a, T: ?Sized + 'a>(MutexGuard<'a, T>);

/// `std::sync::Condvar`.
#[verifier::external_type_specification]
#[verifier::external_body]
pub struct ExCondvar(Condvar);

/// `Mutex::new`: a lock around `value`, not held by anybody.
pub assume_specification<T>[ Mutex::<T>::new ](value: T) -> (mutex: Mutex<T>);

/// `Condvar::new`: a condition variable on which nobody waits.
pub assume_specification[ Condvar::new ]() -> (cvar: Condvar);

/// How an attempt to take a lock without waiting came out.
#[verifier::reject_recursive_types(T)]
pub enum Attempt<'a, T> {
    /// The lock was free and is now held.
    Held(MutexGuard<'a, T>),
    /// Somebody else holds the lock.
    Busy,
    /// An earlier holder of the lock failed while it held it.
    Poisoned,
}

/// `Mutex::lock`: blocks until the lock is free and takes it. The lock is handed
/// over also where a panic has poisoned it, together with the word that it is
/// poisoned. A thread that asks for a lock which it holds itself never gets it and
/// may panic; the callers in this library hold each lock for the length of one call
/// only.
#[verifier::external_body]
pub(crate) fn lock<T>(mutex: &Mutex<T>) -> (taken: (MutexGuard<'_, T>, bool)) {
    match mutex.lock() {
        Ok(guard) => (guard, false),
        Err(poisoned) => (poisoned.into_inner(), true),
    }
}

/// What to make of a lock as `lock` has handed it over: the lock itself where it is
/// sound, and the failure of a poisoned lock where it is poisoned; the lock is then
/// given up.
pub fn unpoisoned<'a, T>(taken: (MutexGuard<'a, T>, bool)) -> (r: CdnResult<MutexGuard<'a, T>>)
    ensures
        r is Ok <==> !taken.1,
        r is Ok ==> r->Ok_0 == taken.0,
        r is Err ==> *r->Err_0.0 is PoisonError,
{
    let (guard, poisoned) = taken;
    if poisoned {
        Err(CdnError::from(CdnErrorKind::PoisonError))
    } else {
        Ok(guard)
    }
}

/// `Mutex::try_lock`: takes the lock if it is free and returns at once if it is not.
/// Which of the three comes out depends on what other threads do.
#[verifier::external_body]
pub(crate) fn try_lock<T>(mutex: &Mutex<T>) -> (attempt: Attempt<'_, T>) {
    match mutex.try_lock() {
        Ok(guard) => Attempt::Held(guard),
        Err(TryLockError::WouldBlock) => Attempt::Busy,
        Err(TryLockError::Poisoned(_)) => Attempt::Poisoned,
    }
}

/// Dereferencing a `MutexGuard`: the value that the lock guards, to be read and
/// changed while the lock is held. What other holders have left there is not known.
/// It does not panic.
#[verifier::external_body]
pub(crate) fn guarded<'a, T>(guard: &'a mut MutexGuard<'_, T>) -> (value: &'a mut T)
    opens_invariants none
    no_unwind
{
    &mut **guard
}

/// `Condvar::notify_all`: wakes every thread that waits on the condition variable.
/// It does not panic.
#[verifier::external_body]
pub(crate) fn wake_all(cvar: &Condvar)
    opens_invariants none
    no_unwind
{
    cvar.notify_all();
}

} // verus!
