//! The standard library's locking primitives, as far as this crate uses them.
//!
//! Nothing here is proved: each item states what the standard library's
//! documentation says of the function it names, and the rest of the crate is
//! verified against these statements.

use std::sync::Arc;
use std::sync::Condvar;
use std::sync::Mutex;
use std::sync::MutexGuard;
use vstd::prelude::*;

verus! {

/// `std::sync::Mutex`, opaque to the verifier.
#[verifier::external_type_specification]
#[verifier::external_body]
#[verifier::reject_recursive_types(T)]
pub struct ExMutex<T: ?Sized>(Mutex<T>);

/// `std::sync::MutexGuard`, opaque to the verifier.
#[verifier::external_type_specification]
#[verifier::external_body]
#[verifier::reject_recursive_types(T)]
pub struct ExMutexGuard<'a, T: ?Sized + 'a>(MutexGuard<'a, T>);

/// `std::sync::Condvar`, opaque to the verifier.
#[verifier::external_type_specification]
#[verifier::external_body]
pub struct ExCondvar(Condvar);

/// `Mutex::new`: a mutex that holds `value`. Nothing is claimed of the result.
pub assume_specification<T>[ Mutex::<T>::new ](value: T) -> (mutex: Mutex<T>)
;

/// `Condvar::new`: a condition variable nobody waits on yet. Nothing is
/// claimed of the result.
pub assume_specification[ Condvar::new ]() -> (condvar: Condvar)
;

/// `Condvar::notify_one`: wakes at most one thread blocked on `condvar`.
/// It returns nothing and nothing is claimed of it.
pub assume_specification[ Condvar::notify_one ](condvar: &Condvar)
;

/// `Arc::clone`: another handle to the same allocation, so the value behind
/// the copy is the value behind `handle`.
#[verifier::external_body]
pub(crate) fn share<T>(handle: &Arc<T>) -> (copy: Arc<T>)
    ensures
        copy == *handle,
{
    Arc::clone(handle)
}

/// `Mutex::lock`: blocks until the mutex is held and returns its guard. A
/// poisoned mutex is entered all the same, by `PoisonError::into_inner`.
/// Other threads may have written the protected value, so nothing is claimed
/// of what the guard holds. The standard library leaves open what happens
/// when a thread locks a mutex that it holds; no function of this crate
/// does.
#[verifier::external_body]
pub(crate) fn lock<'a, T>(mutex: &'a Mutex<T>) -> (guard: MutexGuard<'a, T>)
{
    match mutex.lock() {
        Ok(guard) => guard,
        Err(poisoned) => poisoned.into_inner(),
    }
}

/// `DerefMut::deref_mut` on a guard: exclusive access to the protected value
/// for as long as the guard is borrowed. Nothing is claimed of the value.
#[verifier::external_body]
pub(crate) fn protected<'a, 'b, T>(guard: &'b mut MutexGuard<'a, T>) -> (value: &'b mut T)
{
    &mut **guard
}

} // verus!
