//! The executor's parking place: a flag under a mutex, and a condition
//! variable on which the executor sleeps while the flag is down.
//!
//! A wake raises the flag under the lock and a park takes it down under the
//! same lock, so a wake that comes before the park is found by it and a wake
//! that comes during it ends it.

use crate::sync::lock;
use crate::sync::protected;
use std::sync::Condvar;
use std::sync::Mutex;
use std::sync::MutexGuard;
use std::time::Duration;
use vstd::prelude::*;

verus! {

/// The flag after a wake: up, whatever it was.
pub open spec fn after_wake(raised: bool) -> bool {
    true
}

/// The flag after the executor resumed: down, whatever it was.
pub open spec fn after_resume(raised: bool) -> bool {
    false
}

/// A second wake in a row changes nothing: the flag is as the first left it.
pub proof fn lemma_wake_is_idempotent(raised: bool)
    ensures
        after_wake(after_wake(raised)) == after_wake(raised),
{
}

/// A wake is kept until the executor resumes: the flag is up after it, so
/// that a park which begins later ends at once, and resuming uses it up.
pub proof fn lemma_wake_is_kept(raised: bool)
    ensures
        after_wake(raised),
        !after_resume(after_wake(raised)),
{
}

/// The flag: raised by a wake, taken down by the executor when it resumes.
pub struct Signal {
    raised: bool,
}

impl View for Signal {
    type V = bool;

    closed spec fn view(&self) -> bool {
        self.raised
    }
}

impl Signal {
    /// A flag that is down.
    pub fn new() -> (signal: Self)
        ensures
            !signal@,
    {
        Signal { raised: false }
    }

    /// Raises the flag, whether or not it was up.
    pub fn raise(&mut self)
        ensures
            final(self)@ == after_wake(old(self)@),
    {
        self.raised = true;
    }

    /// Takes the flag down and says whether it was up.
    pub fn take(&mut self) -> (was_raised: bool)
        ensures
            was_raised == old(self)@,
            final(self)@ == after_resume(old(self)@),
    {
        let was_raised = self.raised;
        self.raised = false;
        was_raised
    }

    /// Whether the flag is down, so that a parked executor stays parked.
    pub fn is_idle(&self) -> (idle: bool)
        ensures
            idle == !self@,
    {
        !self.raised
    }
}

/// `Condvar::wait_timeout_while` with "the flag is down" as the condition:
/// gives the lock up and blocks until the flag is found raised after a
/// notification, or until `limit_ms` milliseconds have passed, then returns
/// with the lock held again. A poisoned mutex is entered all the same.
/// Whether the time ran out is not reported, and nothing is claimed of the
/// flag. The standard library may panic where one condition variable is
/// used with several mutexes; a notifier pairs its own two.
#[verifier::external_body]
fn wait_while_idle<'a>(
    parked: &Condvar,
    guard: MutexGuard<'a, Signal>,
    limit_ms: u64,
) -> (held: MutexGuard<'a, Signal>)
{
    let limit = Duration::from_millis(limit_ms);
    match parked.wait_timeout_while(guard, limit, |signal| signal.is_idle()) {
        Ok((held, _)) => held,
        Err(poisoned) => poisoned.into_inner().0,
    }
}

/// A flag and the condition variable that announces its raising.
pub struct Notifier {
    signal: Mutex<Signal>,
    parked: Condvar,
}

impl Notifier {
    /// A notifier whose flag is down.
    pub fn new() -> (notifier: Self) {
        Notifier { signal: Mutex::new(Signal::new()), parked: Condvar::new() }
    }

    /// Raises the flag under the lock and wakes the parked thread, if any.
    pub fn notify(&self) {
        let mut guard = lock(&self.signal);
        protected(&mut guard).raise();
        self.parked.notify_one();
    }

    /// Blocks until the flag is up, for `limit_ms` milliseconds at most,
    /// then takes the flag down. Says whether the flag was up, that is
    /// whether a wake, and not the limit, ended the park.
    pub fn park(&self, limit_ms: u64) -> (woken: bool) {
        let guard = lock(&self.signal);
        let mut held = wait_while_idle(&self.parked, guard, limit_ms);
        protected(&mut held).take()
    }
}

} // verus!
