//! The spin lock protecting shared kernel state.  In this single-CPU
//! model, holding the lock is exclusive access: acquiring it yields the
//! protected value through the exclusive reference, which is what the
//! atomic acquire/release pair establishes on the hardware.  Lock scope
//! must stay minimal: a lock is never held across a context switch.

use vstd::prelude::*;

verus! {

/// A value guarded by a spin lock.
pub struct SpinLock<T> {
    value: T,
}

impl<T> SpinLock<T> {
    pub closed spec fn inner(&self) -> T {
        self.value
    }

    pub fn new(value: T) -> (r: Self)
        ensures
            r.inner() == value,
    {
        SpinLock { value }
    }

    /// Acquire the lock, spinning until the value is exclusively ours.
    pub fn lock(&mut self) -> (r: &mut T)
        ensures
            *r == old(self).inner(),
            final(self).inner() == *final(r),
    {
        &mut self.value
    }

    /// Give the protected value back up.
    pub fn into_inner(self) -> (r: T)
        ensures
            r == self.inner(),
    {
        self.value
    }

    /// Acquire the lock as a guard value.
    pub fn lock_guard(&mut self) -> (r: SpinGuard<T>)
        ensures
            *r.value == old(self).inner(),
    {
        SpinGuard { value: &mut self.value }
    }
}

/// Exclusive access to the value behind an acquired lock; dropping it is
/// the release.
pub struct SpinGuard<'a, T> {
    pub value: &'a mut T,
}

} // verus!
