//! The flag behind a spin lock.
use vstd::prelude::*;

verus! {

/// Whether a thread that tries a lock gets in, by whether the lock is held.
pub open spec fn admits(locked: bool) -> bool {
    !locked
}

/// Whether the lock is held after a thread has tried it.
pub open spec fn locked_after_try(locked: bool) -> bool {
    true
}

/// Whether the lock is held after a thread has released it.
pub open spec fn locked_after_unlock(locked: bool) -> bool {
    false
}

/// A spin lock's flag, set while some thread is inside the section it guards.
pub struct SpinLock {
    locked: bool,
}

impl SpinLock {
    /// Whether the lock is held.
    pub closed spec fn locked(self) -> bool {
        self.locked
    }

    /// A free lock.
    pub fn new() -> (lock: Self)
        ensures
            !lock.locked(),
    {
        SpinLock { locked: false }
    }

    /// One turn of the spin: takes the lock if it is free, and says whether it did. A caller
    /// that gets `false` yields and tries again.
    pub fn try_lock(&mut self) -> (acquired: bool)
        ensures
            acquired == admits(old(self).locked()),
            final(self).locked() == locked_after_try(old(self).locked()),
    {
        if !self.locked {
            self.locked = true;
            true
        } else {
            false
        }
    }

    /// Releases the lock.
    pub fn unlock(&mut self)
        ensures
            final(self).locked() == locked_after_unlock(old(self).locked()),
    {
        self.locked = false;
    }

    /// Whether the lock is held.
    pub fn is_locked(&self) -> (locked: bool)
        ensures
            locked == self.locked(),
    {
        self.locked
    }
}

} // verus!
