//! A test-and-set lock and its guard.
use vstd::prelude::*;

verus! {

/// A lock that is either free or held. The type is used through `&mut`, so
/// nobody else can free a lock that is held: `lock` is for the free lock only,
/// and `try_lock` is the operation that may be tried on either.
pub struct SpinLock {
    atomic: i8,
}

impl SpinLock {
    /// Whether the lock is held.
    pub closed spec fn locked(&self) -> bool {
        self.atomic != 0
    }

    /// The flag is 0 or 1.
    pub closed spec fn wf(&self) -> bool {
        self.atomic == 0 || self.atomic == 1
    }

    /// Takes the free lock.
    pub fn lock(&mut self)
        requires
            old(self).wf(),
            !old(self).locked(),
        ensures
            final(self).wf(),
            final(self).locked(),
    {
        let taken = self.try_lock();
        assert(taken);
    }

    /// Takes the free lock and returns the guard that holds it.
    #[inline]
    pub fn lock_guard(&mut self) -> (guard: SpinLockGuard<'_>)
        requires
            old(self).wf(),
            !old(self).locked(),
        ensures
            guard.spin_lock is Some,
            guard.spin_lock->0.wf(),
            guard.spin_lock->0.locked(),
            *final(self) == *final(guard.spin_lock->0),
    {
        self.lock();
        SpinLockGuard::new(Some(self))
    }

    /// Frees the lock that is held.
    #[inline]
    pub fn unlock(&mut self)
        requires
            old(self).wf(),
            old(self).locked(),
        ensures
            final(self).wf(),
            !final(self).locked(),
    {
        let freed = self.inner_unlock();
        assert(freed);
    }

    /// Sets the flag from 1 to 0. Returns whether it was 1.
    #[inline]
    fn inner_unlock(&mut self) -> (done: bool)
        ensures
            done == (old(self).atomic == 1),
            final(self).atomic == if done {
                0i8
            } else {
                old(self).atomic
            },
    {
        if self.atomic == 1 {
            self.atomic = 0;
            true
        } else {
            false
        }
    }

    /// Sets the flag from 0 to 1. Returns whether it was 0.
    #[inline]
    fn inner_lock(&mut self) -> (done: bool)
        ensures
            done == (old(self).atomic == 0),
            final(self).atomic == if done {
                1i8
            } else {
                old(self).atomic
            },
    {
        if self.atomic == 0 {
            self.atomic = 1;
            true
        } else {
            false
        }
    }

    /// Whether the lock is held.
    #[inline]
    pub fn is_locked(&self) -> (locked: bool)
        ensures
            locked == self.locked(),
    {
        0 != self.atomic
    }

    /// Takes the lock if it is free. Returns whether it did.
    #[inline]
    pub fn try_lock(&mut self) -> (taken: bool)
        requires
            old(self).wf(),
        ensures
            taken == !old(self).locked(),
            final(self).wf(),
            final(self).locked(),
    {
        !self.is_locked() && self.inner_lock()
    }
}

impl Default for SpinLock {
    /// A free lock.
    fn default() -> (lock: Self)
        ensures
            lock.wf(),
            !lock.locked(),
    {
        SpinLock { atomic: 0 }
    }
}

/// Holds a lock that was taken, until `destroy` frees it.
pub struct SpinLockGuard<'a> {
    pub spin_lock: Option<&'a mut SpinLock>,
}

impl<'a> SpinLockGuard<'a> {
    /// A guard for `spin_lock`; with `None`, a guard that holds nothing.
    #[inline]
    pub fn new(spin_lock: Option<&'a mut SpinLock>) -> (guard: Self)
        ensures
            guard.spin_lock == spin_lock,
    {
        SpinLockGuard { spin_lock }
    }

    /// Whether the guard holds a lock that is held.
    #[inline]
    pub fn is_locked(&self) -> (locked: bool)
        ensures
            locked == (self.spin_lock is Some && self.spin_lock->0.locked()),
    {
        match &self.spin_lock {
            Some(lock) => lock.is_locked(),
            None => false,
        }
    }

    /// Frees the lock and lets go of it. A guard that holds nothing is left
    /// as it is.
    #[inline]
    pub fn destroy(&mut self)
        requires
            old(self).spin_lock is Some ==> old(self).spin_lock->0.wf(),
            old(self).spin_lock is Some ==> old(self).spin_lock->0.locked(),
        ensures
            final(self).spin_lock is None,
            old(self).spin_lock is Some ==> final(old(self).spin_lock->0).wf(),
            old(self).spin_lock is Some ==> !final(old(self).spin_lock->0).locked(),
    {
        match self.spin_lock.take() {
            Some(lock) => {
                lock.unlock();
            },
            None => {},
        }
    }
}

impl<'a> Default for SpinLockGuard<'a> {
    /// A guard that holds nothing.
    fn default() -> (guard: Self)
        ensures
            guard.spin_lock is None,
    {
        SpinLockGuard { spin_lock: None }
    }
}

} // verus!
