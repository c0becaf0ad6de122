use rs_lockfree::spin_lock::{SpinLock, SpinLockGuard};

#[test]
fn test_spin_lock() {
    let mut lock = SpinLock::default();
    lock.lock();
    assert!(lock.is_locked());
    lock.unlock();
    assert!(!lock.is_locked());

    {
        let mut lock_guard = lock.lock_guard();
        assert!(lock_guard.is_locked());
        lock_guard.destroy();
    }
    assert!(!lock.is_locked());
}

#[test]
fn try_lock_takes_a_free_lock_only() {
    let mut lock = SpinLock::default();
    assert!(!lock.is_locked());
    assert!(lock.try_lock());
    assert!(lock.is_locked());
    assert!(!lock.try_lock());
    assert!(lock.is_locked());
    lock.unlock();
    assert!(lock.try_lock());
}

#[test]
fn guard_that_holds_nothing() {
    let mut guard = SpinLockGuard::default();
    assert!(!guard.is_locked());
    guard.destroy();
    assert!(!guard.is_locked());
    let mut none = SpinLockGuard::new(None);
    none.destroy();
    assert!(none.spin_lock.is_none());
}

#[test]
fn guard_lets_go_once() {
    let mut lock = SpinLock::default();
    {
        let mut guard = lock.lock_guard();
        guard.destroy();
        assert!(guard.spin_lock.is_none());
        guard.destroy();
    }
    assert!(!lock.is_locked());
    lock.lock();
    assert!(lock.is_locked());
}
