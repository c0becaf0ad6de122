use rs_lockfree::spin_rwlock::{AtomicInfo, RLockGuard, SpinRWLock, WLockGuard, MAX_REF_CNT};

#[test]
fn test_rwlock() {
    let mut lock = SpinRWLock::default();
    assert_eq!(lock.atomic_info().r_ref_cnt(), 0);
    assert!(lock.try_rlock());
    assert_eq!(lock.atomic_info().r_ref_cnt(), 1);
    lock.rlock();
    assert_eq!(lock.atomic_info().r_ref_cnt(), 2);
    assert!(!lock.try_lock());
    assert!(!lock.try_lock());
    assert_eq!(lock.atomic_info().r_ref_cnt(), 2);
    lock.unrlock();
    lock.unrlock();
    assert_eq!(lock.atomic_info().r_ref_cnt(), 0);
    lock.lock(0);
    assert!(!lock.try_lock());
    assert!(!lock.try_rlock());
    assert_eq!(lock.atomic_info().w_pending(), 0);
    assert_eq!(lock.atomic_info().w_lock_flag(), 1);
    lock.unlock();
    assert_eq!(lock.atomic_info().w_lock_flag(), 0);
    assert_eq!(lock.atomic_info().r_ref_cnt(), 0);
}

#[test]
fn lock_word_layout() {
    let info = AtomicInfo::new(0xc000_0000_0000_0005);
    assert_eq!(info.v(), 0xc000_0000_0000_0005);
    assert_eq!(*info.v_ref(), 0xc000_0000_0000_0005);
    assert_eq!(info.r_ref_cnt(), 5);
    assert_eq!(info.w_pending(), 1);
    assert_eq!(info.w_lock_flag(), 1);
    let info = AtomicInfo::new(0x4000_0000_0000_0000);
    assert_eq!(info.r_ref_cnt(), 0);
    assert_eq!(info.w_pending(), 1);
    assert_eq!(info.w_lock_flag(), 0);
    let info = AtomicInfo::new(0x3fff_ffff_ffff_ffff);
    assert_eq!(info.r_ref_cnt(), 0x3fff_ffff_ffff_ffff);
    assert_eq!(info.w_pending(), 0);
    assert_eq!(info.w_lock_flag(), 0);
    assert_eq!(AtomicInfo::default().v(), 0);
}

#[test]
fn lock_word_setters() {
    let mut info = AtomicInfo::new(0);
    info.set_r_ref_cnt(7);
    assert_eq!(info.v(), 7);
    info.set_w_pending(1);
    assert_eq!(info.v(), 0x4000_0000_0000_0007);
    info.set_w_lock_flag(1);
    assert_eq!(info.v(), 0xc000_0000_0000_0007);
    info.set_w_pending(2);
    assert_eq!(info.v(), 0x8000_0000_0000_0007);
    info.set_w_lock_flag(0);
    assert_eq!(info.v(), 7);
    info.set_r_ref_cnt(0xffff_ffff_ffff_ffff);
    assert_eq!(info.v(), 0x3fff_ffff_ffff_ffff);
    *info.v_mut() = 9;
    assert_eq!(info.v(), 9);
}

#[test]
fn reader_count_arithmetic() {
    let mut info = AtomicInfo::new(0x8000_0000_0000_0003);
    info.add_r_ref_cnt(4);
    assert_eq!(info.v(), 0x8000_0000_0000_0007);
    info.sub_r_ref_cnt(7);
    assert_eq!(info.v(), 0x8000_0000_0000_0000);
    info.sub_r_ref_cnt(1);
    assert_eq!(info.r_ref_cnt(), 0x3fff_ffff_ffff_ffff);
    assert_eq!(info.w_lock_flag(), 1);
    info.add_r_ref_cnt(1);
    assert_eq!(info.v(), 0x8000_0000_0000_0000);
    info.add_r_ref_cnt(0xffff_ffff_ffff_ffff);
    assert_eq!(info.r_ref_cnt(), 0x3fff_ffff_ffff_ffff);
}

#[test]
fn waiting_writer_keeps_readers_out() {
    let mut lock = SpinRWLock::default();
    lock.rlock();
    assert!(!lock.lock_round(3));
    assert_eq!(lock.atomic_info().w_pending(), 1);
    assert_eq!(lock.atomic_info().r_ref_cnt(), 1);
    assert_eq!(lock.atomic_info().w_lock_flag(), 0);
    assert!(!lock.try_rlock());
    assert_eq!(lock.atomic_info().r_ref_cnt(), 1);
    lock.unrlock();
    assert_eq!(lock.atomic_info().r_ref_cnt(), 0);
    assert_eq!(lock.atomic_info().w_pending(), 1);
    assert!(lock.lock_round(3));
    assert_eq!(lock.atomic_info().v(), 0x8000_0000_0000_0000);
    assert!(!lock.lock_round(4));
    assert_eq!(lock.atomic_info().v(), 0xc000_0000_0000_0000);
    lock.unlock();
    assert_eq!(lock.atomic_info().v(), 0x4000_0000_0000_0000);
    assert!(lock.try_lock());
    assert_eq!(lock.atomic_info().v(), 0x8000_0000_0000_0000);
}

#[test]
fn reader_limit() {
    let mut lock = SpinRWLock::default();
    let mut taken: u64 = 0;
    while lock.try_rlock() {
        taken += 1;
    }
    assert_eq!(taken, MAX_REF_CNT);
    assert_eq!(lock.atomic_info().r_ref_cnt(), 0x00ff_ffff);
    assert!(!lock.try_rlock());
    lock.unrlock();
    assert!(lock.try_rlock());
}

#[test]
fn guards_give_the_lock_back() {
    let mut lock = SpinRWLock::default();
    {
        let mut guard = lock.rlock_guard();
        assert!(guard.lock.is_some());
        guard.destroy();
        assert!(guard.lock.is_none());
        guard.destroy();
    }
    assert_eq!(lock.atomic_info().v(), 0);
    {
        let mut guard = lock.wlock_guard(9);
        guard.destroy();
        assert!(guard.lock.is_none());
    }
    assert_eq!(lock.atomic_info().v(), 0);
    let mut r = RLockGuard::default();
    r.destroy();
    assert!(r.lock.is_none());
    let mut w = WLockGuard::default();
    w.destroy();
    assert!(w.lock.is_none());
    assert!(RLockGuard::new(None).lock.is_none());
    assert!(WLockGuard::new(None).lock.is_none());
}
