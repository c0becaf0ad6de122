//! A reader-writer lock on one 64-bit word.
use vstd::prelude::*;

verus! {

/// The most readers that may hold the lock at once.
pub const MAX_REF_CNT: u64 = 0x00ff_ffff;

/// The word that holds a reader count, the flag of a waiting writer and the
/// flag of a writer that holds the lock.
pub open spec fn info_word(r_ref_cnt: u64, w_pending: u64, w_lock_flag: u64) -> u64 {
    (r_ref_cnt + w_pending * 0x4000_0000_0000_0000 + w_lock_flag * 0x8000_0000_0000_0000) as u64
}

/// The lock word: the number of readers in the low 62 bits, then one bit
/// that says that a writer waits, then one bit that says that a writer holds
/// the lock.
#[derive(PartialEq, Eq, Structural, Copy, Clone, Debug)]
pub struct AtomicInfo {
    pub data: u64,
}

impl AtomicInfo {
    /// The number of readers.
    pub open spec fn spec_r_ref_cnt(self) -> u64 {
        self.data % 0x4000_0000_0000_0000
    }

    /// 1 if a writer waits, else 0.
    pub open spec fn spec_w_pending(self) -> u64 {
        (self.data / 0x4000_0000_0000_0000) % 2
    }

    /// 1 if a writer holds the lock, else 0.
    pub open spec fn spec_w_lock_flag(self) -> u64 {
        self.data / 0x8000_0000_0000_0000
    }

    /// The word.
    #[inline]
    pub fn v(&self) -> (v: u64)
        ensures
            v == self.data,
    {
        self.data
    }

    /// The word, to be written.
    #[inline]
    pub fn v_mut(&mut self) -> (v: &mut u64)
        ensures
            *v == old(self).data,
            final(self).data == *final(v),
    {
        &mut self.data
    }

    /// The word, to be read.
    #[inline]
    pub fn v_ref(&self) -> (v: &u64)
        ensures
            *v == self.data,
    {
        &self.data
    }

    /// The number of readers.
    #[inline]
    pub fn r_ref_cnt(&self) -> (cnt: u64)
        ensures
            cnt == self.spec_r_ref_cnt(),
    {
        let data: u64 = self.data;
        assert((data & 0x3fff_ffff_ffff_ffffu64) == data % 0x4000_0000_0000_0000u64)
            by (bit_vector);
        data & 0x3fff_ffff_ffff_ffffu64
    }

    /// 1 if a writer waits, else 0.
    #[inline]
    pub fn w_pending(&self) -> (flag: u64)
        ensures
            flag == self.spec_w_pending(),
    {
        let data: u64 = self.data;
        assert(((data & 0x4000_0000_0000_0000u64) >> 62u64) == (data / 0x4000_0000_0000_0000u64)
            % 2u64) by (bit_vector);
        (data & 0x4000_0000_0000_0000u64) >> 62u64
    }

    /// 1 if a writer holds the lock, else 0.
    #[inline]
    pub fn w_lock_flag(&self) -> (flag: u64)
        ensures
            flag == self.spec_w_lock_flag(),
    {
        let data: u64 = self.data;
        assert(((data & 0x8000_0000_0000_0000u64) >> 63u64) == data / 0x8000_0000_0000_0000u64)
            by (bit_vector);
        (data & 0x8000_0000_0000_0000u64) >> 63u64
    }

    /// Sets the number of readers to the low 62 bits of `r_ref_cnt` and keeps
    /// the two flags.
    #[inline]
    pub fn set_r_ref_cnt(&mut self, r_ref_cnt: u64)
        ensures
            final(self).data == info_word(
                r_ref_cnt % 0x4000_0000_0000_0000,
                old(self).spec_w_pending(),
                old(self).spec_w_lock_flag(),
            ),
    {
        let data: u64 = self.data;
        assert(((data & 0xc000_0000_0000_0000u64) | (r_ref_cnt & 0x3fff_ffff_ffff_ffffu64)) == (
        r_ref_cnt % 0x4000_0000_0000_0000u64) + ((data / 0x4000_0000_0000_0000u64) % 2u64)
            * 0x4000_0000_0000_0000u64 + (data / 0x8000_0000_0000_0000u64)
            * 0x8000_0000_0000_0000u64) by (bit_vector);
        self.data = (data & 0xc000_0000_0000_0000u64) | (r_ref_cnt & 0x3fff_ffff_ffff_ffffu64);
    }

    /// Adds `cnt` to the number of readers, modulo 2^62.
    #[inline]
    pub fn add_r_ref_cnt(&mut self, cnt: u64)
        ensures
            final(self).data == info_word(
                ((old(self).spec_r_ref_cnt() + cnt) % 0x4000_0000_0000_0000) as u64,
                old(self).spec_w_pending(),
                old(self).spec_w_lock_flag(),
            ),
    {
        let before: u64 = self.r_ref_cnt();
        let cnt_sum: u64 = before.wrapping_add(cnt);
        assert(cnt_sum % 0x4000_0000_0000_0000u64 == (before + cnt) % 0x4000_0000_0000_0000) by {
            if before + cnt > u64::MAX {
                assert(cnt_sum == before + cnt - 0x1_0000_0000_0000_0000);
            }
        }
        self.set_r_ref_cnt(cnt_sum);
    }

    /// Takes `cnt` from the number of readers, modulo 2^62.
    #[inline]
    pub fn sub_r_ref_cnt(&mut self, cnt: u64)
        ensures
            final(self).data == info_word(
                ((old(self).spec_r_ref_cnt() - cnt) % 0x4000_0000_0000_0000) as u64,
                old(self).spec_w_pending(),
                old(self).spec_w_lock_flag(),
            ),
    {
        let before: u64 = self.r_ref_cnt();
        let cnt_diff: u64 = before.wrapping_sub(cnt);
        assert(cnt_diff % 0x4000_0000_0000_0000u64 == (before - cnt) % 0x4000_0000_0000_0000) by {
            if before - cnt < 0 {
                assert(cnt_diff == before - cnt + 0x1_0000_0000_0000_0000);
            }
        }
        self.set_r_ref_cnt(cnt_diff);
    }

    /// Sets the flag of a waiting writer to the lowest bit of `w_pending`
    /// and keeps the rest.
    #[inline]
    pub fn set_w_pending(&mut self, w_pending: u64)
        ensures
            final(self).data == info_word(
                old(self).spec_r_ref_cnt(),
                w_pending % 2,
                old(self).spec_w_lock_flag(),
            ),
    {
        let data: u64 = self.data;
        assert(((data & 0xbfff_ffff_ffff_ffffu64) | ((w_pending & 0x1u64) << 62u64)) == (data
            % 0x4000_0000_0000_0000u64) + (w_pending % 2u64) * 0x4000_0000_0000_0000u64 + (data
            / 0x8000_0000_0000_0000u64) * 0x8000_0000_0000_0000u64) by (bit_vector);
        self.data = (data & 0xbfff_ffff_ffff_ffffu64) | ((w_pending & 0x1u64) << 62u64);
    }

    /// Sets the flag of a writer that holds the lock to the lowest bit of
    /// `w_lock_flag` and keeps the rest.
    #[inline]
    pub fn set_w_lock_flag(&mut self, w_lock_flag: u64)
        ensures
            final(self).data == info_word(
                old(self).spec_r_ref_cnt(),
                old(self).spec_w_pending(),
                w_lock_flag % 2,
            ),
    {
        let data: u64 = self.data;
        assert(((data & 0x7fff_ffff_ffff_ffffu64) | ((w_lock_flag & 0x1u64) << 63u64)) == (data
            % 0x4000_0000_0000_0000u64) + ((data / 0x4000_0000_0000_0000u64) % 2u64)
            * 0x4000_0000_0000_0000u64 + (w_lock_flag % 2u64) * 0x8000_0000_0000_0000u64)
            by (bit_vector);
        self.data = (data & 0x7fff_ffff_ffff_ffffu64) | ((w_lock_flag & 0x1u64) << 63u64);
    }

    /// The lock word `v`.
    pub fn new(v: u64) -> (info: Self)
        ensures
            info.data == v,
    {
        AtomicInfo { data: v }
    }
}

impl Default for AtomicInfo {
    fn default() -> (info: Self)
        ensures
            info.data == 0,
    {
        AtomicInfo::new(0)
    }
}

/// A lock word is put together from its three parts, and each part is read
/// back from the word unchanged.
pub proof fn lemma_info_word_parts(r_ref_cnt: u64, w_pending: u64, w_lock_flag: u64)
    requires
        r_ref_cnt < 0x4000_0000_0000_0000,
        w_pending <= 1,
        w_lock_flag <= 1,
    ensures
        info_word(r_ref_cnt, w_pending, w_lock_flag) == r_ref_cnt + w_pending
            * 0x4000_0000_0000_0000 + w_lock_flag * 0x8000_0000_0000_0000,
        (AtomicInfo { data: info_word(r_ref_cnt, w_pending, w_lock_flag) }).spec_r_ref_cnt()
            == r_ref_cnt,
        (AtomicInfo { data: info_word(r_ref_cnt, w_pending, w_lock_flag) }).spec_w_pending()
            == w_pending,
        (AtomicInfo { data: info_word(r_ref_cnt, w_pending, w_lock_flag) }).spec_w_lock_flag()
            == w_lock_flag,
{
}

/// What a lock word's parts can be.
pub proof fn lemma_info_parts_range(info: AtomicInfo)
    ensures
        info.spec_r_ref_cnt() < 0x4000_0000_0000_0000,
        info.spec_w_pending() <= 1,
        info.spec_w_lock_flag() <= 1,
        info.data == info_word(
            info.spec_r_ref_cnt(),
            info.spec_w_pending(),
            info.spec_w_lock_flag(),
        ),
{
}

/// A lock for many readers or one writer. The type is used through `&mut`,
/// so nobody else can free a lock that is held: `rlock` and `lock` are for a
/// lock that can be taken, and `try_rlock` and `try_lock` are the operations
/// that may be tried on any.
pub struct SpinRWLock {
    atomic_info: AtomicInfo,
    w_owner: i64,
}

impl SpinRWLock {
    /// The lock word.
    pub closed spec fn info(&self) -> AtomicInfo {
        self.atomic_info
    }

    /// The number given by the writer that took the lock last.
    pub closed spec fn owner(&self) -> i64 {
        self.w_owner
    }

    /// Whether a reader can take the lock: no writer holds it or waits for
    /// it, and there is room for one more reader.
    pub open spec fn can_rlock(&self) -> bool {
        self.info().spec_w_pending() == 0 && self.info().spec_w_lock_flag() == 0
            && self.info().spec_r_ref_cnt() < MAX_REF_CNT
    }

    /// Whether a writer can take the lock: nobody holds it.
    pub open spec fn can_lock(&self) -> bool {
        self.info().spec_w_lock_flag() == 0 && self.info().spec_r_ref_cnt() == 0
    }

    /// Whether a reader can give the lock back: readers hold it, and no
    /// writer does.
    pub open spec fn can_unrlock(&self) -> bool {
        self.info().spec_w_lock_flag() == 0 && 0 < self.info().spec_r_ref_cnt()
            <= MAX_REF_CNT
    }

    /// Whether a writer can give the lock back: a writer holds it, and no
    /// reader does.
    pub open spec fn can_unlock(&self) -> bool {
        self.info().spec_w_lock_flag() != 0 && self.info().spec_r_ref_cnt() == 0
    }

    /// The lock word.
    #[inline]
    pub fn atomic_info(&self) -> (info: AtomicInfo)
        ensures
            info == self.info(),
    {
        self.atomic_info
    }

    /// Replaces the lock word by `new_v` if it is `old_v`. Returns whether it
    /// was.
    #[inline]
    fn atomic_cxchg_atomic_v(&mut self, old_v: u64, new_v: u64) -> (done: bool)
        ensures
            done == (old(self).info().data == old_v),
            final(self).info().data == if done {
                new_v
            } else {
                old(self).info().data
            },
            final(self).owner() == old(self).owner(),
    {
        if self.atomic_info.v() == old_v {
            self.atomic_info = AtomicInfo::new(new_v);
            true
        } else {
            false
        }
    }

    /// Takes the lock for a reader if a reader can take it. Returns whether
    /// it did.
    #[inline]
    pub fn try_rlock(&mut self) -> (ret: bool)
        ensures
            ret == old(self).can_rlock(),
            final(self).owner() == old(self).owner(),
            final(self).info().data == if ret {
                info_word(
                    (old(self).info().spec_r_ref_cnt() + 1) as u64,
                    old(self).info().spec_w_pending(),
                    old(self).info().spec_w_lock_flag(),
                )
            } else {
                old(self).info().data
            },
    {
        let mut ret: bool = false;
        let old_v = self.atomic_info();
        let mut new_v = old_v;
        new_v.add_r_ref_cnt(1);
        if 0 == old_v.w_pending() && 0 == old_v.w_lock_flag() && MAX_REF_CNT > old_v.r_ref_cnt()
            && self.atomic_cxchg_atomic_v(old_v.v(), new_v.v()) {
            ret = true;
        }
        ret
    }

    /// Takes the lock for a reader.
    pub fn rlock(&mut self)
        requires
            old(self).can_rlock(),
        ensures
            final(self).owner() == old(self).owner(),
            final(self).info().data == info_word(
                (old(self).info().spec_r_ref_cnt() + 1) as u64,
                old(self).info().spec_w_pending(),
                old(self).info().spec_w_lock_flag(),
            ),
    {
        let taken = self.try_rlock();
        assert(taken);
    }

    /// Gives back the lock of one reader.
    pub fn unrlock(&mut self)
        requires
            old(self).can_unrlock(),
        ensures
            final(self).owner() == old(self).owner(),
            final(self).info().data == info_word(
                (old(self).info().spec_r_ref_cnt() - 1) as u64,
                old(self).info().spec_w_pending(),
                old(self).info().spec_w_lock_flag(),
            ),
    {
        let old_v = self.atomic_info();
        let mut new_v = old_v;
        new_v.sub_r_ref_cnt(1);
        let done = self.atomic_cxchg_atomic_v(old_v.v(), new_v.v());
        assert(done);
    }

    /// Takes the lock for a writer if nobody holds it. A writer that is
    /// marked as waiting is no longer. Returns whether the lock was taken.
    #[inline]
    pub fn try_lock(&mut self) -> (ret: bool)
        ensures
            ret == old(self).can_lock(),
            final(self).owner() == old(self).owner(),
            final(self).info().data == if ret {
                info_word(0, 0, 1)
            } else {
                old(self).info().data
            },
    {
        let mut ret: bool = false;
        let old_v = self.atomic_info();
        let mut new_v = old_v;
        new_v.set_w_pending(0);
        proof {
            lemma_info_parts_range(old_v);
            lemma_info_word_parts(old_v.spec_r_ref_cnt(), 0, old_v.spec_w_lock_flag());
        }
        new_v.set_w_lock_flag(1);
        if 0 == old_v.w_lock_flag() && 0 == old_v.r_ref_cnt() && self.atomic_cxchg_atomic_v(
            old_v.v(),
            new_v.v(),
        ) {
            ret = true;
        }
        ret
    }

    /// One round of a writer that wants the lock. If nobody holds the lock,
    /// the writer takes it and is noted as its owner. Otherwise the word is
    /// marked to say that a writer waits, which keeps new readers out.
    /// Returns whether the lock was taken.
    pub fn lock_round(&mut self, owner: i64) -> (ret: bool)
        ensures
            ret == old(self).can_lock(),
            final(self).owner() == if ret {
                owner
            } else {
                old(self).owner()
            },
            final(self).info().data == if ret {
                info_word(0, 0, 1)
            } else {
                info_word(
                    old(self).info().spec_r_ref_cnt(),
                    1,
                    old(self).info().spec_w_lock_flag(),
                )
            },
    {
        let old_v = self.atomic_info();
        let mut new_v = old_v;
        let mut pending: bool = false;
        proof {
            lemma_info_parts_range(old_v);
            lemma_info_word_parts(old_v.spec_r_ref_cnt(), 0, old_v.spec_w_lock_flag());
        }
        if 0 != old_v.w_lock_flag() || 0 != old_v.r_ref_cnt() {
            new_v.set_w_pending(1);
            pending = true;
        } else {
            new_v.set_w_pending(0);
            new_v.set_w_lock_flag(1);
        }
        let done = self.atomic_cxchg_atomic_v(old_v.v(), new_v.v());
        assert(done);
        if !pending {
            self.w_owner = owner;
            true
        } else {
            false
        }
    }

    /// Takes the lock for the writer `owner`.
    pub fn lock(&mut self, owner: i64)
        requires
            old(self).can_lock(),
        ensures
            final(self).owner() == owner,
            final(self).info().data == info_word(0, 0, 1),
    {
        let taken = self.lock_round(owner);
        assert(taken);
    }

    /// Gives back the lock of the writer.
    pub fn unlock(&mut self)
        requires
            old(self).can_unlock(),
        ensures
            final(self).owner() == old(self).owner(),
            final(self).info().data == info_word(0, old(self).info().spec_w_pending(), 0),
    {
        let old_v = self.atomic_info();
        let mut new_v = old_v;
        new_v.set_w_lock_flag(0);
        let done = self.atomic_cxchg_atomic_v(old_v.v(), new_v.v());
        assert(done);
    }

    /// Takes the lock for a reader and returns the guard that holds it.
    pub fn rlock_guard(&mut self) -> (guard: RLockGuard<'_>)
        requires
            old(self).can_rlock(),
        ensures
            guard.lock is Some,
            guard.lock->0.can_unrlock(),
            guard.lock->0.owner() == old(self).owner(),
            guard.lock->0.info().data == info_word(
                (old(self).info().spec_r_ref_cnt() + 1) as u64,
                old(self).info().spec_w_pending(),
                old(self).info().spec_w_lock_flag(),
            ),
            *final(self) == *final(guard.lock->0),
    {
        self.rlock();
        proof {
            lemma_info_parts_range(old(self).info());
            lemma_info_word_parts(
                (old(self).info().spec_r_ref_cnt() + 1) as u64,
                old(self).info().spec_w_pending(),
                old(self).info().spec_w_lock_flag(),
            );
        }
        RLockGuard::new(Some(self))
    }

    /// Takes the lock for the writer `owner` and returns the guard that
    /// holds it.
    pub fn wlock_guard(&mut self, owner: i64) -> (guard: WLockGuard<'_>)
        requires
            old(self).can_lock(),
        ensures
            guard.lock is Some,
            guard.lock->0.can_unlock(),
            guard.lock->0.owner() == owner,
            guard.lock->0.info().data == info_word(0, 0, 1),
            *final(self) == *final(guard.lock->0),
    {
        self.lock(owner);
        proof {
            lemma_info_word_parts(0, 0, 1);
        }
        WLockGuard::new(Some(self))
    }
}

impl Default for SpinRWLock {
    fn default() -> (lock: Self)
        ensures
            lock.info().data == 0,
            lock.owner() == 0,
    {
        SpinRWLock { atomic_info: AtomicInfo::new(0), w_owner: 0 }
    }
}

/// Holds the lock of a reader, until `destroy` gives it back.
pub struct RLockGuard<'a> {
    pub lock: Option<&'a mut SpinRWLock>,
}

impl<'a> RLockGuard<'a> {
    /// Gives the reader's lock back and lets go of it. A guard that holds
    /// nothing is left as it is.
    pub fn destroy(&mut self)
        requires
            old(self).lock is Some ==> old(self).lock->0.can_unrlock(),
        ensures
            final(self).lock is None,
            old(self).lock is Some ==> final(old(self).lock->0).owner() == old(
                self,
            ).lock->0.owner(),
            old(self).lock is Some ==> final(old(self).lock->0).info().data == info_word(
                (old(self).lock->0.info().spec_r_ref_cnt() - 1) as u64,
                old(self).lock->0.info().spec_w_pending(),
                old(self).lock->0.info().spec_w_lock_flag(),
            ),
    {
        match self.lock.take() {
            Some(lock) => {
                lock.unrlock();
            },
            None => {},
        }
    }

    /// A guard for `lock`; with `None`, a guard that holds nothing.
    pub fn new(lock: Option<&'a mut SpinRWLock>) -> (guard: Self)
        ensures
            guard.lock == lock,
    {
        RLockGuard { lock }
    }
}

/// Holds the lock of a writer, until `destroy` gives it back.
pub struct WLockGuard<'a> {
    pub lock: Option<&'a mut SpinRWLock>,
}

impl<'a> WLockGuard<'a> {
    /// Gives the writer's lock back and lets go of it. A guard that holds
    /// nothing is left as it is.
    pub fn destroy(&mut self)
        requires
            old(self).lock is Some ==> old(self).lock->0.can_unlock(),
        ensures
            final(self).lock is None,
            old(self).lock is Some ==> final(old(self).lock->0).owner() == old(
                self,
            ).lock->0.owner(),
            old(self).lock is Some ==> final(old(self).lock->0).info().data == info_word(
                0,
                old(self).lock->0.info().spec_w_pending(),
                0,
            ),
    {
        match self.lock.take() {
            Some(lock) => {
                lock.unlock();
            },
            None => {},
        }
    }

    /// A guard for `lock`; with `None`, a guard that holds nothing.
    pub fn new(lock: Option<&'a mut SpinRWLock>) -> (guard: Self)
        ensures
            guard.lock == lock,
    {
        WLockGuard { lock }
    }
}

impl<'a> Default for RLockGuard<'a> {
    /// A guard that holds nothing.
    fn default() -> (guard: Self)
        ensures
            guard.lock is None,
    {
        RLockGuard { lock: None }
    }
}

impl<'a> Default for WLockGuard<'a> {
    /// A guard that holds nothing.
    fn default() -> (guard: Self)
        ensures
            guard.lock is None,
    {
        WLockGuard { lock: None }
    }
}

} // verus!
