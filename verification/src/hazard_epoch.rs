//! The reclamation engine: a global version, one store per thread, and the
//! scans that destroy retired nodes once no acquired version can reach them.
use crate::error::Status;
use crate::hazard_pointer::{
    lemma_partition_len, lemma_partition_nodes, survivors, BaseHazardNode, ThreadStore,
    ThreadStoreView, VersionHandle, NO_VERSION,
};
use crate::spin_lock::SpinLock;
use crate::util::get_cur_microseconds_time;
use vstd::prelude::*;

verus! {

/// The number of thread stores. A thread's number must be below it. Nothing
/// in the proofs depends on the value, as long as a thread's number fits in
/// 16 bits.
pub const MAX_THREAD_COUNT: usize = 16;

struct VersionTimestamp {
    curr_min_version: u64,
    curr_min_version_timestamp: i64,
}

/// What the engine holds, as plain values.
pub struct HazardEpochView<T> {
    /// A store is scanned once more than this many nodes wait in it.
    pub thread_waiting_threshold: i64,
    /// For how many microseconds a computed minimum version is used again.
    pub min_version_cache_time_us: i64,
    /// The global version: the number of nodes retired so far.
    pub version: u64,
    /// The thread stores, by thread number.
    pub threads: Seq<ThreadStoreView<T>>,
    /// The numbers of the enabled stores, the one enabled last first.
    pub order: Seq<u16>,
    /// The minimum version computed last, or 0 if there is none.
    pub curr_min_version: u64,
    /// The time, in microseconds, at which it was computed.
    pub curr_min_version_timestamp: i64,
}

/// Whether `now` is the time that `clock` gives: a clock that gives none
/// leaves the time open.
pub open spec fn clock_gives(clock: Option<i64>, now: i64) -> bool {
    clock is Some ==> clock->0 == now
}

/// The number of nodes that wait in `threads`, all stores together.
pub open spec fn waiting_total<T>(threads: Seq<ThreadStoreView<T>>) -> nat
    decreases threads.len(),
{
    if threads.len() == 0 {
        0
    } else {
        waiting_total(threads.drop_last()) + threads.last().waiting.len()
    }
}

/// Replacing one store changes the total by the difference of the two
/// stores' numbers of waiting nodes.
pub proof fn lemma_waiting_total_update<T>(
    threads: Seq<ThreadStoreView<T>>,
    i: int,
    store: ThreadStoreView<T>,
)
    requires
        0 <= i < threads.len(),
    ensures
        waiting_total(threads.update(i, store)) == waiting_total(threads)
            - threads[i].waiting.len() + store.waiting.len(),
        threads[i].waiting.len() <= waiting_total(threads),
    decreases threads.len(),
{
    let updated = threads.update(i, store);
    if i == threads.len() - 1 {
        assert(updated.drop_last() =~= threads.drop_last());
    } else {
        assert(updated.drop_last() =~= threads.drop_last().update(i, store));
        lemma_waiting_total_update(threads.drop_last(), i, store);
    }
}

/// No node waits in stores that are all fresh.
pub proof fn lemma_waiting_total_fresh<T>(threads: Seq<ThreadStoreView<T>>)
    requires
        forall|i: int| 0 <= i < threads.len() ==> (#[trigger] threads[i]).waiting.len() == 0,
    ensures
        waiting_total(threads) == 0,
    decreases threads.len(),
{
    if threads.len() > 0 {
        lemma_waiting_total_fresh(threads.drop_last());
    }
}

/// A sequence of distinct numbers below `bound` has at most `bound` elements.
pub proof fn lemma_distinct_bounded(s: Seq<u16>, bound: int)
    requires
        0 <= bound,
        forall|k: int| 0 <= k < s.len() ==> (#[trigger] s[k]) < bound,
        forall|j: int, k: int| 0 <= j < k < s.len() ==> s[j] != s[k],
    ensures
        s.len() <= bound,
    decreases bound,
{
    if s.len() == 0 {
    } else if bound <= 0 {
        assert(s[0] < bound);
    } else {
        if exists|j: int| 0 <= j < s.len() && s[j] == bound - 1 {
            let j = choose|j: int| 0 <= j < s.len() && s[j] == bound - 1;
            let rest = s.remove(j);
            assert forall|k: int| 0 <= k < rest.len() implies (#[trigger] rest[k]) < bound - 1 by {
                if k < j {
                    assert(rest[k] == s[k]);
                    assert(s[k] != s[j]);
                } else {
                    assert(rest[k] == s[k + 1]);
                    assert(s[j] != s[k + 1]);
                }
            }
            assert forall|a: int, b: int| 0 <= a < b < rest.len() implies rest[a] != rest[b] by {
                let a2 = if a < j {
                    a
                } else {
                    a + 1
                };
                let b2 = if b < j {
                    b
                } else {
                    b + 1
                };
                assert(rest[a] == s[a2]);
                assert(rest[b] == s[b2]);
            }
            lemma_distinct_bounded(rest, bound - 1);
            assert(rest.len() == s.len() - 1);
        } else {
            assert forall|k: int| 0 <= k < s.len() implies (#[trigger] s[k]) < bound - 1 by {
                assert(s[k] < bound);
                assert(!(0 <= k < s.len() && s[k] == bound - 1));
            }
            lemma_distinct_bounded(s, bound - 1);
        }
    }
}

impl<T> HazardEpochView<T> {
    /// The engine as it is made: no store is enabled and nothing was retired.
    pub open spec fn initial(
        thread_waiting_threshold: i64,
        min_version_cache_time_us: i64,
    ) -> Self {
        HazardEpochView {
            thread_waiting_threshold,
            min_version_cache_time_us,
            version: 0,
            threads: Seq::new(MAX_THREAD_COUNT as nat, |i: int| ThreadStoreView::<T>::fresh()),
            order: Seq::empty(),
            curr_min_version: 0,
            curr_min_version_timestamp: 0,
        }
    }

    /// The number of the store enabled last.
    pub open spec fn head(self) -> Option<u16> {
        if self.order.len() == 0 {
            None
        } else {
            Some(self.order[0])
        }
    }

    /// The number of nodes that wait, all stores together.
    pub open spec fn pending(self) -> nat {
        waiting_total(self.threads)
    }

    /// The `k`-th enabled store is a store, is enabled, and points to the
    /// next one.
    pub open spec fn link_wf(self, k: int) -> bool {
        let i = self.order[k] as int;
        &&& i < MAX_THREAD_COUNT
        &&& self.threads[i].enabled
        &&& self.threads[i].next == if k + 1 < self.order.len() {
            Some(self.order[k + 1])
        } else {
            None
        }
    }

    /// What holds of the store `i`.
    pub open spec fn store_wf(self, i: int) -> bool {
        let store = self.threads[i];
        &&& store.enabled ==> store.tid == i && self.order.contains(i as u16)
        &&& !store.enabled ==> store == ThreadStoreView::<T>::fresh()
        &&& store.last_retire_version <= self.version
        &&& store.busy() ==> self.curr_min_version <= store.curr_version <= self.version
        &&& forall|j: int|
            0 <= j < store.waiting.len() ==> store.last_retire_version < (
            #[trigger] store.waiting[j]).version <= self.version
    }

    /// The invariant of the engine.
    ///
    /// The enabled stores form one list without repetition. A store that is
    /// not enabled has never been touched. The global version is never the
    /// version that stands for "none". A version that a thread has acquired is
    /// at most the global version and at least the minimum version computed
    /// last. A node that waits was retired at a version that is at most the
    /// global version and above the version of its store's last scan. No more
    /// nodes wait than were retired.
    pub open spec fn wf(self) -> bool {
        &&& self.threads.len() == MAX_THREAD_COUNT
        &&& self.order.len() <= MAX_THREAD_COUNT
        &&& forall|k: int| 0 <= k < self.order.len() ==> #[trigger] self.link_wf(k)
        &&& forall|j: int, k: int|
            0 <= j < k < self.order.len() ==> self.order[j] != self.order[k]
        &&& forall|i: int| 0 <= i < MAX_THREAD_COUNT ==> #[trigger] self.store_wf(i)
        &&& self.version < NO_VERSION
        &&& self.curr_min_version <= self.version
        &&& self.pending() <= self.version
        &&& self.pending() <= i64::MAX
    }

    /// The engine once the thread `tid` has its store: a store that was not
    /// enabled is enabled and put in front of the list.
    pub open spec fn registered(self, tid: u16) -> Self {
        if tid >= MAX_THREAD_COUNT || self.threads[tid as int].enabled {
            self
        } else {
            HazardEpochView {
                threads: self.threads.update(
                    tid as int,
                    ThreadStoreView {
                        enabled: true,
                        tid,
                        next: self.head(),
                        ..self.threads[tid as int]
                    },
                ),
                order: seq![tid] + self.order,
                ..self
            }
        }
    }

    /// Handing a thread its store keeps the invariant.
    pub proof fn lemma_registered_wf(self, tid: u16)
        requires
            self.wf(),
        ensures
            self.registered(tid).wf(),
            self.registered(tid).pending() == self.pending(),
            tid < MAX_THREAD_COUNT ==> self.registered(tid).threads[tid as int].enabled,
    {
        let after = self.registered(tid);
        if tid < MAX_THREAD_COUNT && !self.threads[tid as int].enabled {
            assert(self.store_wf(tid as int));
            assert forall|k: int| 0 <= k < self.order.len() implies self.order[k] != tid by {
                assert(self.link_wf(k));
            }
            assert forall|k: int| 0 <= k < after.order.len() implies #[trigger] after.link_wf(
                k,
            ) by {
                if k > 0 {
                    assert(self.link_wf(k - 1));
                    assert(after.order[k] == self.order[k - 1]);
                    if k + 1 < after.order.len() {
                        assert(after.order[k + 1] == self.order[k]);
                    }
                }
            }
            assert forall|j: int, k: int| 0 <= j < k < after.order.len() implies after.order[j]
                != after.order[k] by {
                assert(after.order[k] == self.order[k - 1]);
                if j > 0 {
                    assert(after.order[j] == self.order[j - 1]);
                }
            }
            assert forall|i: int| 0 <= i < MAX_THREAD_COUNT implies #[trigger] after.store_wf(
                i,
            ) by {
                assert(self.store_wf(i));
                if i == tid {
                    assert(after.order[0] == tid);
                } else if self.threads[i].enabled {
                    let k = choose|k: int| 0 <= k < self.order.len() && self.order[k] == i as u16;
                    assert(after.order[k + 1] == i as u16);
                }
            }
            assert forall|k: int| 0 <= k < after.order.len() implies (#[trigger] after.order[k])
                < MAX_THREAD_COUNT by {
                assert(after.link_wf(k));
            }
            lemma_distinct_bounded(after.order, MAX_THREAD_COUNT as int);
            lemma_waiting_total_update(self.threads, tid as int, after.threads[tid as int]);
        }
    }

    /// The least of the global version and the versions acquired in the
    /// first `k` enabled stores.
    pub open spec fn min_version_over(self, k: int) -> u64
        decreases k,
    {
        if k <= 0 {
            self.version
        } else {
            let rest = self.min_version_over(k - 1);
            let acquired = self.threads[self.order[k - 1] as int].curr_version;
            if acquired < rest {
                acquired
            } else {
                rest
            }
        }
    }

    /// The least of the global version and the versions that threads have
    /// acquired: what a scan of the stores finds.
    pub open spec fn scan_min_version(self) -> u64 {
        self.min_version_over(self.order.len() as int)
    }

    /// Whether the minimum version computed last may be used again at the
    /// time `now`: there is one, and it is younger than the cache time.
    pub open spec fn cache_valid(self, now: i64) -> bool {
        self.curr_min_version != 0 && self.curr_min_version_timestamp
            + self.min_version_cache_time_us > now
    }

    /// The minimum version that `get_min_version` returns at the time `now`.
    pub open spec fn min_version_at(self, force_flush: bool, now: i64) -> u64 {
        if !force_flush && self.cache_valid(now) {
            self.curr_min_version
        } else {
            self.scan_min_version()
        }
    }

    /// The engine after `get_min_version` at the time `now`: a version that
    /// was computed anew is kept with the time.
    pub open spec fn with_min_version(self, force_flush: bool, now: i64) -> Self {
        if !force_flush && self.cache_valid(now) {
            self
        } else {
            HazardEpochView {
                curr_min_version: self.scan_min_version(),
                curr_min_version_timestamp: now,
                ..self
            }
        }
    }

    /// What `min_version_over` is: a lower bound of the global version and of
    /// the versions acquired in the first `k` enabled stores, and one of them.
    pub proof fn lemma_min_version_over(self, k: int)
        requires
            self.wf(),
            0 <= k <= self.order.len(),
        ensures
            self.curr_min_version <= self.min_version_over(k) <= self.version,
            forall|j: int|
                0 <= j < k ==> self.min_version_over(k) <= (
                #[trigger] self.threads[self.order[j] as int]).curr_version,
            self.min_version_over(k) == self.version || exists|j: int|
                0 <= j < k && (#[trigger] self.threads[self.order[j] as int]).curr_version
                    == self.min_version_over(k),
        decreases k,
    {
        if k > 0 {
            self.lemma_min_version_over(k - 1);
            assert(self.link_wf(k - 1));
            let i = self.order[k - 1] as int;
            assert(self.store_wf(i));
            let rest = self.min_version_over(k - 1);
            let acquired = self.threads[i].curr_version;
            if acquired < rest {
                assert(self.threads[self.order[k - 1] as int].curr_version
                    == self.min_version_over(k));
            } else if rest != self.version {
                let j = choose|j: int|
                    0 <= j < k - 1 && (#[trigger] self.threads[self.order[j] as int]).curr_version
                        == rest;
                assert(self.threads[self.order[j] as int].curr_version == self.min_version_over(
                    k,
                ));
            }
        }
    }

    /// What a scan of the stores finds: a version that is at most the global
    /// version and at most every acquired version, that is one of them, and
    /// that is not below the one found last.
    pub proof fn lemma_scan_min_version(self)
        requires
            self.wf(),
        ensures
            self.curr_min_version <= self.scan_min_version() <= self.version,
            forall|i: int|
                0 <= i < MAX_THREAD_COUNT && (#[trigger] self.threads[i]).busy()
                    ==> self.scan_min_version() <= self.threads[i].curr_version,
            self.scan_min_version() == self.version || exists|i: int|
                0 <= i < MAX_THREAD_COUNT && (#[trigger] self.threads[i]).busy()
                    && self.threads[i].curr_version == self.scan_min_version(),
    {
        let n = self.order.len() as int;
        let m = self.scan_min_version();
        self.lemma_min_version_over(n);
        assert forall|i: int| 0 <= i < MAX_THREAD_COUNT && (#[trigger] self.threads[i]).busy()
            implies m <= self.threads[i].curr_version by {
            assert(self.store_wf(i));
            let k = choose|k: int| 0 <= k < self.order.len() && self.order[k] == i as u16;
            assert(m <= self.threads[self.order[k] as int].curr_version);
        }
        if m != self.version {
            let j = choose|j: int|
                0 <= j < n && (#[trigger] self.threads[self.order[j] as int]).curr_version == m;
            assert(self.link_wf(j));
            let i = self.order[j] as int;
            assert(self.store_wf(i));
            assert(self.threads[i].busy() && self.threads[i].curr_version == m);
        }
    }

    /// Computing the minimum version keeps the invariant, and the version
    /// returned is at most every acquired version.
    pub proof fn lemma_with_min_version_wf(self, force_flush: bool, now: i64)
        requires
            self.wf(),
        ensures
            self.with_min_version(force_flush, now).wf(),
            self.min_version_at(force_flush, now) == self.with_min_version(
                force_flush,
                now,
            ).curr_min_version || (!force_flush && self.cache_valid(now)),
            self.min_version_at(force_flush, now) <= self.version,
            forall|i: int|
                0 <= i < MAX_THREAD_COUNT && (#[trigger] self.threads[i]).busy()
                    ==> self.min_version_at(force_flush, now) <= self.threads[i].curr_version,
    {
        let after = self.with_min_version(force_flush, now);
        self.lemma_scan_min_version();
        assert forall|i: int| 0 <= i < MAX_THREAD_COUNT implies #[trigger] after.store_wf(i) by {
            assert(self.store_wf(i));
        }
        assert forall|k: int| 0 <= k < after.order.len() implies #[trigger] after.link_wf(k) by {
            assert(self.link_wf(k));
        }
        assert forall|i: int|
            0 <= i < MAX_THREAD_COUNT && (#[trigger] self.threads[i]).busy()
                implies self.min_version_at(force_flush, now) <= self.threads[i].curr_version by {
            assert(self.store_wf(i));
        }
    }

    /// The engine with the store `tid` replaced by `store`.
    pub open spec fn with_store(self, tid: u16, store: ThreadStoreView<T>) -> Self {
        HazardEpochView { threads: self.threads.update(tid as int, store), ..self }
    }

    /// What `acquire` answers to the thread `tid`.
    pub open spec fn acquire_status(self, tid: u16) -> Status {
        if tid >= MAX_THREAD_COUNT {
            Status::ThreadNumOverflow
        } else if self.threads[tid as int].busy() {
            Status::Busy
        } else {
            Status::Success
        }
    }

    /// The engine after `acquire` for the thread `tid`: the thread has its
    /// store, and unless it held a handle already, its store shows the
    /// global version.
    pub open spec fn acquired(self, tid: u16) -> Self {
        if tid >= MAX_THREAD_COUNT {
            self
        } else {
            let reg = self.registered(tid);
            reg.with_store(tid, reg.threads[tid as int].acquired(reg.version))
        }
    }

    /// The handle that `acquire` gives to the thread `tid`.
    pub open spec fn acquired_handle(self, tid: u16) -> u64 {
        self.registered(tid).threads[tid as int].handle().data
    }

    /// `acquire` keeps the invariant.
    pub proof fn lemma_acquired_wf(self, tid: u16)
        requires
            self.wf(),
        ensures
            self.acquired(tid).wf(),
            self.acquired(tid).pending() == self.pending(),
    {
        if tid < MAX_THREAD_COUNT {
            self.lemma_registered_wf(tid);
            let reg = self.registered(tid);
            let after = self.acquired(tid);
            assert forall|i: int| 0 <= i < MAX_THREAD_COUNT implies #[trigger] after.store_wf(
                i,
            ) by {
                assert(reg.store_wf(i));
            }
            assert forall|k: int| 0 <= k < after.order.len() implies #[trigger] after.link_wf(
                k,
            ) by {
                assert(reg.link_wf(k));
            }
            lemma_waiting_total_update(reg.threads, tid as int, after.threads[tid as int]);
        }
    }

    /// The engine after the store `tid` has been scanned at `version` with
    /// itself as the receiver: the nodes retired at or below `version` are
    /// gone from it, and the others wait on in their order.
    pub open spec fn scanned_local(self, tid: u16, version: u64) -> Self {
        let store = self.threads[tid as int];
        self.with_store(tid, store.scanned(version).with_nodes(store.scan_moved(version)))
    }

    /// The engine after the store `from` has been scanned at `version` with
    /// the store `to` as the receiver: no node waits in `from` any more, and
    /// those retired above `version` wait in `to`, behind the nodes it held.
    pub open spec fn donated(self, from: u16, to: u16, version: u64) -> Self {
        let giver = self.threads[from as int];
        let taker = self.threads[to as int];
        self.with_store(from, giver.scanned(version)).with_store(
            to,
            taker.with_nodes(giver.scan_moved(version)),
        )
    }

    /// The nodes that the first `k` enabled stores, the store `tid` left out,
    /// hand over when they are scanned at `version`, in the order of the
    /// stores.
    pub open spec fn donations(self, tid: u16, version: u64, k: int) -> Seq<BaseHazardNode<T>>
        decreases k,
    {
        if k <= 0 {
            Seq::empty()
        } else {
            let from = self.order[k - 1];
            let front = self.donations(tid, version, k - 1);
            if from == tid {
                front
            } else {
                front + self.threads[from as int].scan_moved(version)
            }
        }
    }

    /// The engine after the store `tid` and the first `k` enabled stores
    /// have been scanned at `version`, with the store `tid` as the receiver.
    pub open spec fn flushed_upto(self, tid: u16, version: u64, k: int) -> Self {
        let own = self.threads[tid as int];
        HazardEpochView {
            threads: Seq::new(
                MAX_THREAD_COUNT as nat,
                |i: int|
                    if i == tid {
                        own.scanned(version).with_nodes(own.scan_moved(version)).with_nodes(
                            self.donations(tid, version, k),
                        )
                    } else if exists|j: int| 0 <= j < k && self.order[j] == i {
                        self.threads[i].scanned(version)
                    } else {
                        self.threads[i]
                    },
            ),
            ..self
        }
    }

    /// The engine after every enabled store has been scanned at `version`,
    /// with the store `tid` as the receiver. No node retired at or below
    /// `version` waits any more; the others all wait in the store `tid`:
    /// first those that it held, then those of the other stores, in the
    /// order of the list of enabled stores.
    pub open spec fn flushed(self, tid: u16, version: u64) -> Self {
        let own = self.threads[tid as int];
        HazardEpochView {
            threads: Seq::new(
                MAX_THREAD_COUNT as nat,
                |i: int|
                    if i == tid {
                        own.scanned(version).with_nodes(own.scan_moved(version)).with_nodes(
                            self.donations(tid, version, self.order.len() as int),
                        )
                    } else if self.threads[i].enabled {
                        self.threads[i].scanned(version)
                    } else {
                        self.threads[i]
                    },
            ),
            ..self
        }
    }

    /// A scan of one store into itself keeps the invariant, and takes from
    /// the number of waiting nodes those that it destroys.
    pub proof fn lemma_scanned_local_wf(self, tid: u16, version: u64)
        requires
            self.wf(),
            tid < MAX_THREAD_COUNT,
            self.threads[tid as int].enabled,
            version <= self.version,
        ensures
            self.scanned_local(tid, version).wf(),
            self.scanned_local(tid, version).pending() == self.pending()
                - self.threads[tid as int].scan_reclaimed(version).len(),
            self.scanned_local(tid, version).threads[tid as int].last_retire_version == version,
    {
        let after = self.scanned_local(tid, version);
        let store = self.threads[tid as int];
        let kept = after.threads[tid as int];
        assert(self.store_wf(tid as int));
        lemma_partition_nodes(store.waiting, version);
        lemma_partition_len(store.waiting, version);
        if store.scans(version) {
            assert(kept.waiting =~= survivors(store.waiting, version));
        } else {
            assert(kept.waiting =~= store.waiting);
        }
        assert forall|i: int| 0 <= i < MAX_THREAD_COUNT implies #[trigger] after.store_wf(i) by {
            assert(self.store_wf(i));
            if i == tid {
                assert forall|j: int| 0 <= j < kept.waiting.len() implies kept.last_retire_version
                    < (#[trigger] kept.waiting[j]).version <= self.version by {
                    if store.scans(version) {
                        let node = survivors(store.waiting, version)[j];
                        assert(store.waiting.contains(node));
                        let k = choose|k: int|
                            0 <= k < store.waiting.len() && store.waiting[k] == node;
                        assert(store.waiting[k].version <= self.version);
                    }
                }
            }
        }
        assert forall|k: int| 0 <= k < after.order.len() implies #[trigger] after.link_wf(k) by {
            assert(self.link_wf(k));
        }
        lemma_waiting_total_update(self.threads, tid as int, kept);
    }

    /// A scan of one store into another keeps the invariant, if the receiver
    /// was scanned at the same version before, and takes from the number of
    /// waiting nodes those that it destroys.
    pub proof fn lemma_donated_wf(self, from: u16, to: u16, version: u64)
        requires
            self.wf(),
            from < MAX_THREAD_COUNT,
            to < MAX_THREAD_COUNT,
            from != to,
            self.threads[from as int].enabled,
            self.threads[to as int].enabled,
            version <= self.version,
            self.threads[to as int].last_retire_version == version,
        ensures
            self.donated(from, to, version).wf(),
            self.donated(from, to, version).pending() == self.pending()
                - self.threads[from as int].scan_reclaimed(version).len(),
    {
        let after = self.donated(from, to, version);
        let giver = self.threads[from as int];
        let taker = self.threads[to as int];
        let middle = self.with_store(from, giver.scanned(version));
        let moved = giver.scan_moved(version);
        assert(self.store_wf(from as int));
        assert(self.store_wf(to as int));
        lemma_partition_nodes(giver.waiting, version);
        lemma_partition_len(giver.waiting, version);
        assert forall|j: int| 0 <= j < moved.len() implies version < (#[trigger] moved[j]).version
            <= self.version by {
            let node = survivors(giver.waiting, version)[j];
            assert(giver.waiting.contains(node));
            let k = choose|k: int| 0 <= k < giver.waiting.len() && giver.waiting[k] == node;
            assert(giver.waiting[k].version <= self.version);
        }
        assert forall|i: int| 0 <= i < MAX_THREAD_COUNT implies #[trigger] after.store_wf(i) by {
            assert(self.store_wf(i));
            if i == to {
                let got = after.threads[i];
                assert forall|j: int| 0 <= j < got.waiting.len() implies got.last_retire_version
                    < (#[trigger] got.waiting[j]).version <= self.version by {
                    if j < taker.waiting.len() {
                        assert(got.waiting[j] == taker.waiting[j]);
                    } else {
                        assert(got.waiting[j] == moved[j - taker.waiting.len()]);
                    }
                }
            }
        }
        assert forall|k: int| 0 <= k < after.order.len() implies #[trigger] after.link_wf(k) by {
            assert(self.link_wf(k));
        }
        lemma_waiting_total_update(self.threads, from as int, giver.scanned(version));
        lemma_waiting_total_update(middle.threads, to as int, taker.with_nodes(moved));
    }

    /// The scan of all stores begins with the scan of the receiver into
    /// itself.
    pub proof fn lemma_flushed_upto_start(self, tid: u16, version: u64)
        requires
            self.wf(),
            tid < MAX_THREAD_COUNT,
        ensures
            self.flushed_upto(tid, version, 0) == self.scanned_local(tid, version),
    {
        let start = self.flushed_upto(tid, version, 0);
        let local = self.scanned_local(tid, version);
        assert(start.threads[tid as int].waiting =~= local.threads[tid as int].waiting);
        assert(start.threads =~= local.threads);
    }

    /// The scan of all stores goes on with the scan of the next enabled
    /// store into the receiver; the receiver itself is passed over.
    pub proof fn lemma_flushed_upto_step(self, tid: u16, version: u64, k: int)
        requires
            self.wf(),
            tid < MAX_THREAD_COUNT,
            0 <= k < self.order.len(),
        ensures
            self.flushed_upto(tid, version, k).threads[self.order[k] as int]
                == self.threads[self.order[k] as int] || self.order[k] == tid,
            self.flushed_upto(tid, version, k).threads[tid as int].last_retire_version == version,
            self.flushed_upto(tid, version, k + 1) == if self.order[k] == tid {
                self.flushed_upto(tid, version, k)
            } else {
                self.flushed_upto(tid, version, k).donated(self.order[k], tid, version)
            },
    {
        let from = self.order[k];
        let before = self.flushed_upto(tid, version, k);
        let after = self.flushed_upto(tid, version, k + 1);
        assert(self.link_wf(k));
        assert forall|j: int| 0 <= j < k implies self.order[j] != from by {}
        let step = if from == tid {
            before
        } else {
            before.donated(from, tid, version)
        };
        assert forall|i: int| 0 <= i < MAX_THREAD_COUNT implies #[trigger] after.threads[i]
            == step.threads[i] by {
            if i == tid {
                assert(after.threads[i].waiting =~= step.threads[i].waiting);
            } else if i == from {
                assert(self.order[k] == i);
            } else {
                if exists|j: int| 0 <= j < k + 1 && self.order[j] == i {
                    let j = choose|j: int| 0 <= j < k + 1 && self.order[j] == i;
                    assert(0 <= j < k && self.order[j] == i);
                }
            }
        }
        assert(after.threads =~= step.threads);
    }

    /// Once the scan has gone through the whole list, every enabled store
    /// has been scanned.
    pub proof fn lemma_flushed_upto_end(self, tid: u16, version: u64)
        requires
            self.wf(),
            tid < MAX_THREAD_COUNT,
        ensures
            self.flushed_upto(tid, version, self.order.len() as int) == self.flushed(tid, version),
    {
        let n = self.order.len() as int;
        let upto = self.flushed_upto(tid, version, n);
        let all = self.flushed(tid, version);
        assert forall|i: int| 0 <= i < MAX_THREAD_COUNT implies #[trigger] upto.threads[i]
            == all.threads[i] by {
            assert(self.store_wf(i));
            if i != tid {
                if self.threads[i].enabled {
                    let j = choose|j: int| 0 <= j < self.order.len() && self.order[j] == i as u16;
                    assert(0 <= j < n && self.order[j] == i);
                } else {
                    if exists|j: int| 0 <= j < n && self.order[j] == i {
                        let j = choose|j: int| 0 <= j < n && self.order[j] == i;
                        assert(self.link_wf(j));
                    }
                }
            }
        }
        assert(upto.threads =~= all.threads);
    }

    /// The engine after a scan of the store `tid` at the minimum version
    /// that `get_min_version` gives without force at the time `now`.
    pub open spec fn local_scan(self, tid: u16, now: i64) -> Self {
        self.with_min_version(false, now).scanned_local(tid, self.min_version_at(false, now))
    }

    /// The engine after a scan of all stores at the minimum version that the
    /// stores show, computed at the time `now`.
    pub open spec fn global_flush(self, tid: u16, now: i64) -> Self {
        self.with_min_version(true, now).flushed(tid, self.min_version_at(true, now))
    }

    /// Whether more nodes wait in the store `tid` than the threshold allows.
    pub open spec fn over_threshold(self, tid: u16) -> bool {
        self.thread_waiting_threshold < self.threads[tid as int].waiting.len()
    }

    /// Whether more nodes wait in all than the threshold allows for each
    /// enabled store.
    pub open spec fn flush_due(self) -> bool {
        self.order.len() * self.thread_waiting_threshold < self.pending()
    }

    /// The engine after the reclamation that follows a release or a retired
    /// node: a scan of the thread's own store if it is over the threshold,
    /// else a scan of all stores if they are over theirs together, else
    /// nothing.
    pub open spec fn reclaimed_after(self, tid: u16, now: i64) -> Self {
        if self.over_threshold(tid) {
            self.local_scan(tid, now)
        } else if self.flush_due() {
            self.global_flush(tid, now)
        } else {
            self
        }
    }

    /// What `retire` answers to the thread `tid`.
    pub open spec fn retire_status(self, tid: u16) -> Status {
        if tid >= MAX_THREAD_COUNT {
            Status::ThreadNumOverflow
        } else {
            Status::Success
        }
    }

    /// The engine after `retire` for the thread `tid` at the time `now`.
    pub open spec fn after_retire(self, tid: u16, now: i64) -> Self {
        if tid >= MAX_THREAD_COUNT {
            self
        } else {
            self.registered(tid).global_flush(tid, now)
        }
    }

    /// The engine once the thread named in `handle` has given up its
    /// version, before any reclamation.
    pub open spec fn released(self, handle: u64) -> Self {
        let version_handle = VersionHandle { data: handle };
        let tid = version_handle.spec_tid();
        if tid >= MAX_THREAD_COUNT {
            self
        } else {
            let reg = self.registered(tid);
            reg.with_store(tid, reg.threads[tid as int].released(version_handle))
        }
    }

    /// The engine after `release` with `handle` at the time `now`.
    pub open spec fn after_release(self, handle: u64, now: i64) -> Self {
        let tid = (VersionHandle { data: handle }).spec_tid();
        if tid >= MAX_THREAD_COUNT {
            self
        } else {
            self.released(handle).reclaimed_after(tid, now)
        }
    }

    /// Whether the engine can take one more node: fewer than 2^63 - 1 nodes
    /// have been retired so far, so that the global version and the number of
    /// waiting nodes can each be counted up by one.
    pub open spec fn can_add_node(self) -> bool {
        self.version < i64::MAX
    }

    /// What `add_node` answers to the thread `tid`.
    pub open spec fn add_node_status(self, tid: u16, node: Option<T>) -> Status {
        if node is None {
            Status::InvalidParam
        } else if tid >= MAX_THREAD_COUNT {
            Status::ThreadNumOverflow
        } else {
            Status::Success
        }
    }

    /// The engine once the thread `tid` has retired `obj`, before any
    /// reclamation: the global version is one higher, and the object waits
    /// in the thread's store with that version.
    pub open spec fn node_added(self, tid: u16, obj: T) -> Self {
        let reg = self.registered(tid);
        let version = (reg.version + 1) as u64;
        HazardEpochView {
            version,
            ..reg.with_store(
                tid,
                reg.threads[tid as int].with_nodes(seq![BaseHazardNode { obj, version }]),
            )
        }
    }

    /// The engine after `add_node` for the thread `tid` at the time `now`.
    pub open spec fn after_add_node(self, tid: u16, node: Option<T>, now: i64) -> Self {
        if node is None || tid >= MAX_THREAD_COUNT {
            self
        } else {
            self.node_added(tid, node->0).reclaimed_after(tid, now)
        }
    }

    /// The engine with no node waiting in any store.
    pub open spec fn drained(self) -> Self {
        HazardEpochView {
            threads: Seq::new(
                MAX_THREAD_COUNT as nat,
                |i: int| ThreadStoreView { waiting: Seq::empty(), ..self.threads[i] },
            ),
            ..self
        }
    }

    /// The scan of all stores keeps the invariant at each of its steps, and
    /// lets no more nodes wait than waited before.
    pub proof fn lemma_flushed_upto_wf(self, tid: u16, version: u64, k: int)
        requires
            self.wf(),
            tid < MAX_THREAD_COUNT,
            self.threads[tid as int].enabled,
            version <= self.version,
            0 <= k <= self.order.len(),
        ensures
            self.flushed_upto(tid, version, k).wf(),
            self.flushed_upto(tid, version, k).pending() <= self.pending(),
        decreases k,
    {
        if k == 0 {
            self.lemma_flushed_upto_start(tid, version);
            self.lemma_scanned_local_wf(tid, version);
        } else {
            self.lemma_flushed_upto_wf(tid, version, k - 1);
            self.lemma_flushed_upto_step(tid, version, k - 1);
            let before = self.flushed_upto(tid, version, k - 1);
            let from = self.order[k - 1];
            assert(self.link_wf(k - 1));
            if from != tid {
                before.lemma_donated_wf(from, tid, version);
            }
        }
    }

    /// The scan of all stores keeps the invariant, and lets no more nodes
    /// wait than waited before.
    pub proof fn lemma_flushed_wf(self, tid: u16, version: u64)
        requires
            self.wf(),
            tid < MAX_THREAD_COUNT,
            self.threads[tid as int].enabled,
            version <= self.version,
        ensures
            self.flushed(tid, version).wf(),
            self.flushed(tid, version).pending() <= self.pending(),
    {
        self.lemma_flushed_upto_wf(tid, version, self.order.len() as int);
        self.lemma_flushed_upto_end(tid, version);
    }

    /// The reclamation that follows a release or a retired node keeps the
    /// invariant, and lets no more nodes wait than waited before.
    pub proof fn lemma_reclaimed_after_wf(self, tid: u16, now: i64)
        requires
            self.wf(),
            tid < MAX_THREAD_COUNT,
            self.threads[tid as int].enabled,
        ensures
            self.reclaimed_after(tid, now).wf(),
            self.reclaimed_after(tid, now).pending() <= self.pending(),
            self.local_scan(tid, now).wf(),
            self.global_flush(tid, now).wf(),
            self.global_flush(tid, now).pending() <= self.pending(),
    {
        self.lemma_with_min_version_wf(false, now);
        self.lemma_with_min_version_wf(true, now);
        self.with_min_version(false, now).lemma_scanned_local_wf(
            tid,
            self.min_version_at(false, now),
        );
        self.with_min_version(true, now).lemma_flushed_wf(tid, self.min_version_at(true, now));
    }

    /// Giving up a version keeps the invariant.
    pub proof fn lemma_released_wf(self, handle: u64)
        requires
            self.wf(),
        ensures
            self.released(handle).wf(),
            self.released(handle).pending() == self.pending(),
    {
        let version_handle = VersionHandle { data: handle };
        let tid = version_handle.spec_tid();
        if tid < MAX_THREAD_COUNT {
            self.lemma_registered_wf(tid);
            let reg = self.registered(tid);
            let after = self.released(handle);
            assert forall|i: int| 0 <= i < MAX_THREAD_COUNT implies #[trigger] after.store_wf(
                i,
            ) by {
                assert(reg.store_wf(i));
            }
            assert forall|k: int| 0 <= k < after.order.len() implies #[trigger] after.link_wf(
                k,
            ) by {
                assert(reg.link_wf(k));
            }
            lemma_waiting_total_update(reg.threads, tid as int, after.threads[tid as int]);
        }
    }

    /// Retiring a node keeps the invariant and lets one more node wait.
    pub proof fn lemma_node_added_wf(self, tid: u16, obj: T)
        requires
            self.wf(),
            self.can_add_node(),
            tid < MAX_THREAD_COUNT,
        ensures
            self.node_added(tid, obj).wf(),
            self.node_added(tid, obj).pending() == self.pending() + 1,
            self.node_added(tid, obj).threads[tid as int].enabled,
    {
        self.lemma_registered_wf(tid);
        let reg = self.registered(tid);
        let after = self.node_added(tid, obj);
        let store = reg.threads[tid as int];
        assert forall|i: int| 0 <= i < MAX_THREAD_COUNT implies #[trigger] after.store_wf(i) by {
            assert(reg.store_wf(i));
            if i == tid {
                let got = after.threads[i];
                assert forall|j: int| 0 <= j < got.waiting.len() implies got.last_retire_version
                    < (#[trigger] got.waiting[j]).version <= after.version by {
                    if j < store.waiting.len() {
                        assert(got.waiting[j] == store.waiting[j]);
                    }
                }
            }
        }
        assert forall|k: int| 0 <= k < after.order.len() implies #[trigger] after.link_wf(k) by {
            assert(reg.link_wf(k));
        }
        lemma_waiting_total_update(reg.threads, tid as int, after.threads[tid as int]);
    }

    /// The engine with no node waiting in the stores before `k`.
    pub open spec fn drained_upto(self, k: int) -> Self {
        HazardEpochView {
            threads: Seq::new(
                MAX_THREAD_COUNT as nat,
                |i: int|
                    if i < k {
                        ThreadStoreView { waiting: Seq::empty(), ..self.threads[i] }
                    } else {
                        self.threads[i]
                    },
            ),
            ..self
        }
    }

    /// The engine after `destroy` for the thread `tid` at the time `now`:
    /// all stores are scanned, and what is left is destroyed too.
    pub open spec fn after_destroy(self, tid: u16, now: i64) -> Self {
        self.after_retire(tid, now).drained()
    }

    /// An engine in which no node waits keeps the invariant.
    pub proof fn lemma_drained_wf(self)
        requires
            self.wf(),
        ensures
            self.drained().wf(),
            self.drained().pending() == 0,
            self.drained_upto(0) == self,
            self.drained_upto(MAX_THREAD_COUNT as int) == self.drained(),
    {
        let after = self.drained();
        assert forall|i: int| 0 <= i < MAX_THREAD_COUNT implies #[trigger] after.store_wf(i) by {
            assert(self.store_wf(i));
        }
        assert forall|k: int| 0 <= k < after.order.len() implies #[trigger] after.link_wf(k) by {
            assert(self.link_wf(k));
        }
        lemma_waiting_total_fresh(after.threads);
        assert(self.drained_upto(0).threads =~= self.threads);
        assert(self.drained_upto(MAX_THREAD_COUNT as int).threads =~= after.threads);
    }

    /// `retire` keeps the invariant, and lets no more nodes wait than waited
    /// before.
    pub proof fn lemma_after_retire_wf(self, tid: u16, now: i64)
        requires
            self.wf(),
        ensures
            self.after_retire(tid, now).wf(),
            self.after_retire(tid, now).pending() <= self.pending(),
    {
        if tid < MAX_THREAD_COUNT {
            self.lemma_registered_wf(tid);
            self.registered(tid).lemma_reclaimed_after_wf(tid, now);
        }
    }

    /// `release` keeps the invariant, and lets no more nodes wait than
    /// waited before.
    pub proof fn lemma_after_release_wf(self, handle: u64, now: i64)
        requires
            self.wf(),
        ensures
            self.after_release(handle, now).wf(),
            self.after_release(handle, now).pending() <= self.pending(),
    {
        let tid = (VersionHandle { data: handle }).spec_tid();
        if tid < MAX_THREAD_COUNT {
            self.lemma_registered_wf(tid);
            self.lemma_released_wf(handle);
            self.released(handle).lemma_reclaimed_after_wf(tid, now);
        }
    }

    /// `add_node` keeps the invariant, and lets at most one more node wait.
    pub proof fn lemma_after_add_node_wf(self, tid: u16, node: Option<T>, now: i64)
        requires
            self.wf(),
            self.can_add_node(),
        ensures
            self.after_add_node(tid, node, now).wf(),
            self.after_add_node(tid, node, now).pending() <= self.pending() + 1,
    {
        if node is Some && tid < MAX_THREAD_COUNT {
            self.lemma_node_added_wf(tid, node->0);
            self.node_added(tid, node->0).lemma_reclaimed_after_wf(tid, now);
        }
    }
}

/// The reclamation engine for retired objects of type `T`.
///
/// A reader calls `acquire` before it looks at a shared object and `release`
/// when it is done. A writer that has replaced an object hands the old one
/// over with `add_node`. `retire` scans every store and destroys the nodes
/// that no acquired version can reach any more.
pub struct HazardEpoch<T> {
    thread_waiting_threshold: i64,
    min_version_cache_time_us: i64,
    version: u64,
    thread_lock: SpinLock,
    threads: Vec<ThreadStore<T>>,
    thread_list: Option<u16>,
    thread_count: i64,
    hazard_waiting_count: i64,
    curr_min_version_info: VersionTimestamp,
    order: Ghost<Seq<u16>>,
}

impl<T> View for HazardEpoch<T> {
    type V = HazardEpochView<T>;

    closed spec fn view(&self) -> HazardEpochView<T> {
        HazardEpochView {
            thread_waiting_threshold: self.thread_waiting_threshold,
            min_version_cache_time_us: self.min_version_cache_time_us,
            version: self.version,
            threads: self.threads@.map_values(|store: ThreadStore<T>| store@),
            order: self.order@,
            curr_min_version: self.curr_min_version_info.curr_min_version,
            curr_min_version_timestamp: self.curr_min_version_info.curr_min_version_timestamp,
        }
    }
}

impl<T> HazardEpoch<T> {
    /// The engine's invariant holds, and its counters say what its stores
    /// hold.
    pub closed spec fn wf(&self) -> bool {
        &&& self@.wf()
        &&& self.thread_lock.wf()
        &&& !self.thread_lock.locked()
        &&& self.thread_list == self@.head()
        &&& self.thread_count == self@.order.len()
        &&& self.hazard_waiting_count == self@.pending()
    }

    /// What `wf` says of the model.
    pub proof fn lemma_wf_view(&self)
        requires
            self.wf(),
        ensures
            self@.wf(),
    {
    }

    #[inline]
    fn curr_min_version(&self) -> (version: u64)
        ensures
            version == self@.curr_min_version,
    {
        self.curr_min_version_info.curr_min_version
    }

    #[inline]
    fn set_curr_min_version(&mut self, curr_min_version: u64)
        ensures
            final(self)@ == (HazardEpochView { curr_min_version, ..old(self)@ }),
            final(self).thread_lock == old(self).thread_lock,
            final(self).thread_list == old(self).thread_list,
            final(self).thread_count == old(self).thread_count,
            final(self).hazard_waiting_count == old(self).hazard_waiting_count,
    {
        self.curr_min_version_info.curr_min_version = curr_min_version;
    }

    #[inline]
    fn curr_min_version_timestamp(&self) -> (timestamp: i64)
        ensures
            timestamp == self@.curr_min_version_timestamp,
    {
        self.curr_min_version_info.curr_min_version_timestamp
    }

    #[inline]
    fn set_curr_min_version_timestamp(&mut self, curr_min_version_timestamp: i64)
        ensures
            final(self)@ == (HazardEpochView { curr_min_version_timestamp, ..old(self)@ }),
            final(self).thread_lock == old(self).thread_lock,
            final(self).thread_list == old(self).thread_list,
            final(self).thread_count == old(self).thread_count,
            final(self).hazard_waiting_count == old(self).hazard_waiting_count,
    {
        self.curr_min_version_info.curr_min_version_timestamp = curr_min_version_timestamp;
    }

    /// An engine with no thread and no node. A store is scanned once more
    /// than `thread_waiting_threshold` nodes wait in it, and a computed
    /// minimum version is used again for `min_version_cache_time_us`
    /// microseconds.
    pub fn new_in_stack(thread_waiting_threshold: i64, min_version_cache_time_us: i64) -> (ret:
        HazardEpoch<T>)
        ensures
            ret.wf(),
            ret@ == HazardEpochView::<T>::initial(
                thread_waiting_threshold,
                min_version_cache_time_us,
            ),
    {
        let mut threads: Vec<ThreadStore<T>> = Vec::new();
        let mut idx: usize = 0;
        while idx < MAX_THREAD_COUNT
            invariant
                idx <= MAX_THREAD_COUNT,
                threads@.len() == idx,
                forall|i: int|
                    0 <= i < idx ==> (#[trigger] threads@[i])@ == ThreadStoreView::<T>::fresh(),
            decreases MAX_THREAD_COUNT - idx,
        {
            threads.push(ThreadStore::new());
            idx = idx + 1;
        }
        let ret = HazardEpoch {
            thread_waiting_threshold,
            min_version_cache_time_us,
            version: 0,
            thread_lock: SpinLock::default(),
            threads,
            thread_list: None,
            thread_count: 0,
            hazard_waiting_count: 0,
            curr_min_version_info: VersionTimestamp {
                curr_min_version: 0,
                curr_min_version_timestamp: 0,
            },
            order: Ghost(Seq::empty()),
        };
        proof {
            let view = ret@;
            assert(view.threads =~= Seq::new(
                MAX_THREAD_COUNT as nat,
                |i: int| ThreadStoreView::<T>::fresh(),
            ));
            assert forall|i: int| 0 <= i < MAX_THREAD_COUNT implies #[trigger] view.store_wf(
                i,
            ) by {}
            lemma_waiting_total_fresh(view.threads);
        }
        ret
    }

    /// The same engine as `new_in_stack` makes, in a box.
    #[inline]
    pub fn new_in_heap(thread_waiting_threshold: i64, min_version_cache_time_us: i64) -> (ret: Box<
        Self,
    >)
        ensures
            ret.wf(),
            ret@ == HazardEpochView::<T>::initial(
                thread_waiting_threshold,
                min_version_cache_time_us,
            ),
    {
        Box::new(Self::new_in_stack(thread_waiting_threshold, min_version_cache_time_us))
    }

    /// An engine with a threshold of 64 nodes and a cache time of 200 000
    /// microseconds.
    #[inline]
    pub fn default_new_in_stack() -> (ret: Self)
        ensures
            ret.wf(),
            ret@ == HazardEpochView::<T>::initial(64, 200000),
    {
        Self::new_in_stack(64, 200000)
    }

    /// The same engine as `default_new_in_stack` makes, in a box.
    #[inline]
    pub fn default_new_in_heap() -> (ret: Box<Self>)
        ensures
            ret.wf(),
            ret@ == HazardEpochView::<T>::initial(64, 200000),
    {
        Self::new_in_heap(64, 200000)
    }

    /// The global version.
    #[inline]
    pub fn atomic_load_version(&self) -> (version: u64)
        ensures
            version == self@.version,
    {
        self.version
    }

    /// The number of enabled stores.
    #[inline]
    pub fn atomic_load_thread_count(&self) -> (count: i64)
        requires
            self.wf(),
        ensures
            count == self@.order.len(),
    {
        self.thread_count
    }

    /// The number of nodes that wait to be destroyed.
    #[inline]
    pub fn atomic_load_hazard_waiting_count(&self) -> (count: i64)
        requires
            self.wf(),
        ensures
            count == self@.pending(),
    {
        self.hazard_waiting_count
    }

    /// The number of the store enabled last.
    #[inline]
    pub fn atomic_load_thread_list(&self) -> (head: Option<u16>)
        requires
            self.wf(),
        ensures
            head == self@.head(),
    {
        self.thread_list
    }

    /// Makes sure that the thread `tid` has its store: the first call for a
    /// thread enables the store and puts it in front of the list of enabled
    /// stores. A thread whose number is not below `MAX_THREAD_COUNT` has no
    /// store.
    pub fn get_thread_store(&mut self, tid: u16) -> (ret: Status)
        requires
            old(self).wf(),
        ensures
            final(self).wf(),
            final(self)@ == old(self)@.registered(tid),
            ret == if tid < MAX_THREAD_COUNT {
                Status::Success
            } else {
                Status::ThreadNumOverflow
            },
    {
        if MAX_THREAD_COUNT <= tid as usize {
            Status::ThreadNumOverflow
        } else {
            if !self.threads[tid as usize].is_enabled() {
                self.thread_lock.lock();
                if !self.threads[tid as usize].is_enabled() {
                    self.threads[tid as usize].set_enabled(tid);
                    self.threads[tid as usize].set_next(self.thread_list);
                    self.thread_list = Some(tid);
                    proof {
                        old(self)@.lemma_registered_wf(tid);
                        self.order = Ghost(seq![tid] + self.order@);
                        assert(self@.threads =~= old(self)@.registered(tid).threads);
                    }
                    self.thread_count = self.thread_count + 1;
                }
                self.thread_lock.unlock();
            }
            Status::Success
        }
    }

    /// The least version that a thread may still be looking at, with the
    /// clock read from `clock` where it is given and from the wall clock
    /// where it is not.
    fn min_version_with(&mut self, force_flush: bool, clock: Option<i64>) -> (ret: u64)
        requires
            old(self).wf(),
        ensures
            final(self).wf(),
            exists|now: i64|
                clock_gives(clock, now) && ret == #[trigger] old(self)@.min_version_at(
                    force_flush,
                    now,
                ) && final(self)@ == old(self)@.with_min_version(force_flush, now),
    {
        let now: i64 = match clock {
            Some(given) => given,
            None => get_cur_microseconds_time(),
        };
        proof {
            old(self)@.lemma_with_min_version_wf(force_flush, now);
        }
        let cached: u64 = self.curr_min_version();
        if !force_flush && 0 != cached && (self.curr_min_version_timestamp() as i128) + (
        self.min_version_cache_time_us as i128) > (now as i128) {
            assert(old(self)@.cache_valid(now));
            assert(cached == old(self)@.min_version_at(force_flush, now));
            cached
        } else {
            assert(!old(self)@.cache_valid(now) || force_flush);
            let mut ret: u64 = self.atomic_load_version();
            let mut iter: Option<u16> = self.atomic_load_thread_list();
            let ghost mut seen: int = 0;
            while iter.is_some()
                invariant
                    self.wf(),
                    0 <= seen <= self@.order.len(),
                    iter == if seen < self@.order.len() {
                        Some(self@.order[seen])
                    } else {
                        None
                    },
                    ret == self@.min_version_over(seen),
                decreases self@.order.len() - seen,
            {
                let i: u16 = iter.unwrap();
                proof {
                    assert(self@.link_wf(seen));
                }
                let ts_min_version: u64 = self.threads[i as usize].version();
                if ret > ts_min_version {
                    ret = ts_min_version;
                }
                iter = self.threads[i as usize].next();
                proof {
                    seen = seen + 1;
                }
            }
            self.set_curr_min_version(ret);
            self.set_curr_min_version_timestamp(now);
            assert(ret == old(self)@.min_version_at(force_flush, now));
            ret
        }
    }

    /// The least version that a thread may still be looking at, at the time
    /// `now`. Unless `force_flush` is set, the version computed last is
    /// returned while it is younger than the cache time. Otherwise the stores
    /// are scanned, and the version found is kept with the time `now`.
    pub fn get_min_version_at(&mut self, force_flush: bool, now: i64) -> (ret: u64)
        requires
            old(self).wf(),
        ensures
            final(self).wf(),
            ret == old(self)@.min_version_at(force_flush, now),
            final(self)@ == old(self)@.with_min_version(force_flush, now),
    {
        self.min_version_with(force_flush, Some(now))
    }

    /// `get_min_version_at` at the time that the wall clock shows.
    pub fn get_min_version(&mut self, force_flush: bool) -> (ret: u64)
        requires
            old(self).wf(),
        ensures
            final(self).wf(),
            exists|now: i64|
                ret == #[trigger] old(self)@.min_version_at(force_flush, now) && final(self)@
                    == old(self)@.with_min_version(force_flush, now),
    {
        self.min_version_with(force_flush, None)
    }

    /// Pins the global version for the thread `tid` and writes the handle of
    /// the acquisition to `handle`. A thread that holds a handle already is
    /// answered `Busy`, and a thread without a store `ThreadNumOverflow`;
    /// `handle` is then left as it is.
    ///
    /// The engine is held by `&mut`, so the global version cannot move between
    /// the moment it is read and the moment the store shows it.
    pub fn acquire(&mut self, tid: u16, handle: &mut u64) -> (ret: Status)
        requires
            old(self).wf(),
        ensures
            final(self).wf(),
            ret == old(self)@.acquire_status(tid),
            final(self)@ == old(self)@.acquired(tid),
            *final(handle) == if ret == Status::Success {
                old(self)@.acquired_handle(tid)
            } else {
                *old(handle)
            },
    {
        let mut ret: Status = self.get_thread_store(tid);
        if ret == Status::Success {
            let version: u64 = self.atomic_load_version();
            let mut version_handle = VersionHandle::new(0);
            ret = self.threads[tid as usize].acquire(version, &mut version_handle);
            proof {
                old(self)@.lemma_registered_wf(tid);
                old(self)@.lemma_acquired_wf(tid);
                assert(self@.threads =~= old(self)@.acquired(tid).threads);
            }
            if ret == Status::Success {
                *handle = version_handle.ver_u64();
            }
        }
        ret
    }

    /// Scans the store `tid` at `min_version` with itself as the receiver.
    fn scan_store(&mut self, tid: u16, min_version: u64)
        requires
            old(self).wf(),
            tid < MAX_THREAD_COUNT,
            old(self)@.threads[tid as int].enabled,
            min_version <= old(self)@.version,
        ensures
            final(self).wf(),
            final(self)@ == old(self)@.scanned_local(tid, min_version),
    {
        proof {
            old(self)@.lemma_scanned_local_wf(tid, min_version);
            lemma_waiting_total_update(
                old(self)@.threads,
                tid as int,
                old(self)@.threads[tid as int],
            );
            lemma_partition_len(old(self)@.threads[tid as int].waiting, min_version);
        }
        let mut moved: Vec<BaseHazardNode<T>> = Vec::new();
        let retire_count: i64 = self.threads[tid as usize].retire(min_version, &mut moved);
        self.threads[tid as usize].inner_add_nodes(moved);
        self.hazard_waiting_count = self.hazard_waiting_count - retire_count;
        proof {
            assert(self@.threads =~= old(self)@.scanned_local(tid, min_version).threads);
        }
    }

    /// Scans every enabled store at `min_version`, the store `tid` first,
    /// with the store `tid` as the receiver.
    fn flush_stores(&mut self, tid: u16, min_version: u64)
        requires
            old(self).wf(),
            tid < MAX_THREAD_COUNT,
            old(self)@.threads[tid as int].enabled,
            min_version <= old(self)@.version,
        ensures
            final(self).wf(),
            final(self)@ == old(self)@.flushed(tid, min_version),
    {
        self.scan_store(tid, min_version);
        proof {
            old(self)@.lemma_flushed_upto_start(tid, min_version);
        }
        let mut iter: Option<u16> = self.atomic_load_thread_list();
        let ghost mut seen: int = 0;
        while iter.is_some()
            invariant
                self.wf(),
                old(self)@.wf(),
                tid < MAX_THREAD_COUNT,
                old(self)@.threads[tid as int].enabled,
                min_version <= old(self)@.version,
                0 <= seen <= old(self)@.order.len(),
                iter == if seen < old(self)@.order.len() {
                    Some(old(self)@.order[seen])
                } else {
                    None
                },
                self@ == old(self)@.flushed_upto(tid, min_version, seen),
            decreases old(self)@.order.len() - seen,
        {
            let from: u16 = iter.unwrap();
            let ghost before = self@;
            proof {
                assert(old(self)@.link_wf(seen));
                assert(before.link_wf(seen));
                old(self)@.lemma_flushed_upto_step(tid, min_version, seen);
                assert(before.store_wf(tid as int));
            }
            if from != tid {
                proof {
                    let after = before.donated(from, tid, min_version);
                    before.lemma_donated_wf(from, tid, min_version);
                    lemma_waiting_total_update(
                        before.threads,
                        from as int,
                        before.threads[from as int],
                    );
                    lemma_waiting_total_update(
                        after.threads,
                        tid as int,
                        after.threads[tid as int],
                    );
                    lemma_partition_len(before.threads[from as int].waiting, min_version);
                }
                let mut moved: Vec<BaseHazardNode<T>> = Vec::new();
                let retire_count: i64 = self.threads[from as usize].retire(min_version, &mut moved);
                self.threads[tid as usize].inner_add_nodes(moved);
                self.hazard_waiting_count = self.hazard_waiting_count - retire_count;
                proof {
                    assert(self@.threads =~= before.donated(from, tid, min_version).threads);
                }
            }
            iter = self.threads[from as usize].next();
            proof {
                seen = seen + 1;
            }
        }
        proof {
            old(self)@.lemma_flushed_upto_end(tid, min_version);
        }
    }

    /// Scans every enabled store at the minimum version that the stores
    /// show, with the store `tid` as the receiver.
    fn flush_with(&mut self, tid: u16, clock: Option<i64>)
        requires
            old(self).wf(),
            tid < MAX_THREAD_COUNT,
            old(self)@.threads[tid as int].enabled,
        ensures
            final(self).wf(),
            exists|now: i64|
                clock_gives(clock, now) && final(self)@ == #[trigger] old(self)@.global_flush(
                    tid,
                    now,
                ),
    {
        let min_version: u64 = self.min_version_with(true, clock);
        let ghost now: i64 = choose|now: i64|
            clock_gives(clock, now) && min_version == #[trigger] old(self)@.min_version_at(
                true,
                now,
            ) && self@ == old(self)@.with_min_version(true, now);
        proof {
            old(self)@.lemma_with_min_version_wf(true, now);
        }
        self.flush_stores(tid, min_version);
        assert(self@ == old(self)@.global_flush(tid, now));
    }

    /// The reclamation that follows a release or a retired node.
    fn reclaim_with(&mut self, tid: u16, clock: Option<i64>)
        requires
            old(self).wf(),
            tid < MAX_THREAD_COUNT,
            old(self)@.threads[tid as int].enabled,
        ensures
            final(self).wf(),
            exists|now: i64|
                clock_gives(clock, now) && final(self)@ == #[trigger] old(self)@.reclaimed_after(
                    tid,
                    now,
                ),
    {
        proof {
            lemma_waiting_total_update(
                old(self)@.threads,
                tid as int,
                old(self)@.threads[tid as int],
            );
        }
        let threshold: i64 = self.thread_waiting_threshold;
        let thread_count: i64 = self.atomic_load_thread_count();
        assert(-0x1_0000_0000_0000_0000_0000i128 <= (thread_count as i128) * (threshold as i128)
            <= 0x1_0000_0000_0000_0000_0000i128) by (nonlinear_arith)
            requires
                0 <= thread_count <= 0x1_0000,
                -0x8000_0000_0000_0000i128 <= threshold <= 0x7fff_ffff_ffff_ffffi128,
        ;
        if threshold < self.threads[tid as usize].get_hazard_waiting_count() {
            let min_version: u64 = self.min_version_with(false, clock);
            let ghost now: i64 = choose|now: i64|
                clock_gives(clock, now) && min_version == #[trigger] old(self)@.min_version_at(
                    false,
                    now,
                ) && self@ == old(self)@.with_min_version(false, now);
            proof {
                old(self)@.lemma_with_min_version_wf(false, now);
            }
            self.scan_store(tid, min_version);
            assert(self@ == old(self)@.reclaimed_after(tid, now));
        } else if (thread_count as i128) * (threshold as i128) < (
        self.atomic_load_hazard_waiting_count() as i128) {
            self.flush_with(tid, clock);
            let ghost now: i64 = choose|now: i64|
                clock_gives(clock, now) && self@ == #[trigger] old(self)@.global_flush(tid, now);
            assert(self@ == old(self)@.reclaimed_after(tid, now));
        } else {
            let ghost now: i64 = match clock {
                Some(given) => given,
                None => 0i64,
            };
            assert(clock_gives(clock, now) && self@ == old(self)@.reclaimed_after(tid, now));
        }
    }

    fn retire_with(&mut self, tid: u16, clock: Option<i64>) -> (ret: Status)
        requires
            old(self).wf(),
        ensures
            final(self).wf(),
            ret == old(self)@.retire_status(tid),
            exists|now: i64|
                clock_gives(clock, now) && final(self)@ == #[trigger] old(self)@.after_retire(
                    tid,
                    now,
                ),
    {
        let ret: Status = self.get_thread_store(tid);
        if ret != Status::Success {
            let ghost now: i64 = match clock {
                Some(given) => given,
                None => 0i64,
            };
            assert(clock_gives(clock, now) && self@ == old(self)@.after_retire(tid, now));
            return ret;
        }
        proof {
            old(self)@.lemma_registered_wf(tid);
        }
        self.flush_with(tid, clock);
        let ghost now: i64 = choose|now: i64|
            clock_gives(clock, now) && self@ == #[trigger] old(self)@.registered(
                tid,
            ).global_flush(tid, now);
        assert(self@ == old(self)@.after_retire(tid, now));
        ret
    }

    /// Destroys every node that no thread can be looking at any more. The
    /// stores are scanned at the minimum version that they show at this
    /// moment; what is left waits in the store of the thread `tid`. A thread
    /// without a store is answered `ThreadNumOverflow`, and nothing changes.
    ///
    /// `now` is the time in microseconds that is kept with the minimum
    /// version.
    pub fn retire_at(&mut self, tid: u16, now: i64) -> (ret: Status)
        requires
            old(self).wf(),
        ensures
            final(self).wf(),
            ret == old(self)@.retire_status(tid),
            final(self)@ == old(self)@.after_retire(tid, now),
    {
        self.retire_with(tid, Some(now))
    }

    /// `retire_at` at the time that the wall clock shows.
    pub fn retire(&mut self, tid: u16) -> (ret: Status)
        requires
            old(self).wf(),
        ensures
            final(self).wf(),
            ret == old(self)@.retire_status(tid),
            exists|now: i64| final(self)@ == #[trigger] old(self)@.after_retire(tid, now),
    {
        self.retire_with(tid, None)
    }

    fn release_with(&mut self, handle: u64, clock: Option<i64>)
        requires
            old(self).wf(),
        ensures
            final(self).wf(),
            exists|now: i64|
                clock_gives(clock, now) && final(self)@ == #[trigger] old(self)@.after_release(
                    handle,
                    now,
                ),
    {
        let version_handle = VersionHandle::new(handle);
        let tid: u16 = version_handle.tid();
        if MAX_THREAD_COUNT > tid as usize {
            let _ = self.get_thread_store(tid);
            self.threads[tid as usize].release(&version_handle);
            proof {
                old(self)@.lemma_registered_wf(tid);
                old(self)@.lemma_released_wf(handle);
                assert(self@.threads =~= old(self)@.released(handle).threads);
            }
            self.reclaim_with(tid, clock);
            let ghost now: i64 = choose|now: i64|
                clock_gives(clock, now) && self@ == #[trigger] old(self)@.released(
                    handle,
                ).reclaimed_after(tid, now);
            assert(self@ == old(self)@.after_release(handle, now));
        } else {
            let ghost now: i64 = match clock {
                Some(given) => given,
                None => 0i64,
            };
            assert(clock_gives(clock, now) && self@ == old(self)@.after_release(handle, now));
        }
    }

    /// Gives up the version that the thread named in `handle` has acquired,
    /// and reclaims: if more nodes wait in the thread's store than the
    /// threshold allows, the store is scanned; else, if more nodes wait in
    /// all than the threshold allows for each enabled store, all stores are.
    /// A handle that names no store changes nothing; one that names a store
    /// but not its release counter leaves the version in place.
    ///
    /// `now` is the time in microseconds by which the age of the minimum
    /// version is judged.
    pub fn release_at(&mut self, handle: u64, now: i64)
        requires
            old(self).wf(),
        ensures
            final(self).wf(),
            final(self)@ == old(self)@.after_release(handle, now),
    {
        self.release_with(handle, Some(now));
    }

    /// `release_at` at the time that the wall clock shows. The clock is read
    /// only where a scan is due.
    pub fn release(&mut self, handle: u64)
        requires
            old(self).wf(),
        ensures
            final(self).wf(),
            exists|now: i64| final(self)@ == #[trigger] old(self)@.after_release(handle, now),
    {
        self.release_with(handle, None);
    }

    fn add_node_with(&mut self, tid: u16, node: Option<T>, clock: Option<i64>) -> (ret: Status)
        requires
            old(self).wf(),
            old(self)@.can_add_node(),
        ensures
            final(self).wf(),
            ret == old(self)@.add_node_status(tid, node),
            exists|now: i64|
                clock_gives(clock, now) && final(self)@ == #[trigger] old(self)@.after_add_node(
                    tid,
                    node,
                    now,
                ),
    {
        let ghost idle: i64 = match clock {
            Some(given) => given,
            None => 0i64,
        };
        match node {
            None => {
                assert(clock_gives(clock, idle) && self@ == old(self)@.after_add_node(
                    tid,
                    node,
                    idle,
                ));
                Status::InvalidParam
            },
            Some(obj) => {
                let ret: Status = self.get_thread_store(tid);
                if ret != Status::Success {
                    assert(clock_gives(clock, idle) && self@ == old(self)@.after_add_node(
                        tid,
                        node,
                        idle,
                    ));
                    return ret;
                }
                proof {
                    old(self)@.lemma_registered_wf(tid);
                    old(self)@.lemma_node_added_wf(tid, obj);
                    lemma_waiting_total_update(
                        self@.threads,
                        tid as int,
                        self@.threads[tid as int],
                    );
                }
                self.version = self.version + 1;
                let ret: Status = self.threads[tid as usize].add_node(self.version, obj);
                self.hazard_waiting_count = self.hazard_waiting_count + 1;
                proof {
                    assert(self@.threads =~= old(self)@.node_added(tid, obj).threads);
                }
                self.reclaim_with(tid, clock);
                let ghost now: i64 = choose|now: i64|
                    clock_gives(clock, now) && self@ == #[trigger] old(self)@.node_added(
                        tid,
                        obj,
                    ).reclaimed_after(tid, now);
                assert(self@ == old(self)@.after_add_node(tid, node, now));
                ret
            },
        }
    }

    /// Takes over the object in `node`, which the thread `tid` has retired:
    /// the global version goes up by one, and the object waits in the
    /// thread's store with the new version. Then the engine reclaims as it
    /// does after a release. Without an object the answer is `InvalidParam`,
    /// and for a thread without a store `ThreadNumOverflow`; nothing changes
    /// then.
    ///
    /// `now` is the time in microseconds by which the age of the minimum
    /// version is judged.
    pub fn add_node_at(&mut self, tid: u16, node: Option<T>, now: i64) -> (ret: Status)
        requires
            old(self).wf(),
            old(self)@.can_add_node(),
        ensures
            final(self).wf(),
            ret == old(self)@.add_node_status(tid, node),
            final(self)@ == old(self)@.after_add_node(tid, node, now),
    {
        self.add_node_with(tid, node, Some(now))
    }

    /// `add_node_at` at the time that the wall clock shows. The clock is read
    /// only where a scan is due.
    pub fn add_node(&mut self, tid: u16, node: Option<T>) -> (ret: Status)
        requires
            old(self).wf(),
            old(self)@.can_add_node(),
        ensures
            final(self).wf(),
            ret == old(self)@.add_node_status(tid, node),
            exists|now: i64| final(self)@ == #[trigger] old(self)@.after_add_node(tid, node, now),
    {
        self.add_node_with(tid, node, None)
    }

    fn destroy_with(&mut self, tid: u16, clock: Option<i64>)
        requires
            old(self).wf(),
        ensures
            final(self).wf(),
            exists|now: i64|
                clock_gives(clock, now) && final(self)@ == #[trigger] old(self)@.after_destroy(
                    tid,
                    now,
                ),
    {
        let _ = self.retire_with(tid, clock);
        let ghost now: i64 = choose|now: i64|
            clock_gives(clock, now) && self@ == #[trigger] old(self)@.after_retire(tid, now);
        let ghost flushed = self@;
        proof {
            flushed.lemma_drained_wf();
        }
        let mut idx: usize = 0;
        while idx < MAX_THREAD_COUNT
            invariant
                idx <= MAX_THREAD_COUNT,
                flushed.wf(),
                self@ == flushed.drained_upto(idx as int),
                self.threads@.len() == MAX_THREAD_COUNT,
                self.thread_lock.wf(),
                !self.thread_lock.locked(),
                self.thread_list == flushed.head(),
                self.thread_count == flushed.order.len(),
            decreases MAX_THREAD_COUNT - idx,
        {
            let ghost before = self@;
            self.threads[idx].destroy();
            idx = idx + 1;
            proof {
                let after = flushed.drained_upto(idx as int);
                assert forall|i: int| 0 <= i < MAX_THREAD_COUNT implies #[trigger] self@.threads[i]
                    == after.threads[i] by {
                    assert(before.threads[i] == flushed.drained_upto(idx - 1).threads[i]);
                }
                assert(self@.threads =~= after.threads);
            }
        }
        self.hazard_waiting_count = 0;
        assert(self@ == old(self)@.after_destroy(tid, now));
    }

    /// Scans all stores as `retire_at` does, and then destroys every node
    /// that still waits, whatever its version. No thread may be looking at a
    /// retired object any more.
    pub fn destroy_at(&mut self, tid: u16, now: i64)
        requires
            old(self).wf(),
        ensures
            final(self).wf(),
            final(self)@ == old(self)@.after_destroy(tid, now),
    {
        self.destroy_with(tid, Some(now));
    }

    /// `destroy_at` at the time that the wall clock shows.
    pub fn destroy(&mut self, tid: u16)
        requires
            old(self).wf(),
        ensures
            final(self).wf(),
            exists|now: i64| final(self)@ == #[trigger] old(self)@.after_destroy(tid, now),
    {
        self.destroy_with(tid, None);
    }
}

} // verus!
