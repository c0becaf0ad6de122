//! What the engine guarantees, proved of its model.
//!
//! The statements are about `HazardEpochView`, the value that the contracts
//! of `HazardEpoch` speak of: what is proved here of `after_retire`, say,
//! holds of every call of `retire`.
use crate::error::Status;
use crate::hazard_epoch::{HazardEpochView, MAX_THREAD_COUNT};
use crate::hazard_pointer::{
    lemma_handle_word_parts, lemma_partition_nodes, survivors, BaseHazardNode, VersionHandle,
};
use vstd::prelude::*;

verus! {

impl<T> HazardEpochView<T> {
    /// Whether `node` waits in the store `i`.
    pub open spec fn waits_in(self, i: int, node: BaseHazardNode<T>) -> bool {
        0 <= i < MAX_THREAD_COUNT && self.threads[i].waiting.contains(node)
    }

    /// Whether `node` waits in some store: it was retired and has not been
    /// destroyed.
    pub open spec fn waits(self, node: BaseHazardNode<T>) -> bool {
        exists|i: int| self.waits_in(i, node)
    }

    /// Whether no thread holds a version.
    pub open spec fn idle(self) -> bool {
        forall|i: int| 0 <= i < MAX_THREAD_COUNT ==> !(#[trigger] self.threads[i]).busy()
    }

    /// Whether some thread holds a version below the one at which `node` was
    /// retired: the thread may still be looking at the object.
    pub open spec fn pins(self, r: int, node: BaseHazardNode<T>) -> bool {
        0 <= r < MAX_THREAD_COUNT && self.threads[r].busy() && self.threads[r].curr_version
            < node.version
    }

    /// A node that waits was retired above the version of the last scan of
    /// its store and at most at the global version.
    pub proof fn lemma_waiting_version(self, i: int, node: BaseHazardNode<T>)
        requires
            self.wf(),
            self.waits_in(i, node),
        ensures
            self.threads[i].last_retire_version < node.version <= self.version,
            self.threads[i].enabled,
    {
        assert(self.store_wf(i));
        let list = self.threads[i].waiting;
        let j = choose|j: int| 0 <= j < list.len() && list[j] == node;
        assert(list[j].version <= self.version);
    }

    /// What the stores before `k` in the list hand over holds what each of
    /// them hands over.
    pub proof fn lemma_donations_hold(self, tid: u16, version: u64, k: int, j: int)
        requires
            0 <= j < k <= self.order.len(),
            self.order[j] != tid,
        ensures
            forall|node: BaseHazardNode<T>|
                self.threads[self.order[j] as int].scan_moved(version).contains(node)
                    ==> #[trigger] self.donations(tid, version, k).contains(node),
        decreases k,
    {
        let from = self.order[k - 1];
        let front = self.donations(tid, version, k - 1);
        let all = self.donations(tid, version, k);
        if j < k - 1 {
            self.lemma_donations_hold(tid, version, k - 1, j);
            assert forall|node: BaseHazardNode<T>|
                self.threads[self.order[j] as int].scan_moved(version).contains(
                    node,
                ) implies #[trigger] all.contains(node) by {
                assert(front.contains(node));
                let at = choose|at: int| 0 <= at < front.len() && front[at] == node;
                assert(all[at] == node);
            }
        } else {
            let moved = self.threads[from as int].scan_moved(version);
            assert forall|node: BaseHazardNode<T>|
                moved.contains(node) implies #[trigger] all.contains(node) by {
                let at = choose|at: int| 0 <= at < moved.len() && moved[at] == node;
                assert(all[front.len() + at] == node);
            }
        }
    }

    /// What the stores before `k` in the list hand over comes from the nodes
    /// that waited in them, and was retired above `version`.
    pub proof fn lemma_donations_from(self, tid: u16, version: u64, k: int)
        requires
            self.wf(),
            0 <= k <= self.order.len(),
        ensures
            forall|node: BaseHazardNode<T>| #[trigger]
                self.donations(tid, version, k).contains(node) ==> node.version > version
                    && self.waits(node),
        decreases k,
    {
        if k > 0 {
            self.lemma_donations_from(tid, version, k - 1);
            let from = self.order[k - 1];
            let front = self.donations(tid, version, k - 1);
            let all = self.donations(tid, version, k);
            let giver = self.threads[from as int];
            let moved = giver.scan_moved(version);
            assert(self.link_wf(k - 1));
            lemma_partition_nodes(giver.waiting, version);
            assert forall|node: BaseHazardNode<T>| #[trigger]
                all.contains(node) implies node.version > version && self.waits(node) by {
                let at = choose|at: int| 0 <= at < all.len() && all[at] == node;
                if from == tid || at < front.len() {
                    assert(front[at] == node);
                    assert(front.contains(node));
                } else {
                    assert(moved[at - front.len()] == node);
                    assert(survivors(giver.waiting, version)[at - front.len()] == node);
                    assert(giver.waiting.contains(node));
                    assert(self.waits_in(from as int, node));
                }
            }
        }
    }

    /// A scan of all stores destroys the nodes retired at or below its
    /// version and no others: the nodes that wait after it are the nodes that
    /// waited before it and were retired above that version.
    pub proof fn lemma_flushed_waits(self, tid: u16, version: u64, node: BaseHazardNode<T>)
        requires
            self.wf(),
            tid < MAX_THREAD_COUNT,
            self.threads[tid as int].enabled,
            version <= self.version,
        ensures
            self.flushed(tid, version).waits(node) <==> self.waits(node) && node.version
                > version,
    {
        let after = self.flushed(tid, version);
        let n = self.order.len() as int;
        let own = self.threads[tid as int];
        let gifts = self.donations(tid, version, n);
        let kept = own.scanned(version).with_nodes(own.scan_moved(version));
        self.lemma_donations_from(tid, version, n);
        lemma_partition_nodes(own.waiting, version);
        if self.waits(node) && node.version > version {
            let i = choose|i: int| self.waits_in(i, node);
            self.lemma_waiting_version(i, node);
            let list = self.threads[i].waiting;
            let j = choose|j: int| 0 <= j < list.len() && list[j] == node;
            lemma_partition_nodes(list, version);
            if i == tid {
                if own.scans(version) {
                    assert(survivors(list, version).contains(list[j]));
                    let at = choose|at: int|
                        0 <= at < survivors(list, version).len() && survivors(list, version)[at]
                            == node;
                    assert(after.threads[i].waiting[at] == node);
                } else {
                    assert(after.threads[i].waiting[j] == node);
                }
                assert(after.waits_in(i, node));
            } else if self.threads[i].scans(version) {
                assert(self.store_wf(i));
                let k = choose|k: int| 0 <= k < self.order.len() && self.order[k] == i as u16;
                assert(survivors(list, version).contains(list[j]));
                self.lemma_donations_hold(tid, version, n, k);
                assert(gifts.contains(node));
                let at = choose|at: int| 0 <= at < gifts.len() && gifts[at] == node;
                assert(after.threads[tid as int].waiting[kept.waiting.len() + at] == node);
                assert(after.waits_in(tid as int, node));
            } else {
                assert(after.threads[i].waiting[j] == node);
                assert(after.waits_in(i, node));
            }
        }
        if after.waits(node) {
            let i = choose|i: int| after.waits_in(i, node);
            let list = after.threads[i].waiting;
            let j = choose|j: int| 0 <= j < list.len() && list[j] == node;
            assert(self.store_wf(i));
            if i == tid {
                if j < kept.waiting.len() {
                    assert(kept.waiting[j] == node);
                    if own.scans(version) {
                        assert(survivors(own.waiting, version)[j] == node);
                        assert(own.waiting.contains(node));
                    } else {
                        assert(own.waiting[j] == node);
                    }
                    assert(self.waits_in(i, node));
                    self.lemma_waiting_version(i, node);
                } else {
                    assert(gifts[j - kept.waiting.len()] == node);
                    assert(gifts.contains(node));
                }
            } else {
                assert(self.threads[i].waiting[j] == node);
                assert(self.waits_in(i, node));
                self.lemma_waiting_version(i, node);
            }
        }
    }

    /// A scan of one store into itself destroys nodes of that store retired
    /// at or below its version and no others: what waits after it waited
    /// before it, what was retired above the version waits on, and no node
    /// retired at or below the version waits in that store any more.
    pub proof fn lemma_scanned_local_waits(self, tid: u16, version: u64, node: BaseHazardNode<T>)
        requires
            self.wf(),
            tid < MAX_THREAD_COUNT,
            self.threads[tid as int].enabled,
            version <= self.version,
        ensures
            self.scanned_local(tid, version).waits(node) ==> self.waits(node),
            self.waits(node) && node.version > version ==> self.scanned_local(tid, version).waits(
                node,
            ),
            self.scanned_local(tid, version).waits_in(tid as int, node) ==> node.version
                > version,
    {
        let after = self.scanned_local(tid, version);
        let own = self.threads[tid as int];
        lemma_partition_nodes(own.waiting, version);
        if own.scans(version) {
            assert(after.threads[tid as int].waiting =~= survivors(own.waiting, version));
        } else {
            assert(after.threads[tid as int].waiting =~= own.waiting);
        }
        let kept = after.threads[tid as int].waiting;
        if self.waits(node) && node.version > version {
            let i = choose|i: int| self.waits_in(i, node);
            if i == tid {
                let j = choose|j: int| 0 <= j < own.waiting.len() && own.waiting[j] == node;
                assert(own.waiting[j].version > version);
                assert(kept.contains(own.waiting[j]));
            }
            assert(after.waits_in(i, node));
        }
        if after.waits(node) {
            let i = choose|i: int| after.waits_in(i, node);
            if i == tid {
                let j = choose|j: int| 0 <= j < kept.len() && kept[j] == node;
                if own.scans(version) {
                    assert(survivors(own.waiting, version)[j] == node);
                    assert(own.waiting.contains(node));
                }
            }
            assert(self.waits_in(i, node));
        }
        if after.waits_in(tid as int, node) {
            let j = choose|j: int| 0 <= j < kept.len() && kept[j] == node;
            if own.scans(version) {
                assert(survivors(own.waiting, version)[j] == node);
            } else {
                assert(self.waits_in(tid as int, node));
                self.lemma_waiting_version(tid as int, node);
            }
        }
    }

    /// The reclamation that follows a release or a retired node destroys
    /// nothing new and nothing that a thread may still be looking at.
    pub proof fn lemma_reclaimed_after_waits(self, tid: u16, now: i64, node: BaseHazardNode<T>)
        requires
            self.wf(),
            tid < MAX_THREAD_COUNT,
            self.threads[tid as int].enabled,
        ensures
            self.reclaimed_after(tid, now).waits(node) ==> self.waits(node),
            self.waits(node) && (exists|r: int| self.pins(r, node)) ==> self.reclaimed_after(
                tid,
                now,
            ).waits(node),
            self.global_flush(tid, now).waits(node) ==> self.waits(node),
            self.waits(node) && (exists|r: int| self.pins(r, node)) ==> self.global_flush(
                tid,
                now,
            ).waits(node),
    {
        self.lemma_with_min_version_wf(false, now);
        self.lemma_with_min_version_wf(true, now);
        let cached = self.with_min_version(false, now);
        let fresh = self.with_min_version(true, now);
        assert forall|i: int| cached.waits_in(i, node) == self.waits_in(i, node) by {}
        assert forall|i: int| fresh.waits_in(i, node) == self.waits_in(i, node) by {}
        cached.lemma_scanned_local_waits(tid, self.min_version_at(false, now), node);
        fresh.lemma_flushed_waits(tid, self.min_version_at(true, now), node);
        if self.waits(node) {
            let i = choose|i: int| self.waits_in(i, node);
            assert(cached.waits_in(i, node));
            assert(fresh.waits_in(i, node));
        }
        if cached.waits(node) {
            let i = choose|i: int| cached.waits_in(i, node);
            assert(self.waits_in(i, node));
        }
        if fresh.waits(node) {
            let i = choose|i: int| fresh.waits_in(i, node);
            assert(self.waits_in(i, node));
        }
        if exists|r: int| self.pins(r, node) {
            let r = choose|r: int| self.pins(r, node);
            assert(self.threads[r].busy());
        }
    }

    /// No premature destruction, for `retire`: a node that waits, and that
    /// was retired above a version that some thread holds, waits on.
    pub proof fn lemma_retire_keeps_pinned(
        self,
        tid: u16,
        now: i64,
        r: int,
        node: BaseHazardNode<T>,
    )
        requires
            self.wf(),
            self.waits(node),
            self.pins(r, node),
        ensures
            self.after_retire(tid, now).waits(node),
            self.after_retire(tid, now).pins(r, node),
    {
        if tid < MAX_THREAD_COUNT {
            self.lemma_registered_wf(tid);
            let reg = self.registered(tid);
            let i = choose|i: int| self.waits_in(i, node);
            self.lemma_waiting_version(i, node);
            assert(reg.waits_in(i, node));
            assert(self.store_wf(r));
            assert(reg.pins(r, node));
            reg.lemma_reclaimed_after_waits(tid, now, node);
        }
    }

    /// No premature destruction, for `release`: a node that waits, and that
    /// was retired above a version that some thread still holds once the
    /// handle has been given back, waits on.
    pub proof fn lemma_release_keeps_pinned(
        self,
        handle: u64,
        now: i64,
        r: int,
        node: BaseHazardNode<T>,
    )
        requires
            self.wf(),
            self.waits(node),
            self.released(handle).pins(r, node),
        ensures
            self.after_release(handle, now).waits(node),
            self.after_release(handle, now).pins(r, node),
    {
        let tid = (VersionHandle { data: handle }).spec_tid();
        if tid < MAX_THREAD_COUNT {
            self.lemma_registered_wf(tid);
            self.lemma_released_wf(handle);
            let rel = self.released(handle);
            let i = choose|i: int| self.waits_in(i, node);
            self.lemma_waiting_version(i, node);
            assert(rel.waits_in(i, node));
            rel.lemma_reclaimed_after_waits(tid, now, node);
        }
    }

    /// No premature destruction, for `add_node`: a node that waits, and that
    /// was retired above a version that some thread holds, waits on; and so
    /// does the node that is retired, whatever version the thread holds.
    pub proof fn lemma_add_node_keeps_pinned(
        self,
        tid: u16,
        obj: T,
        now: i64,
        r: int,
        node: BaseHazardNode<T>,
    )
        requires
            self.wf(),
            self.can_add_node(),
            0 <= r < MAX_THREAD_COUNT,
            self.threads[r].busy(),
            (self.waits(node) && self.pins(r, node)) || (tid < MAX_THREAD_COUNT && node
                == BaseHazardNode { obj, version: (self.version + 1) as u64 }),
        ensures
            self.after_add_node(tid, Some(obj), now).waits(node),
            self.after_add_node(tid, Some(obj), now).pins(r, node),
    {
        if tid < MAX_THREAD_COUNT {
            self.lemma_registered_wf(tid);
            self.lemma_node_added_wf(tid, obj);
            let reg = self.registered(tid);
            let added = self.node_added(tid, obj);
            assert(self.store_wf(r));
            assert(added.pins(r, node));
            if self.waits(node) && self.pins(r, node) {
                let i = choose|i: int| self.waits_in(i, node);
                self.lemma_waiting_version(i, node);
                let list = self.threads[i].waiting;
                let j = choose|j: int| 0 <= j < list.len() && list[j] == node;
                assert(added.threads[i].waiting[j] == node);
                assert(added.waits_in(i, node));
            } else {
                let list = added.threads[tid as int].waiting;
                assert(list[list.len() - 1] == node);
                assert(added.waits_in(tid as int, node));
            }
            added.lemma_reclaimed_after_waits(tid, now, node);
        }
    }

    /// Nothing is destroyed by `acquire`, and no operation makes a node wait
    /// that was not retired: what waits after `retire` or `release` waited
    /// before.
    pub proof fn lemma_nothing_comes_back(
        self,
        tid: u16,
        handle: u64,
        now: i64,
        node: BaseHazardNode<T>,
    )
        requires
            self.wf(),
        ensures
            self.acquired(tid).waits(node) <==> self.waits(node),
            self.after_retire(tid, now).waits(node) ==> self.waits(node),
            self.after_release(handle, now).waits(node) ==> self.waits(node),
    {
        self.lemma_registered_wf(tid);
        let reg = self.registered(tid);
        assert forall|i: int| reg.waits_in(i, node) == self.waits_in(i, node) by {}
        assert forall|i: int| self.acquired(tid).waits_in(i, node) == self.waits_in(i, node) by {}
        if self.waits(node) {
            let i = choose|i: int| self.waits_in(i, node);
            assert(self.acquired(tid).waits_in(i, node));
        }
        if self.acquired(tid).waits(node) {
            let i = choose|i: int| self.acquired(tid).waits_in(i, node);
            assert(self.waits_in(i, node));
        }
        if tid < MAX_THREAD_COUNT {
            reg.lemma_reclaimed_after_waits(tid, now, node);
            if reg.waits(node) {
                let i = choose|i: int| reg.waits_in(i, node);
                assert(self.waits_in(i, node));
            }
        }
        let owner = (VersionHandle { data: handle }).spec_tid();
        if owner < MAX_THREAD_COUNT {
            self.lemma_registered_wf(owner);
            self.lemma_released_wf(handle);
            let rel = self.released(handle);
            assert forall|i: int| rel.waits_in(i, node) == self.waits_in(i, node) by {}
            rel.lemma_reclaimed_after_waits(owner, now, node);
            if rel.waits(node) {
                let i = choose|i: int| rel.waits_in(i, node);
                assert(self.waits_in(i, node));
            }
        }
    }

    /// Eventual reclamation: once no thread holds a version, one `retire`
    /// destroys every node that waits.
    pub proof fn lemma_retire_reclaims_all(self, tid: u16, now: i64)
        requires
            self.wf(),
            self.idle(),
            tid < MAX_THREAD_COUNT,
        ensures
            self.after_retire(tid, now).pending() == 0,
            forall|node: BaseHazardNode<T>| !self.after_retire(tid, now).waits(node),
    {
        self.lemma_registered_wf(tid);
        let reg = self.registered(tid);
        assert forall|i: int| 0 <= i < MAX_THREAD_COUNT implies !(
        #[trigger] reg.threads[i]).busy() by {
            assert(!self.threads[i].busy());
        }
        reg.lemma_scan_min_version();
        reg.lemma_with_min_version_wf(true, now);
        let fresh = reg.with_min_version(true, now);
        let version = reg.min_version_at(true, now);
        assert(version == reg.version);
        let after = fresh.flushed(tid, version);
        fresh.lemma_flushed_wf(tid, version);
        assert forall|node: BaseHazardNode<T>| !after.waits(node) by {
            fresh.lemma_flushed_waits(tid, version, node);
            if fresh.waits(node) {
                let i = choose|i: int| fresh.waits_in(i, node);
                fresh.lemma_waiting_version(i, node);
            }
        }
        assert forall|i: int| 0 <= i < after.threads.len() implies (
        #[trigger] after.threads[i]).waiting.len() == 0 by {
            if after.threads[i].waiting.len() > 0 {
                let node = after.threads[i].waiting[0];
                assert(after.waits_in(i, node));
                assert(after.waits(node));
            }
        }
        crate::hazard_epoch::lemma_waiting_total_fresh(after.threads);
    }

    /// Monotone versions: no operation lowers the global version; a node
    /// that is taken over raises it by one and is given the new version; and
    /// a thread that acquires is given the global version.
    pub proof fn lemma_versions_grow(self, tid: u16, handle: u64, obj: T, now: i64)
        requires
            self.wf(),
            self.can_add_node(),
        ensures
            self.acquired(tid).version == self.version,
            self.after_retire(tid, now).version == self.version,
            self.after_release(handle, now).version == self.version,
            tid < MAX_THREAD_COUNT ==> self.after_add_node(tid, Some(obj), now).version
                == self.version + 1,
            tid < MAX_THREAD_COUNT ==> self.node_added(tid, obj).threads[tid as int].waiting.last()
                == (BaseHazardNode { obj, version: (self.version + 1) as u64 }),
            self.acquire_status(tid) == Status::Success ==> self.acquired(
                tid,
            ).threads[tid as int].curr_version == self.version,
            tid >= MAX_THREAD_COUNT ==> self.after_add_node(tid, Some(obj), now) == self,
    {
    }

    /// Handle uniqueness: a thread that has acquired is refused until it
    /// releases, and it is accepted again once it has released with the
    /// handle that it was given.
    pub proof fn lemma_one_handle(self, tid: u16, now: i64)
        requires
            self.wf(),
            self.acquire_status(tid) == Status::Success,
        ensures
            self.acquired(tid).acquire_status(tid) == Status::Busy,
            self.acquired(tid).acquired(tid) == self.acquired(tid),
            self.acquired(tid).after_release(self.acquired_handle(tid), now).acquire_status(tid)
                == Status::Success,
    {
        self.lemma_registered_wf(tid);
        self.lemma_acquired_wf(tid);
        let reg = self.registered(tid);
        let held = self.acquired(tid);
        let store = reg.threads[tid as int];
        let handle = self.acquired_handle(tid);
        assert(held.registered(tid) == held);
        assert(held.threads[tid as int] == store.acquired(reg.version));
        assert(held.threads[tid as int].acquired(held.version) == held.threads[tid as int]);
        assert(held.threads.update(tid as int, held.threads[tid as int]) =~= held.threads);
        assert(reg.store_wf(tid as int));
        lemma_handle_word_parts(store.tid, 0, store.curr_seq);
        assert((VersionHandle { data: handle }).spec_tid() == tid);
        let rel = held.released(handle);
        assert(!rel.threads[tid as int].busy());
        held.lemma_released_wf(handle);
        assert(rel.threads[tid as int].enabled);
        let after = rel.reclaimed_after(tid, now);
        assert(after.threads[tid as int].curr_version == rel.threads[tid as int].curr_version);
    }

    /// Stale handles: once a thread has released and acquired again, the
    /// handle of its earlier acquisition releases nothing.
    pub proof fn lemma_stale_handle(self, tid: u16, now: i64, later: i64)
        requires
            self.wf(),
            self.acquire_status(tid) == Status::Success,
        ensures
            ({
                let handle = self.acquired_handle(tid);
                let again = self.acquired(tid).after_release(handle, now).acquired(tid);
                &&& again.threads[tid as int].busy()
                &&& again.acquired_handle(tid) != handle
                &&& again.released(handle) == again
                &&& again.after_release(handle, later).threads[tid as int].busy()
            }),
    {
        let handle = self.acquired_handle(tid);
        self.lemma_registered_wf(tid);
        self.lemma_acquired_wf(tid);
        self.lemma_one_handle(tid, now);
        let reg = self.registered(tid);
        let held = self.acquired(tid);
        let store = reg.threads[tid as int];
        assert(reg.store_wf(tid as int));
        lemma_handle_word_parts(store.tid, 0, store.curr_seq);
        let rel = held.released(handle);
        held.lemma_released_wf(handle);
        let freed = held.after_release(handle, now);
        held.lemma_after_release_wf(handle, now);
        rel.lemma_reclaimed_after_frame(tid, now, tid as int);
        let again = freed.acquired(tid);
        freed.lemma_acquired_wf(tid);
        assert(freed.registered(tid) == freed);
        let next = freed.threads[tid as int];
        assert(next.curr_seq != store.curr_seq);
        lemma_handle_word_parts(next.tid, 0, next.curr_seq);
        assert(again.registered(tid) == again);
        assert(!again.threads[tid as int].accepts(VersionHandle { data: handle }));
        assert(again.threads.update(tid as int, again.threads[tid as int]) =~= again.threads);
        again.lemma_released_wf(handle);
        again.lemma_reclaimed_after_frame(tid, later, tid as int);
    }

    /// Whether the thread `tid` is the only one that may hold a version, and
    /// `handle` is the handle that its store takes back.
    pub open spec fn expects(self, tid: u16, handle: u64) -> bool {
        &&& tid < MAX_THREAD_COUNT
        &&& (VersionHandle { data: handle }).spec_tid() == tid
        &&& self.threads[tid as int].enabled
        &&& self.threads[tid as int].accepts(VersionHandle { data: handle })
        &&& forall|i: int|
            0 <= i < MAX_THREAD_COUNT && i != tid ==> !(#[trigger] self.threads[i]).busy()
    }

    /// The reclamation that follows a release or a retired node changes no
    /// store but in the nodes that wait in it and in the version of its last
    /// scan.
    pub proof fn lemma_reclaimed_after_frame(self, tid: u16, now: i64, i: int)
        requires
            self.wf(),
            tid < MAX_THREAD_COUNT,
            0 <= i < MAX_THREAD_COUNT,
        ensures
            self.reclaimed_after(tid, now).version == self.version,
            self.reclaimed_after(tid, now).order == self.order,
            self.reclaimed_after(tid, now).threads[i].enabled == self.threads[i].enabled,
            self.reclaimed_after(tid, now).threads[i].tid == self.threads[i].tid,
            self.reclaimed_after(tid, now).threads[i].curr_seq == self.threads[i].curr_seq,
            self.reclaimed_after(tid, now).threads[i].curr_version == self.threads[i].curr_version,
            self.reclaimed_after(tid, now).threads[i].next == self.threads[i].next,
    {
    }

    /// While nobody holds a version, a thread that acquires is the only one
    /// that holds one, and its store takes back the handle that it was given.
    pub proof fn lemma_acquired_expects(self, tid: u16)
        requires
            self.wf(),
            self.idle(),
            tid < MAX_THREAD_COUNT,
        ensures
            self.acquire_status(tid) == Status::Success,
            self.acquired(tid).expects(tid, self.acquired_handle(tid)),
            self.acquired(tid).version == self.version,
    {
        self.lemma_registered_wf(tid);
        let reg = self.registered(tid);
        let store = reg.threads[tid as int];
        assert(!self.threads[tid as int].busy());
        assert(reg.store_wf(tid as int));
        lemma_handle_word_parts(store.tid, 0, store.curr_seq);
        let held = self.acquired(tid);
        assert forall|i: int| 0 <= i < MAX_THREAD_COUNT && i != tid implies !(
        #[trigger] held.threads[i]).busy() by {
            assert(!self.threads[i].busy());
        }
    }

    /// A node that the only holder of a version retires leaves it the only
    /// holder, with the same handle.
    pub proof fn lemma_add_node_expects(self, tid: u16, handle: u64, node: Option<T>, now: i64)
        requires
            self.wf(),
            self.can_add_node(),
            self.expects(tid, handle),
        ensures
            self.after_add_node(tid, node, now).expects(tid, handle),
            self.after_add_node(tid, node, now).version <= self.version + 1,
    {
        if node is Some {
            let added = self.node_added(tid, node->0);
            self.lemma_node_added_wf(tid, node->0);
            let after = self.after_add_node(tid, node, now);
            assert forall|i: int| 0 <= i < MAX_THREAD_COUNT && i != tid implies !(
            #[trigger] after.threads[i]).busy() by {
                added.lemma_reclaimed_after_frame(tid, now, i);
                assert(!self.threads[i].busy());
            }
            added.lemma_reclaimed_after_frame(tid, now, tid as int);
        }
    }

    /// Once the only holder of a version has released it, nobody holds one.
    pub proof fn lemma_release_idle(self, tid: u16, handle: u64, now: i64)
        requires
            self.wf(),
            self.expects(tid, handle),
        ensures
            self.after_release(handle, now).idle(),
            self.after_release(handle, now).version == self.version,
    {
        let rel = self.released(handle);
        self.lemma_released_wf(handle);
        let after = self.after_release(handle, now);
        assert forall|i: int| 0 <= i < MAX_THREAD_COUNT implies !(
        #[trigger] after.threads[i]).busy() by {
            rel.lemma_reclaimed_after_frame(tid, now, i);
            if i != tid {
                assert(!self.threads[i].busy());
            }
        }
    }

    /// While nobody holds a version, `retire` and `destroy` leave it so, and
    /// they leave the global version as it is.
    pub proof fn lemma_retire_idle(self, tid: u16, now: i64)
        requires
            self.wf(),
            self.idle(),
        ensures
            self.after_retire(tid, now).idle(),
            self.after_destroy(tid, now).idle(),
            self.after_retire(tid, now).version == self.version,
            self.after_destroy(tid, now).version == self.version,
    {
        let after = self.after_retire(tid, now);
        assert forall|i: int| 0 <= i < MAX_THREAD_COUNT implies !(
        #[trigger] after.threads[i]).busy() by {
            assert(!self.threads[i].busy());
        }
        let gone = self.after_destroy(tid, now);
        assert forall|i: int| 0 <= i < MAX_THREAD_COUNT implies !(
        #[trigger] gone.threads[i]).busy() by {
            assert(!after.threads[i].busy());
        }
    }
}

} // verus!
