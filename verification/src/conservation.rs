//! No operation of the engine loses a retired node or makes two of one.
//!
//! The statements count how often a node waits. A node that is taken over
//! waits once; a scan leaves the count of every node retired above its
//! version as it is and takes the count of every other node to zero; and no
//! node ever waits more than once.
use crate::hazard_epoch::{HazardEpochView, MAX_THREAD_COUNT};
use crate::hazard_pointer::{
    lemma_partition_push, reclaimable, survivors, BaseHazardNode, ThreadStoreView, VersionHandle,
};
use vstd::multiset::*;
use vstd::prelude::*;
use vstd::seq_lib::*;

verus! {

/// How often `node` is in `list`.
pub open spec fn times_in<T>(list: Seq<BaseHazardNode<T>>, node: BaseHazardNode<T>) -> nat {
    list.to_multiset().count(node)
}

/// How often `node` waits in `threads`, all stores together.
pub open spec fn waiting_times<T>(
    threads: Seq<ThreadStoreView<T>>,
    node: BaseHazardNode<T>,
) -> nat
    decreases threads.len(),
{
    if threads.len() == 0 {
        0
    } else {
        waiting_times(threads.drop_last(), node) + times_in(threads.last().waiting, node)
    }
}

/// A node is as often in two lists put together as in the one and the other.
pub proof fn lemma_times_in_add<T>(
    a: Seq<BaseHazardNode<T>>,
    b: Seq<BaseHazardNode<T>>,
    node: BaseHazardNode<T>,
)
    ensures
        times_in(a + b, node) == times_in(a, node) + times_in(b, node),
        times_in(Seq::<BaseHazardNode<T>>::empty(), node) == 0,
        times_in(seq![node], node) == 1,
        a.contains(node) <==> times_in(a, node) > 0,
{
    broadcast use group_multiset_axioms;

    lemma_multiset_commutative(a, b);
    a.to_multiset_ensures();
    let none = Seq::<BaseHazardNode<T>>::empty();
    none.to_multiset_ensures();
    assert(!none.contains(node));
    to_multiset_build(none, node);
    assert(none.push(node) =~= seq![node]);
}

/// A node retired above `version` is as often among the kept nodes as in the
/// list, and not among the destroyed ones; for a node retired at or below
/// `version` it is the other way round.
pub proof fn lemma_times_in_partition<T>(
    list: Seq<BaseHazardNode<T>>,
    version: u64,
    node: BaseHazardNode<T>,
)
    ensures
        times_in(survivors(list, version), node) == if node.version > version {
            times_in(list, node)
        } else {
            0
        },
        times_in(reclaimable(list, version), node) == if node.version > version {
            0
        } else {
            times_in(list, node)
        },
    decreases list.len(),
{
    broadcast use group_multiset_axioms;

    reveal(Seq::filter);
    if list.len() == 0 {
        lemma_times_in_add(list, list, node);
        assert(survivors(list, version) =~= Seq::<BaseHazardNode<T>>::empty());
        assert(reclaimable(list, version) =~= Seq::<BaseHazardNode<T>>::empty());
        assert(list =~= Seq::<BaseHazardNode<T>>::empty());
    } else {
        let front = list.drop_last();
        let last = list.last();
        lemma_times_in_partition(front, version, node);
        assert(front.push(last) =~= list);
        lemma_partition_push(front, last, version);
        to_multiset_build(front, last);
        to_multiset_build(survivors(front, version), last);
        to_multiset_build(reclaimable(front, version), last);
    }
}

/// Replacing one store changes how often a node waits by the difference of
/// the two stores.
pub proof fn lemma_waiting_times_update<T>(
    threads: Seq<ThreadStoreView<T>>,
    i: int,
    store: ThreadStoreView<T>,
    node: BaseHazardNode<T>,
)
    requires
        0 <= i < threads.len(),
    ensures
        waiting_times(threads.update(i, store), node) == waiting_times(threads, node) - times_in(
            threads[i].waiting,
            node,
        ) + times_in(store.waiting, node),
        times_in(threads[i].waiting, node) <= waiting_times(threads, node),
    decreases threads.len(),
{
    let updated = threads.update(i, store);
    if i == threads.len() - 1 {
        assert(updated.drop_last() =~= threads.drop_last());
    } else {
        assert(updated.drop_last() =~= threads.drop_last().update(i, store));
        lemma_waiting_times_update(threads.drop_last(), i, store, node);
    }
}

/// A node waits in none of the stores exactly if it waits zero times.
pub proof fn lemma_waiting_times_zero<T>(threads: Seq<ThreadStoreView<T>>, node: BaseHazardNode<T>)
    ensures
        waiting_times(threads, node) == 0 <==> forall|i: int|
            0 <= i < threads.len() ==> !(#[trigger] threads[i]).waiting.contains(node),
    decreases threads.len(),
{
    if threads.len() > 0 {
        let front = threads.drop_last();
        lemma_waiting_times_zero(front, node);
        lemma_times_in_add(threads.last().waiting, threads.last().waiting, node);
        if waiting_times(threads, node) == 0 {
            assert forall|i: int| 0 <= i < threads.len() implies !(
            #[trigger] threads[i]).waiting.contains(node) by {
                if i < front.len() {
                    assert(front[i] == threads[i]);
                }
            }
        }
        if forall|i: int|
            0 <= i < threads.len() ==> !(#[trigger] threads[i]).waiting.contains(node) {
            assert forall|i: int| 0 <= i < front.len() implies !(
            #[trigger] front[i]).waiting.contains(node) by {
                assert(front[i] == threads[i]);
            }
            assert(!threads[threads.len() - 1].waiting.contains(node));
        }
    }
}

impl<T> HazardEpochView<T> {
    /// How often `node` waits.
    pub open spec fn times_waiting(self, node: BaseHazardNode<T>) -> nat {
        waiting_times(self.threads, node)
    }

    /// No node waits more than once.
    pub open spec fn unique(self) -> bool {
        forall|node: BaseHazardNode<T>| #[trigger] self.times_waiting(node) <= 1
    }

    /// A node waits, in the sense of `waits`, exactly if it waits at least
    /// once.
    pub proof fn lemma_times_waiting_waits(self, node: BaseHazardNode<T>)
        requires
            self.wf(),
        ensures
            self.waits(node) <==> self.times_waiting(node) > 0,
    {
        lemma_waiting_times_zero(self.threads, node);
        if self.waits(node) {
            let i = choose|i: int| self.waits_in(i, node);
            assert(self.threads[i].waiting.contains(node));
        }
        if self.times_waiting(node) > 0 {
            let i = choose|i: int|
                0 <= i < self.threads.len() && (#[trigger] self.threads[i]).waiting.contains(node);
            assert(self.waits_in(i, node));
        }
    }

    /// A scan of one store into itself leaves the count of a node retired
    /// above its version as it is, and raises no count.
    pub proof fn lemma_scanned_local_times(self, tid: u16, version: u64, node: BaseHazardNode<T>)
        requires
            self.wf(),
            tid < MAX_THREAD_COUNT,
        ensures
            node.version > version ==> self.scanned_local(tid, version).times_waiting(node)
                == self.times_waiting(node),
            self.scanned_local(tid, version).times_waiting(node) <= self.times_waiting(node),
    {
        let own = self.threads[tid as int];
        let kept = self.scanned_local(tid, version).threads[tid as int];
        lemma_times_in_partition(own.waiting, version, node);
        lemma_times_in_add(Seq::empty(), own.scan_moved(version), node);
        lemma_times_in_add(own.waiting, own.scan_moved(version), node);
        lemma_waiting_times_update(self.threads, tid as int, kept, node);
    }

    /// A scan of one store into another leaves the count of a node retired
    /// above its version as it is, and raises no count.
    pub proof fn lemma_donated_times(
        self,
        from: u16,
        to: u16,
        version: u64,
        node: BaseHazardNode<T>,
    )
        requires
            self.wf(),
            from < MAX_THREAD_COUNT,
            to < MAX_THREAD_COUNT,
            from != to,
        ensures
            node.version > version ==> self.donated(from, to, version).times_waiting(node)
                == self.times_waiting(node),
            self.donated(from, to, version).times_waiting(node) <= self.times_waiting(node),
    {
        let giver = self.threads[from as int];
        let taker = self.threads[to as int];
        let moved = giver.scan_moved(version);
        let middle = self.with_store(from, giver.scanned(version));
        lemma_times_in_partition(giver.waiting, version, node);
        lemma_times_in_add(taker.waiting, moved, node);
        lemma_waiting_times_update(self.threads, from as int, giver.scanned(version), node);
        lemma_waiting_times_update(middle.threads, to as int, taker.with_nodes(moved), node);
    }

    /// Each step of the scan of all stores leaves the count of a node retired
    /// above its version as it is, and raises no count.
    pub proof fn lemma_flushed_upto_times(
        self,
        tid: u16,
        version: u64,
        k: int,
        node: BaseHazardNode<T>,
    )
        requires
            self.wf(),
            tid < MAX_THREAD_COUNT,
            self.threads[tid as int].enabled,
            version <= self.version,
            0 <= k <= self.order.len(),
        ensures
            node.version > version ==> self.flushed_upto(tid, version, k).times_waiting(node)
                == self.times_waiting(node),
            self.flushed_upto(tid, version, k).times_waiting(node) <= self.times_waiting(node),
        decreases k,
    {
        if k == 0 {
            self.lemma_flushed_upto_start(tid, version);
            self.lemma_scanned_local_times(tid, version, node);
        } else {
            self.lemma_flushed_upto_times(tid, version, k - 1, node);
            self.lemma_flushed_upto_wf(tid, version, k - 1);
            self.lemma_flushed_upto_step(tid, version, k - 1);
            assert(self.link_wf(k - 1));
            let from = self.order[k - 1];
            if from != tid {
                let before = self.flushed_upto(tid, version, k - 1);
                before.lemma_donated_times(from, tid, version, node);
            }
        }
    }

    /// A scan of all stores at `version` leaves every node retired above
    /// `version` waiting as often as before, and no other node waiting at
    /// all: no node is lost, and none is there twice.
    pub proof fn lemma_flushed_times(self, tid: u16, version: u64, node: BaseHazardNode<T>)
        requires
            self.wf(),
            tid < MAX_THREAD_COUNT,
            self.threads[tid as int].enabled,
            version <= self.version,
        ensures
            self.flushed(tid, version).times_waiting(node) == if node.version > version {
                self.times_waiting(node)
            } else {
                0
            },
    {
        self.lemma_flushed_upto_times(tid, version, self.order.len() as int, node);
        self.lemma_flushed_upto_end(tid, version);
        self.lemma_flushed_wf(tid, version);
        self.lemma_flushed_waits(tid, version, node);
        self.flushed(tid, version).lemma_times_waiting_waits(node);
    }

    /// The reclamation that follows a release or a retired node raises no
    /// count, and leaves the count of a node as it is that was retired above
    /// a version which some thread holds.
    pub proof fn lemma_reclaimed_after_times(self, tid: u16, now: i64, node: BaseHazardNode<T>)
        requires
            self.wf(),
            tid < MAX_THREAD_COUNT,
            self.threads[tid as int].enabled,
        ensures
            self.reclaimed_after(tid, now).times_waiting(node) <= self.times_waiting(node),
            (exists|r: int| self.pins(r, node)) ==> self.reclaimed_after(tid, now).times_waiting(
                node,
            ) == self.times_waiting(node),
            self.global_flush(tid, now).times_waiting(node) == if node.version
                > self.min_version_at(true, now) {
                self.times_waiting(node)
            } else {
                0
            },
    {
        self.lemma_with_min_version_wf(false, now);
        self.lemma_with_min_version_wf(true, now);
        let cached = self.with_min_version(false, now);
        let fresh = self.with_min_version(true, now);
        cached.lemma_scanned_local_times(tid, self.min_version_at(false, now), node);
        fresh.lemma_flushed_times(tid, self.min_version_at(true, now), node);
        if exists|r: int| self.pins(r, node) {
            let r = choose|r: int| self.pins(r, node);
            assert(self.threads[r].busy());
        }
    }

    /// `retire` destroys the nodes retired at or below the minimum version
    /// that the stores show, each of them wherever it waits, and no other
    /// node: a node retired above that version waits as often as before.
    pub proof fn lemma_retire_conserves(self, tid: u16, now: i64, node: BaseHazardNode<T>)
        requires
            self.wf(),
            tid < MAX_THREAD_COUNT,
        ensures
            self.after_retire(tid, now).times_waiting(node) == if node.version
                > self.scan_min_version() {
                self.times_waiting(node)
            } else {
                0
            },
    {
        self.lemma_registered_wf(tid);
        let reg = self.registered(tid);
        reg.lemma_reclaimed_after_times(tid, now, node);
        lemma_waiting_times_update(self.threads, tid as int, reg.threads[tid as int], node);
        self.lemma_registered_min_version(tid, self.order.len() as int);
    }

    /// Handing a thread its store changes nothing in what a scan of the
    /// stores finds.
    pub proof fn lemma_registered_min_version(self, tid: u16, k: int)
        requires
            self.wf(),
            tid < MAX_THREAD_COUNT,
            0 <= k <= self.order.len(),
        ensures
            self.registered(tid).min_version_over(
                if self.threads[tid as int].enabled {
                    k
                } else {
                    k + 1
                },
            ) == self.min_version_over(k),
        decreases k,
    {
        let reg = self.registered(tid);
        assert(self.store_wf(tid as int));
        if self.threads[tid as int].enabled {
            if k > 0 {
                self.lemma_registered_min_version(tid, k - 1);
            }
        } else {
            if k > 0 {
                self.lemma_registered_min_version(tid, k - 1);
                assert(self.link_wf(k - 1));
                assert(reg.order[k] == self.order[k - 1]);
                assert(reg.threads[reg.order[k] as int] == self.threads[self.order[k - 1] as int]);
            } else {
                assert(reg.order[0] == tid);
                assert(reg.min_version_over(0) == self.version);
                assert(reg.threads[tid as int].curr_version == crate::hazard_pointer::NO_VERSION);
            }
        }
    }

    /// `release` raises no count, and leaves the count of a node as it is
    /// that was retired above a version which some thread still holds.
    pub proof fn lemma_release_conserves(self, handle: u64, now: i64, node: BaseHazardNode<T>)
        requires
            self.wf(),
        ensures
            self.after_release(handle, now).times_waiting(node) <= self.times_waiting(node),
            (exists|r: int| self.released(handle).pins(r, node)) ==> self.after_release(
                handle,
                now,
            ).times_waiting(node) == self.times_waiting(node),
    {
        let tid = (VersionHandle { data: handle }).spec_tid();
        if tid < MAX_THREAD_COUNT {
            self.lemma_registered_wf(tid);
            self.lemma_released_wf(handle);
            let reg = self.registered(tid);
            let rel = self.released(handle);
            lemma_waiting_times_update(self.threads, tid as int, reg.threads[tid as int], node);
            lemma_waiting_times_update(reg.threads, tid as int, rel.threads[tid as int], node);
            rel.lemma_reclaimed_after_times(tid, now, node);
        }
    }

    /// A node that is taken over waits once before the reclamation that
    /// follows, and every other node as often as before.
    pub proof fn lemma_node_added_times(self, tid: u16, obj: T, node: BaseHazardNode<T>)
        requires
            self.wf(),
            self.can_add_node(),
            tid < MAX_THREAD_COUNT,
        ensures
            self.node_added(tid, obj).times_waiting(node) == if node == (BaseHazardNode {
                obj,
                version: (self.version + 1) as u64,
            }) {
                1nat
            } else {
                self.times_waiting(node)
            },
    {
        self.lemma_registered_wf(tid);
        let reg = self.registered(tid);
        let added = self.node_added(tid, obj);
        let new_node = BaseHazardNode { obj, version: (self.version + 1) as u64 };
        let store = reg.threads[tid as int];
        lemma_waiting_times_update(self.threads, tid as int, store, node);
        lemma_waiting_times_update(reg.threads, tid as int, added.threads[tid as int], node);
        lemma_times_in_add(store.waiting, seq![new_node], node);
        if node == new_node {
            lemma_times_in_add(store.waiting, seq![new_node], new_node);
            if self.times_waiting(node) > 0 {
                self.lemma_times_waiting_waits(node);
                let i = choose|i: int| self.waits_in(i, node);
                self.lemma_waiting_version(i, node);
            }
        } else {
            broadcast use group_multiset_axioms;

            let none = Seq::<BaseHazardNode<T>>::empty();
            none.to_multiset_ensures();
            to_multiset_build(none, new_node);
            assert(none.push(new_node) =~= seq![new_node]);
            assert(!none.contains(node));
        }
    }

    /// `add_node` lets the node that is taken over wait at most once and
    /// raises no other count; and it leaves the count of a node as it is that
    /// was retired above a version which some thread holds.
    pub proof fn lemma_add_node_conserves(self, tid: u16, obj: T, now: i64, node: BaseHazardNode<T>)
        requires
            self.wf(),
            self.can_add_node(),
            tid < MAX_THREAD_COUNT,
        ensures
            self.after_add_node(tid, Some(obj), now).times_waiting(node) <= if node
                == (BaseHazardNode { obj, version: (self.version + 1) as u64 }) {
                1nat
            } else {
                self.times_waiting(node)
            },
            (exists|r: int| self.pins(r, node)) ==> self.after_add_node(
                tid,
                Some(obj),
                now,
            ).times_waiting(node) == self.node_added(tid, obj).times_waiting(node),
    {
        self.lemma_node_added_wf(tid, obj);
        self.lemma_node_added_times(tid, obj, node);
        let added = self.node_added(tid, obj);
        added.lemma_reclaimed_after_times(tid, now, node);
        if exists|r: int| self.pins(r, node) {
            let r = choose|r: int| self.pins(r, node);
            assert(self.store_wf(r));
            assert(added.pins(r, node));
        }
    }

    /// At most once: in the engine as it is made no node waits, and no
    /// operation makes a node wait twice.
    pub proof fn lemma_unique(self, tid: u16, handle: u64, node: Option<T>, now: i64)
        requires
            self.wf(),
            self.unique(),
            self.can_add_node(),
        ensures
            HazardEpochView::<T>::initial(
                self.thread_waiting_threshold,
                self.min_version_cache_time_us,
            ).unique(),
            self.acquired(tid).unique(),
            self.after_retire(tid, now).unique(),
            self.after_release(handle, now).unique(),
            self.after_add_node(tid, node, now).unique(),
            self.after_destroy(tid, now).unique(),
    {
        let start = HazardEpochView::<T>::initial(
            self.thread_waiting_threshold,
            self.min_version_cache_time_us,
        );
        assert forall|n: BaseHazardNode<T>| #[trigger] start.times_waiting(n) <= 1 by {
            lemma_waiting_times_zero(start.threads, n);
        }
        assert forall|n: BaseHazardNode<T>| #[trigger] self.acquired(tid).times_waiting(n) <= 1 by {
            assert(self.times_waiting(n) <= 1);
            if tid < MAX_THREAD_COUNT {
                self.lemma_registered_wf(tid);
                let reg = self.registered(tid);
                lemma_waiting_times_update(self.threads, tid as int, reg.threads[tid as int], n);
                lemma_waiting_times_update(
                    reg.threads,
                    tid as int,
                    self.acquired(tid).threads[tid as int],
                    n,
                );
            }
        }
        assert forall|n: BaseHazardNode<T>| #[trigger]
            self.after_retire(tid, now).times_waiting(n) <= 1 by {
            assert(self.times_waiting(n) <= 1);
            if tid < MAX_THREAD_COUNT {
                self.lemma_retire_conserves(tid, now, n);
            }
        }
        assert forall|n: BaseHazardNode<T>| #[trigger]
            self.after_release(handle, now).times_waiting(n) <= 1 by {
            assert(self.times_waiting(n) <= 1);
            self.lemma_release_conserves(handle, now, n);
        }
        assert forall|n: BaseHazardNode<T>| #[trigger]
            self.after_add_node(tid, node, now).times_waiting(n) <= 1 by {
            assert(self.times_waiting(n) <= 1);
            if node is Some && tid < MAX_THREAD_COUNT {
                self.lemma_add_node_conserves(tid, node->0, now, n);
            }
        }
        assert forall|n: BaseHazardNode<T>| #[trigger]
            self.after_destroy(tid, now).times_waiting(n) <= 1 by {
            lemma_waiting_times_zero(self.after_destroy(tid, now).threads, n);
        }
    }
}

} // verus!
