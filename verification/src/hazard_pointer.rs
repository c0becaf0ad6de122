//! Version handles, retired nodes and the per-thread store.
use crate::error::Status;
use vstd::prelude::*;

verus! {

/// The version that a thread store shows while its thread holds no handle.
pub const NO_VERSION: u64 = 0xffff_ffff_ffff_ffff;

/// The token that `acquire` hands out: a thread number in the low 16 bits,
/// 16 reserved bits, and the store's release counter in the high 32 bits.
#[derive(PartialEq, Eq, Structural, Copy, Clone, Debug)]
pub struct VersionHandle {
    pub data: u64,
}

/// The 64-bit word that holds the three parts of a handle.
pub open spec fn handle_word(tid: u16, high_bits: u16, seq: u32) -> u64 {
    (tid + high_bits * 0x1_0000 + seq * 0x1_0000_0000) as u64
}

impl VersionHandle {
    /// The thread number held in the handle.
    pub open spec fn spec_tid(self) -> u16 {
        (self.data % 0x1_0000) as u16
    }

    /// The reserved bits of the handle.
    pub open spec fn spec_high_bits(self) -> u16 {
        ((self.data / 0x1_0000) % 0x1_0000) as u16
    }

    /// The release counter held in the handle.
    pub open spec fn spec_seq(self) -> u32 {
        (self.data / 0x1_0000_0000) as u32
    }

    /// The handle as one word.
    #[inline]
    pub fn ver_u64(&self) -> (v: u64)
        ensures
            v == self.data,
    {
        self.data
    }

    /// The handle that the word `uv` stands for.
    #[inline]
    pub fn new(uv: u64) -> (h: VersionHandle)
        ensures
            h.data == uv,
    {
        VersionHandle { data: uv }
    }

    /// Replaces the thread number and keeps the rest.
    #[inline]
    pub fn set_tid(&mut self, tid: u16)
        ensures
            final(self).data == handle_word(tid, old(self).spec_high_bits(), old(self).spec_seq()),
    {
        let data: u64 = self.data;
        assert(((data & 0xffff_ffff_ffff_0000u64) | (tid as u64)) == (tid as u64) + ((data
            / 0x1_0000u64) % 0x1_0000u64) * 0x1_0000u64 + (data / 0x1_0000_0000u64)
            * 0x1_0000_0000u64) by (bit_vector);
        self.data = (data & 0xffff_ffff_ffff_0000u64) | (tid as u64);
    }

    /// The thread number.
    #[inline]
    pub fn tid(&self) -> (tid: u16)
        ensures
            tid == self.spec_tid(),
    {
        let data: u64 = self.data;
        assert((data & 0xffffu64) == data % 0x1_0000u64) by (bit_vector);
        (data & 0xffffu64) as u16
    }

    /// Replaces the reserved bits and keeps the rest.
    #[inline]
    pub fn set_high_bits(&mut self, high_bits: u16)
        ensures
            final(self).data == handle_word(old(self).spec_tid(), high_bits, old(self).spec_seq()),
    {
        let data: u64 = self.data;
        assert(((data & 0xffff_ffff_0000_ffffu64) | ((high_bits as u64) << 16u64)) == (data
            % 0x1_0000u64) + (high_bits as u64) * 0x1_0000u64 + (data / 0x1_0000_0000u64)
            * 0x1_0000_0000u64) by (bit_vector);
        self.data = (data & 0xffff_ffff_0000_ffffu64) | ((high_bits as u64) << 16u64);
    }

    /// The release counter.
    #[inline]
    pub fn seq(&self) -> (seq: u32)
        ensures
            seq == self.spec_seq(),
    {
        let data: u64 = self.data;
        assert((data >> 32u64) == data / 0x1_0000_0000u64) by (bit_vector);
        assert((data >> 32u64) <= 0xffff_ffffu64) by (bit_vector);
        (data >> 32u64) as u32
    }

    /// Replaces the release counter and keeps the rest.
    #[inline]
    pub fn set_seq(&mut self, seq: u32)
        ensures
            final(self).data == handle_word(old(self).spec_tid(), old(self).spec_high_bits(), seq),
    {
        let data: u64 = self.data;
        assert(((data & 0x0000_0000_ffff_ffffu64) | ((seq as u64) << 32u64)) == (data
            % 0x1_0000u64) + ((data / 0x1_0000u64) % 0x1_0000u64) * 0x1_0000u64 + (seq as u64)
            * 0x1_0000_0000u64) by (bit_vector);
        self.data = (data & 0x0000_0000_ffff_ffffu64) | ((seq as u64) << 32u64);
    }
}

/// A handle's word is put together from its three parts, and each part is
/// read back from the word unchanged.
pub proof fn lemma_handle_word_parts(tid: u16, high_bits: u16, seq: u32)
    ensures
        handle_word(tid, high_bits, seq) == tid + high_bits * 0x1_0000 + seq * 0x1_0000_0000,
        (VersionHandle { data: handle_word(tid, high_bits, seq) }).spec_tid() == tid,
        (VersionHandle { data: handle_word(tid, high_bits, seq) }).spec_high_bits() == high_bits,
        (VersionHandle { data: handle_word(tid, high_bits, seq) }).spec_seq() == seq,
{
    let t: u64 = tid as u64;
    let h: u64 = high_bits as u64;
    let s: u64 = seq as u64;
    assert(t + h * 0x1_0000u64 + s * 0x1_0000_0000u64 <= 0xffff_ffff_ffff_ffffu64) by (bit_vector)
        requires
            t <= 0xffffu64,
            h <= 0xffffu64,
            s <= 0xffff_ffffu64,
    ;
    let w: u64 = handle_word(tid, high_bits, seq);
    assert(w % 0x1_0000u64 == t && (w / 0x1_0000u64) % 0x1_0000u64 == h && w / 0x1_0000_0000u64
        == s) by (bit_vector)
        requires
            t <= 0xffffu64,
            h <= 0xffffu64,
            s <= 0xffff_ffffu64,
            w == t + h * 0x1_0000u64 + s * 0x1_0000_0000u64,
    ;
}

/// Every word is the word of its own three parts.
pub proof fn lemma_handle_parts_word(h: VersionHandle)
    ensures
        h.data == handle_word(h.spec_tid(), h.spec_high_bits(), h.spec_seq()),
{
}

/// An object that has been retired, with the version at which it was retired.
/// The node owns the object: the object is destroyed when the node is dropped.
pub struct BaseHazardNode<T> {
    pub obj: T,
    pub version: u64,
}

impl<T> BaseHazardNode<T> {
    /// A node around `obj` that has not been given a version yet.
    pub fn new(obj: T) -> (node: Self)
        ensures
            node.obj == obj,
            node.version == NO_VERSION,
    {
        BaseHazardNode { obj, version: NO_VERSION }
    }

    /// The version at which the object was retired.
    #[inline]
    pub fn version(&self) -> (version: u64)
        ensures
            version == self.version,
    {
        self.version
    }

    /// Sets the version and keeps the object.
    #[inline]
    pub fn set_version(&mut self, version: u64)
        ensures
            final(self).version == version,
            final(self).obj == old(self).obj,
    {
        self.version = version;
    }

    /// The retired object.
    #[inline]
    pub fn trait_obj(&self) -> (obj: &T)
        ensures
            *obj == self.obj,
    {
        &self.obj
    }
}

/// The nodes of `list` that a scan at `version` destroys: those retired at
/// or below it, in the order of the list.
pub open spec fn reclaimable<T>(list: Seq<BaseHazardNode<T>>, version: u64) -> Seq<
    BaseHazardNode<T>,
> {
    list.filter(|node: BaseHazardNode<T>| node.version <= version)
}

/// The nodes of `list` that a scan at `version` keeps: those retired above
/// it, in the order of the list.
pub open spec fn survivors<T>(list: Seq<BaseHazardNode<T>>, version: u64) -> Seq<
    BaseHazardNode<T>,
> {
    list.filter(|node: BaseHazardNode<T>| node.version > version)
}

/// What one more node adds to the two parts of a list.
pub proof fn lemma_partition_push<T>(
    list: Seq<BaseHazardNode<T>>,
    node: BaseHazardNode<T>,
    version: u64,
)
    ensures
        reclaimable(list.push(node), version) == if node.version <= version {
            reclaimable(list, version).push(node)
        } else {
            reclaimable(list, version)
        },
        survivors(list.push(node), version) == if node.version > version {
            survivors(list, version).push(node)
        } else {
            survivors(list, version)
        },
{
    reveal(Seq::filter);
    assert(list.push(node).drop_last() =~= list);
}

/// The two parts of a list hold its nodes and no others.
pub proof fn lemma_partition_len<T>(list: Seq<BaseHazardNode<T>>, version: u64)
    ensures
        reclaimable(list, version).len() + survivors(list, version).len() == list.len(),
    decreases list.len(),
{
    reveal(Seq::filter);
    if list.len() > 0 {
        lemma_partition_len(list.drop_last(), version);
    }
}

/// The kept nodes are the nodes of the list that were retired above
/// `version`, and the destroyed ones those retired at or below it.
pub proof fn lemma_partition_nodes<T>(list: Seq<BaseHazardNode<T>>, version: u64)
    ensures
        forall|j: int|
            0 <= j < survivors(list, version).len() ==> (#[trigger] survivors(
                list,
                version,
            )[j]).version > version && list.contains(survivors(list, version)[j]),
        forall|j: int|
            0 <= j < reclaimable(list, version).len() ==> (#[trigger] reclaimable(
                list,
                version,
            )[j]).version <= version && list.contains(reclaimable(list, version)[j]),
        forall|j: int|
            0 <= j < list.len() ==> if (#[trigger] list[j]).version > version {
                survivors(list, version).contains(list[j])
            } else {
                reclaimable(list, version).contains(list[j])
            },
    decreases list.len(),
{
    reveal(Seq::filter);
    if list.len() > 0 {
        let front = list.drop_last();
        let node = list.last();
        lemma_partition_nodes(front, version);
        assert(front.push(node) =~= list);
        lemma_partition_push(front, node, version);
        let kept = survivors(list, version);
        let gone = reclaimable(list, version);
        let kept_front = survivors(front, version);
        let gone_front = reclaimable(front, version);
        assert forall|j: int| 0 <= j < kept.len() implies (#[trigger] kept[j]).version > version
            && list.contains(kept[j]) by {
            if j < kept_front.len() {
                assert(kept[j] == kept_front[j]);
                assert(front.contains(kept_front[j]));
                let k = choose|k: int| 0 <= k < front.len() && front[k] == kept_front[j];
                assert(list[k] == kept[j]);
            } else {
                assert(kept[j] == list[list.len() - 1]);
            }
        }
        assert forall|j: int| 0 <= j < gone.len() implies (#[trigger] gone[j]).version <= version
            && list.contains(gone[j]) by {
            if j < gone_front.len() {
                assert(gone[j] == gone_front[j]);
                assert(front.contains(gone_front[j]));
                let k = choose|k: int| 0 <= k < front.len() && front[k] == gone_front[j];
                assert(list[k] == gone[j]);
            } else {
                assert(gone[j] == list[list.len() - 1]);
            }
        }
        assert forall|j: int| 0 <= j < list.len() implies if (#[trigger] list[j]).version
            > version {
            kept.contains(list[j])
        } else {
            gone.contains(list[j])
        } by {
            if j < front.len() {
                assert(list[j] == front[j]);
                if list[j].version > version {
                    let k = choose|k: int| 0 <= k < kept_front.len() && kept_front[k] == front[j];
                    assert(kept[k] == list[j]);
                } else {
                    let k = choose|k: int| 0 <= k < gone_front.len() && gone_front[k] == front[j];
                    assert(gone[k] == list[j]);
                }
            } else {
                if node.version > version {
                    assert(kept[kept.len() - 1] == list[j]);
                } else {
                    assert(gone[gone.len() - 1] == list[j]);
                }
            }
        }
    }
}

/// Splits `list` into the nodes retired at or below `version` and the nodes
/// retired above it. Each part keeps the order of the list.
pub fn partition_by_version<T>(list: Vec<BaseHazardNode<T>>, version: u64) -> (parts: (
    Vec<BaseHazardNode<T>>,
    Vec<BaseHazardNode<T>>,
))
    ensures
        parts.0@ == reclaimable(list@, version),
        parts.1@ == survivors(list@, version),
{
    let ghost orig = list@;
    let mut list = list;
    let mut rev: Vec<BaseHazardNode<T>> = Vec::new();
    while list.len() > 0
        invariant
            list@.len() + rev@.len() == orig.len(),
            forall|i: int| 0 <= i < list@.len() ==> list@[i] == orig[i],
            forall|i: int| 0 <= i < rev@.len() ==> rev@[i] == orig[orig.len() - 1 - i],
        decreases list@.len(),
    {
        match list.pop() {
            Some(node) => {
                rev.push(node);
            },
            None => {},
        }
    }
    let mut retire_list: Vec<BaseHazardNode<T>> = Vec::new();
    let mut move_list: Vec<BaseHazardNode<T>> = Vec::new();
    proof {
        reveal(Seq::filter);
        assert(orig.take(0) =~= Seq::empty());
    }
    while rev.len() > 0
        invariant
            rev@.len() <= orig.len(),
            forall|i: int| 0 <= i < rev@.len() ==> rev@[i] == orig[orig.len() - 1 - i],
            retire_list@ == reclaimable(orig.take(orig.len() - rev@.len()), version),
            move_list@ == survivors(orig.take(orig.len() - rev@.len()), version),
        decreases rev@.len(),
    {
        let ghost done = orig.len() - rev@.len();
        match rev.pop() {
            Some(node) => {
                proof {
                    assert(node == orig[done]);
                    assert(orig.take(done + 1) =~= orig.take(done).push(node));
                    lemma_partition_push(orig.take(done), node, version);
                }
                if node.version <= version {
                    retire_list.push(node);
                } else {
                    move_list.push(node);
                }
            },
            None => {},
        }
    }
    proof {
        assert(orig.take(orig.len() as int) =~= orig);
    }
    (retire_list, move_list)
}

/// What a thread store holds, as plain values.
pub struct ThreadStoreView<T> {
    /// Whether the store has been handed to a thread.
    pub enabled: bool,
    /// The number of the thread that owns the store.
    pub tid: u16,
    /// The version of the store's last scan.
    pub last_retire_version: u64,
    /// The number of releases so far, modulo 2^32.
    pub curr_seq: u32,
    /// The version that the thread has acquired, or `NO_VERSION`.
    pub curr_version: u64,
    /// The retired nodes that wait in the store, oldest first. Nodes are
    /// added at the end.
    pub waiting: Seq<BaseHazardNode<T>>,
    /// The store that follows this one in the list of enabled stores.
    pub next: Option<u16>,
}

impl<T> ThreadStoreView<T> {
    /// A store that no thread has used.
    pub open spec fn fresh() -> Self {
        ThreadStoreView {
            enabled: false,
            tid: 0,
            last_retire_version: 0,
            curr_seq: 0,
            curr_version: NO_VERSION,
            waiting: Seq::empty(),
            next: None,
        }
    }

    /// Whether the thread holds a version handle.
    pub open spec fn busy(self) -> bool {
        self.curr_version != NO_VERSION
    }

    /// The store after `acquire` with `version`.
    pub open spec fn acquired(self, version: u64) -> Self {
        if self.busy() {
            self
        } else {
            ThreadStoreView { curr_version: version, ..self }
        }
    }

    /// The handle that `acquire` hands out.
    pub open spec fn handle(self) -> VersionHandle {
        VersionHandle { data: handle_word(self.tid, 0, self.curr_seq) }
    }

    /// Whether `handle` names this store and its current release counter.
    pub open spec fn accepts(self, handle: VersionHandle) -> bool {
        handle.spec_tid() == self.tid && handle.spec_seq() == self.curr_seq
    }

    /// The store after `release` with `handle`.
    pub open spec fn released(self, handle: VersionHandle) -> Self {
        if self.accepts(handle) {
            ThreadStoreView {
                curr_version: NO_VERSION,
                curr_seq: if self.curr_seq == 0xffff_ffffu32 {
                    0u32
                } else {
                    (self.curr_seq + 1) as u32
                },
                ..self
            }
        } else {
            self
        }
    }

    /// Whether a scan at `version` looks at the waiting nodes at all: it does
    /// not when the last scan was made at the same version.
    pub open spec fn scans(self, version: u64) -> bool {
        self.last_retire_version != version
    }

    /// The store after a scan at `version`: no node waits in it any more.
    pub open spec fn scanned(self, version: u64) -> Self {
        if self.scans(version) {
            ThreadStoreView { last_retire_version: version, waiting: Seq::empty(), ..self }
        } else {
            self
        }
    }

    /// The nodes that a scan at `version` destroys.
    pub open spec fn scan_reclaimed(self, version: u64) -> Seq<BaseHazardNode<T>> {
        if self.scans(version) {
            reclaimable(self.waiting, version)
        } else {
            Seq::empty()
        }
    }

    /// The nodes that a scan at `version` hands to the receiver.
    pub open spec fn scan_moved(self, version: u64) -> Seq<BaseHazardNode<T>> {
        if self.scans(version) {
            survivors(self.waiting, version)
        } else {
            Seq::empty()
        }
    }

    /// The store with `nodes` added behind the nodes that wait in it.
    pub open spec fn with_nodes(self, nodes: Seq<BaseHazardNode<T>>) -> Self {
        ThreadStoreView { waiting: self.waiting + nodes, ..self }
    }
}

/// The state that one thread keeps in the engine: the version it has
/// acquired, its release counter, and the nodes it has retired.
pub struct ThreadStore<T> {
    enabled: bool,
    tid: u16,
    last_retire_version: u64,
    curr_seq: u32,
    curr_version: u64,
    hazard_waiting_list: Vec<BaseHazardNode<T>>,
    next: Option<u16>,
}

impl<T> View for ThreadStore<T> {
    type V = ThreadStoreView<T>;

    closed spec fn view(&self) -> ThreadStoreView<T> {
        ThreadStoreView {
            enabled: self.enabled,
            tid: self.tid,
            last_retire_version: self.last_retire_version,
            curr_seq: self.curr_seq,
            curr_version: self.curr_version,
            waiting: self.hazard_waiting_list@,
            next: self.next,
        }
    }
}

impl<T> ThreadStore<T> {
    /// The number of waiting nodes can be reported as an `i64`.
    pub open spec fn wf(&self) -> bool {
        self@.waiting.len() <= i64::MAX
    }

    /// A store that no thread has used.
    pub fn new() -> (store: ThreadStore<T>)
        ensures
            store@ == ThreadStoreView::<T>::fresh(),
            store.wf(),
    {
        ThreadStore {
            enabled: false,
            tid: 0,
            last_retire_version: 0,
            curr_seq: 0,
            curr_version: NO_VERSION,
            hazard_waiting_list: Vec::new(),
            next: None,
        }
    }

    /// Hands the store to the thread `tid`.
    #[inline]
    pub fn set_enabled(&mut self, tid: u16)
        ensures
            final(self)@ == (ThreadStoreView { enabled: true, tid, ..old(self)@ }),
    {
        self.enabled = true;
        self.tid = tid;
    }

    /// Whether the store has been handed to a thread.
    #[inline]
    pub fn is_enabled(&self) -> (enabled: bool)
        ensures
            enabled == self@.enabled,
    {
        self.enabled
    }

    /// The number of the thread that owns the store.
    #[inline]
    pub fn tid(&self) -> (tid: u16)
        ensures
            tid == self@.tid,
    {
        self.tid
    }

    /// Sets the store that follows this one in the list of enabled stores.
    #[inline]
    pub fn set_next(&mut self, next: Option<u16>)
        ensures
            final(self)@ == (ThreadStoreView { next, ..old(self)@ }),
    {
        self.next = next;
    }

    /// The store that follows this one in the list of enabled stores.
    #[inline]
    pub fn next(&self) -> (next: Option<u16>)
        ensures
            next == self@.next,
    {
        self.next
    }

    /// The number of releases so far, modulo 2^32.
    #[inline]
    pub fn curr_seq(&self) -> (seq: u32)
        ensures
            seq == self@.curr_seq,
    {
        self.curr_seq
    }

    /// Counts one more release. The counter wraps round at 2^32.
    #[inline]
    pub fn inc_curr_seq(&mut self)
        ensures
            final(self)@ == (ThreadStoreView {
                curr_seq: if old(self)@.curr_seq == 0xffff_ffffu32 {
                    0u32
                } else {
                    (old(self)@.curr_seq + 1) as u32
                },
                ..old(self)@
            }),
    {
        self.curr_seq = self.curr_seq.wrapping_add(1);
    }

    /// The version that the thread has acquired, or `NO_VERSION`.
    #[inline]
    pub fn curr_version(&self) -> (version: u64)
        ensures
            version == self@.curr_version,
    {
        self.curr_version
    }

    /// Sets the version that the thread has acquired.
    #[inline]
    pub fn set_curr_version(&mut self, version: u64)
        ensures
            final(self)@ == (ThreadStoreView { curr_version: version, ..old(self)@ }),
    {
        self.curr_version = version;
    }

    /// Publishes `version` as the version that the thread has acquired and
    /// writes the handle for it. A thread that already holds a handle is
    /// refused, and nothing changes.
    #[inline]
    pub fn acquire(&mut self, version: u64, handle: &mut VersionHandle) -> (ret: Status)
        ensures
            ret == if old(self)@.busy() {
                Status::Busy
            } else {
                Status::Success
            },
            final(self)@ == old(self)@.acquired(version),
            *final(handle) == if old(self)@.busy() {
                *old(handle)
            } else {
                old(self)@.handle()
            },
    {
        if NO_VERSION != self.curr_version() {
            Status::Busy
        } else {
            self.set_curr_version(version);
            handle.set_tid(self.tid());
            handle.set_high_bits(0);
            handle.set_seq(self.curr_seq());
            proof {
                lemma_handle_word_parts(
                    old(self)@.tid,
                    old(handle).spec_high_bits(),
                    old(handle).spec_seq(),
                );
                lemma_handle_word_parts(old(self)@.tid, 0, old(handle).spec_seq());
            }
            Status::Success
        }
    }

    /// Gives the acquired version up and counts the release. A handle that
    /// names another thread or another release counter changes nothing.
    pub fn release(&mut self, handle: &VersionHandle)
        ensures
            final(self)@ == old(self)@.released(*handle),
    {
        if self.tid() != handle.tid() || self.curr_seq() != handle.seq() {
        } else {
            self.set_curr_version(NO_VERSION);
            self.inc_curr_seq();
        }
    }

    /// Takes over the object `node`, retired at `version`: it waits behind
    /// the nodes that the store holds already.
    pub fn add_node(&mut self, version: u64, node: T) -> (ret: Status)
        requires
            old(self)@.waiting.len() < i64::MAX,
        ensures
            ret == Status::Success,
            final(self)@ == old(self)@.with_nodes(seq![BaseHazardNode { obj: node, version }]),
            final(self).wf(),
    {
        let mut base = BaseHazardNode::new(node);
        base.set_version(version);
        let mut nodes: Vec<BaseHazardNode<T>> = Vec::new();
        nodes.push(base);
        assert(nodes@ =~= seq![BaseHazardNode { obj: node, version }]);
        self.inner_add_nodes(nodes);
        Status::Success
    }

    /// The number of nodes that wait in the store.
    #[inline]
    pub fn get_hazard_waiting_count(&self) -> (count: i64)
        requires
            self.wf(),
        ensures
            count == self@.waiting.len(),
    {
        self.hazard_waiting_list.len() as i64
    }

    /// Scans the waiting nodes against `version`. The nodes retired at or
    /// below it are destroyed; the others leave the store too and are put
    /// behind what `node_receiver` holds, in their order. Returns the number
    /// of nodes destroyed. When the last scan was made at the same version,
    /// nothing is done.
    pub fn retire(
        &mut self,
        version: u64,
        node_receiver: &mut Vec<BaseHazardNode<T>>,
    ) -> (retire_count: i64)
        requires
            old(self).wf(),
        ensures
            final(self)@ == old(self)@.scanned(version),
            final(node_receiver)@ == old(node_receiver)@ + old(self)@.scan_moved(version),
            retire_count == old(self)@.scan_reclaimed(version).len(),
            final(self).wf(),
    {
        if self.last_retire_version == version {
            assert(node_receiver@ + Seq::<BaseHazardNode<T>>::empty() =~= node_receiver@);
            return 0;
        }
        self.last_retire_version = version;
        let mut taken: Vec<BaseHazardNode<T>> = Vec::new();
        core::mem::swap(&mut self.hazard_waiting_list, &mut taken);
        proof {
            lemma_partition_len(taken@, version);
        }
        let (retire_list, mut move_list) = partition_by_version(taken, version);
        let retire_count = retire_list.len() as i64;
        node_receiver.append(&mut move_list);
        Self::retire_hazard_nodes(retire_list);
        retire_count
    }

    /// Destroys the nodes that it is given: they are dropped here, the first
    /// one first, and each object with its node.
    fn retire_hazard_nodes(_list: Vec<BaseHazardNode<T>>) {
    }

    /// The version that the thread has acquired, or `NO_VERSION`.
    #[inline]
    pub fn version(&self) -> (version: u64)
        ensures
            version == self@.curr_version,
    {
        self.curr_version()
    }

    /// Puts `nodes` behind the nodes that wait in the store, in their order.
    pub fn inner_add_nodes(&mut self, nodes: Vec<BaseHazardNode<T>>)
        requires
            old(self)@.waiting.len() + nodes@.len() <= i64::MAX,
        ensures
            final(self)@ == old(self)@.with_nodes(nodes@),
            final(self).wf(),
    {
        let mut nodes = nodes;
        self.hazard_waiting_list.append(&mut nodes);
    }

    /// Destroys every node that waits in the store, whatever its version.
    pub fn destroy(&mut self)
        ensures
            final(self)@ == (ThreadStoreView { waiting: Seq::empty(), ..old(self)@ }),
            final(self).wf(),
    {
        let mut taken: Vec<BaseHazardNode<T>> = Vec::new();
        core::mem::swap(&mut self.hazard_waiting_list, &mut taken);
        Self::retire_hazard_nodes(taken);
    }
}

} // verus!
