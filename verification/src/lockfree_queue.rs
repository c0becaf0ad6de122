//! A first-in first-out queue whose nodes are reclaimed by a `HazardEpoch`.
use crate::error::Status;
use crate::hazard_epoch::{HazardEpoch, MAX_THREAD_COUNT};
use std::collections::VecDeque;
use vstd::prelude::*;

verus! {

/// A node of the queue's chain. The node at the head of the chain holds no
/// value.
pub struct FIFONode<T> {
    pub value: Option<T>,
}

impl<T> Default for FIFONode<T> {
    fn default() -> (node: Self)
        ensures
            node.value is None,
    {
        FIFONode { value: None }
    }
}

impl<T> FIFONode<T> {
    /// A node that holds `value`.
    pub fn new(value: T) -> (node: Self)
        ensures
            node.value == Some(value),
    {
        FIFONode { value: Some(value) }
    }
}

/// A queue of values of type `T`.
///
/// The queue is a chain of nodes. The node at the head holds no value: the
/// values are in the nodes behind it. `pop` takes the value out of the
/// second node, makes that node the head, and retires the old head to the
/// queue's own `HazardEpoch`, which destroys it once no thread can be
/// looking at it.
pub struct LockFreeQueue<T> {
    hazard_epoch: HazardEpoch<FIFONode<T>>,
    nodes: VecDeque<FIFONode<T>>,
}

impl<T> View for LockFreeQueue<T> {
    type V = Seq<T>;

    /// The values in the queue, the one that `pop` returns next first.
    closed spec fn view(&self) -> Seq<T> {
        Seq::new((self.nodes@.len() - 1) as nat, |i: int| self.nodes@[i + 1].value->0)
    }
}

impl<T> LockFreeQueue<T> {
    /// The chain has a head without a value and a value in every other node,
    /// the engine's invariant holds, and no thread holds a version.
    pub closed spec fn wf(&self) -> bool {
        &&& self.hazard_epoch.wf()
        &&& self.hazard_epoch@.idle()
        &&& self.nodes@.len() >= 1
        &&& self.nodes@[0].value is None
        &&& forall|i: int| 1 <= i < self.nodes@.len() ==> (#[trigger] self.nodes@[i]).value is Some
    }

    /// The number of nodes that the queue has retired so far.
    pub closed spec fn retired(&self) -> nat {
        self.hazard_epoch@.version as nat
    }

    /// The number of nodes that the queue has retired so far.
    pub fn retired_count(&self) -> (count: u64)
        requires
            self.wf(),
        ensures
            count == self.retired(),
    {
        self.hazard_epoch.atomic_load_version()
    }

    /// An empty queue, with the engine's default settings.
    pub fn default_new_in_stack() -> (queue: LockFreeQueue<T>)
        ensures
            queue.wf(),
            queue@ == Seq::<T>::empty(),
            queue.retired() == 0,
    {
        let hazard_epoch = HazardEpoch::default_new_in_stack();
        let mut nodes: VecDeque<FIFONode<T>> = VecDeque::new();
        nodes.push_back(FIFONode::default());
        let queue = LockFreeQueue { hazard_epoch, nodes };
        proof {
            queue.hazard_epoch.lemma_wf_view();
            assert(queue@ =~= Seq::<T>::empty());
        }
        queue
    }

    /// The same queue as `default_new_in_stack` makes, in a box.
    pub fn default_new_in_heap() -> (queue: Box<LockFreeQueue<T>>)
        ensures
            queue.wf(),
            queue@ == Seq::<T>::empty(),
            queue.retired() == 0,
    {
        Box::new(Self::default_new_in_stack())
    }

    /// The value in the node at the head of the chain: there is none.
    pub fn head_value(&self) -> (value: Option<&T>)
        requires
            self.wf(),
        ensures
            value is None,
    {
        self.nodes[0].value.as_ref()
    }

    /// Puts `v` at the end of the queue, for the thread `tid`.
    pub fn push(&mut self, tid: u16, v: T)
        requires
            old(self).wf(),
        ensures
            final(self).wf(),
            final(self)@ == old(self)@.push(v),
            final(self).retired() == old(self).retired(),
    {
        self.inner_push(tid, v)
    }

    fn inner_push(&mut self, tid: u16, v: T)
        requires
            old(self).wf(),
        ensures
            final(self).wf(),
            final(self)@ == old(self)@.push(v),
            final(self).retired() == old(self).retired(),
    {
        let node = FIFONode::new(v);
        let mut handle: u64 = 0;
        let ghost engine = self.hazard_epoch@;
        proof {
            self.hazard_epoch.lemma_wf_view();
        }
        let status = self.hazard_epoch.acquire(tid, &mut handle);
        self.nodes.push_back(node);
        proof {
            engine.lemma_acquired_wf(tid);
            if tid < MAX_THREAD_COUNT {
                engine.lemma_acquired_expects(tid);
            }
            assert(self@ =~= old(self)@.push(v));
        }
        if status == Status::Success {
            let ghost held = self.hazard_epoch@;
            proof {
                self.hazard_epoch.lemma_wf_view();
            }
            self.hazard_epoch.release(handle);
            proof {
                let now = choose|now: i64|
                    self.hazard_epoch@ == #[trigger] held.after_release(handle, now);
                held.lemma_release_idle(tid, handle, now);
                held.lemma_after_release_wf(handle, now);
            }
        }
    }

    /// Takes the value at the front of the queue, for the thread `tid`.
    /// Returns `None` if the queue is empty.
    pub fn pop(&mut self, tid: u16) -> (ret: Option<T>)
        requires
            old(self).wf(),
            old(self).retired() < i64::MAX,
        ensures
            final(self).wf(),
            ret == if old(self)@.len() > 0 {
                Some(old(self)@[0])
            } else {
                None
            },
            final(self)@ == if old(self)@.len() > 0 {
                old(self)@.subrange(1, old(self)@.len() as int)
            } else {
                old(self)@
            },
            final(self).retired() == old(self).retired() + if old(self)@.len() > 0 && tid
                < MAX_THREAD_COUNT {
                1nat
            } else {
                0nat
            },
    {
        self.inner_pop(tid)
    }

    fn inner_pop(&mut self, tid: u16) -> (ret: Option<T>)
        requires
            old(self).wf(),
            old(self).retired() < i64::MAX,
        ensures
            final(self).wf(),
            ret == if old(self)@.len() > 0 {
                Some(old(self)@[0])
            } else {
                None
            },
            final(self)@ == if old(self)@.len() > 0 {
                old(self)@.subrange(1, old(self)@.len() as int)
            } else {
                old(self)@
            },
            final(self).retired() == old(self).retired() + if old(self)@.len() > 0 && tid
                < MAX_THREAD_COUNT {
                1nat
            } else {
                0nat
            },
    {
        let mut ret: Option<T> = None;
        let mut handle: u64 = 0;
        let ghost engine = self.hazard_epoch@;
        proof {
            self.hazard_epoch.lemma_wf_view();
        }
        let status = self.hazard_epoch.acquire(tid, &mut handle);
        proof {
            engine.lemma_acquired_wf(tid);
            if tid < MAX_THREAD_COUNT {
                engine.lemma_acquired_expects(tid);
            }
        }
        if self.nodes.len() > 1 {
            let cur = self.nodes.pop_front();
            let next = self.nodes.pop_front();
            match (cur, next) {
                (Some(old_head), Some(node)) => {
                    let mut node = node;
                    ret = node.value.take();
                    self.nodes.push_front(node);
                    let ghost held = self.hazard_epoch@;
                    let _ = self.hazard_epoch.add_node(tid, Some(old_head));
                    proof {
                        let now = choose|now: i64|
                            self.hazard_epoch@ == #[trigger] held.after_add_node(
                                tid,
                                Some(old_head),
                                now,
                            );
                        held.lemma_after_add_node_wf(tid, Some(old_head), now);
                        if tid < MAX_THREAD_COUNT {
                            held.lemma_add_node_expects(tid, handle, Some(old_head), now);
                        }
                        assert(self@ =~= old(self)@.subrange(1, old(self)@.len() as int));
                    }
                },
                _ => {},
            }
        } else {
            assert(self@ =~= old(self)@);
        }
        if status == Status::Success {
            let ghost held = self.hazard_epoch@;
            proof {
                self.hazard_epoch.lemma_wf_view();
            }
            self.hazard_epoch.release(handle);
            proof {
                let now = choose|now: i64|
                    self.hazard_epoch@ == #[trigger] held.after_release(handle, now);
                held.lemma_release_idle(tid, handle, now);
                held.lemma_after_release_wf(handle, now);
            }
        }
        ret
    }

    /// Destroys the values in the queue and the nodes that the queue has
    /// retired, for the thread `tid`. The queue is empty afterwards.
    pub fn destroy(&mut self, tid: u16)
        requires
            old(self).wf(),
        ensures
            final(self).wf(),
            final(self)@ == Seq::<T>::empty(),
            final(self).retired() == old(self).retired(),
    {
        self.nodes.clear();
        self.nodes.push_back(FIFONode::default());
        let ghost held = self.hazard_epoch@;
        proof {
            self.hazard_epoch.lemma_wf_view();
        }
        self.hazard_epoch.destroy(tid);
        proof {
            let now = choose|now: i64|
                self.hazard_epoch@ == #[trigger] held.after_destroy(tid, now);
            held.lemma_after_retire_wf(tid, now);
            held.after_retire(tid, now).lemma_drained_wf();
            held.lemma_retire_idle(tid, now);
            assert(self@ =~= Seq::<T>::empty());
        }
    }
}

} // verus!
