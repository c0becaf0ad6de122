//! A last-in first-out stack whose nodes are reclaimed by a `HazardEpoch`.
use crate::error::Status;
use crate::hazard_epoch::{HazardEpoch, MAX_THREAD_COUNT};
use vstd::prelude::*;

verus! {

/// A node of the stack's chain.
pub struct LIFONode<T> {
    pub value: Option<T>,
}

impl<T> Default for LIFONode<T> {
    fn default() -> (node: Self)
        ensures
            node.value is None,
    {
        LIFONode { value: None }
    }
}

impl<T> LIFONode<T> {
    /// A node that holds `value`.
    pub fn new(value: T) -> (node: Self)
        ensures
            node.value == Some(value),
    {
        LIFONode { value: Some(value) }
    }
}

/// A stack of values of type `T`.
///
/// The stack is a chain of nodes with a value in each. `pop` takes the node
/// at the top off the chain, takes the value out of it, and retires the node
/// to the stack's own `HazardEpoch`, which destroys it once no thread can be
/// looking at it.
pub struct LockFreeStack<T> {
    hazard_epoch: HazardEpoch<LIFONode<T>>,
    nodes: Vec<LIFONode<T>>,
}

impl<T> View for LockFreeStack<T> {
    type V = Seq<T>;

    /// The values in the stack, the one that `pop` returns next last.
    closed spec fn view(&self) -> Seq<T> {
        Seq::new(self.nodes@.len(), |i: int| self.nodes@[i].value->0)
    }
}

impl<T> LockFreeStack<T> {
    /// Every node of the chain holds a value, the engine's invariant holds,
    /// and no thread holds a version.
    pub closed spec fn wf(&self) -> bool {
        &&& self.hazard_epoch.wf()
        &&& self.hazard_epoch@.idle()
        &&& forall|i: int| 0 <= i < self.nodes@.len() ==> (#[trigger] self.nodes@[i]).value is Some
    }

    /// The number of nodes that the stack has retired so far.
    pub closed spec fn retired(&self) -> nat {
        self.hazard_epoch@.version as nat
    }

    /// The number of nodes that the stack has retired so far.
    pub fn retired_count(&self) -> (count: u64)
        requires
            self.wf(),
        ensures
            count == self.retired(),
    {
        self.hazard_epoch.atomic_load_version()
    }

    /// An empty stack, with the engine's default settings.
    pub fn default_new_in_stack() -> (stack: LockFreeStack<T>)
        ensures
            stack.wf(),
            stack@ == Seq::<T>::empty(),
            stack.retired() == 0,
    {
        let stack = LockFreeStack {
            hazard_epoch: HazardEpoch::default_new_in_stack(),
            nodes: Vec::new(),
        };
        proof {
            stack.hazard_epoch.lemma_wf_view();
            assert(stack@ =~= Seq::<T>::empty());
        }
        stack
    }

    /// The same stack as `default_new_in_stack` makes, in a box.
    pub fn default_new_in_heap() -> (stack: Box<Self>)
        ensures
            stack.wf(),
            stack@ == Seq::<T>::empty(),
            stack.retired() == 0,
    {
        Box::new(Self::default_new_in_stack())
    }

    /// Puts `v` on top of the stack, for the thread `tid`.
    pub fn push(&mut self, tid: u16, v: T)
        requires
            old(self).wf(),
        ensures
            final(self).wf(),
            final(self)@ == old(self)@.push(v),
            final(self).retired() == old(self).retired(),
    {
        self.inner_push(tid, v)
    }

    fn inner_push(&mut self, tid: u16, v: T)
        requires
            old(self).wf(),
        ensures
            final(self).wf(),
            final(self)@ == old(self)@.push(v),
            final(self).retired() == old(self).retired(),
    {
        let node = LIFONode::new(v);
        let mut handle: u64 = 0;
        let ghost engine = self.hazard_epoch@;
        proof {
            self.hazard_epoch.lemma_wf_view();
        }
        let status = self.hazard_epoch.acquire(tid, &mut handle);
        self.nodes.push(node);
        proof {
            engine.lemma_acquired_wf(tid);
            if tid < MAX_THREAD_COUNT {
                engine.lemma_acquired_expects(tid);
            }
            assert(self@ =~= old(self)@.push(v));
        }
        if status == Status::Success {
            let ghost held = self.hazard_epoch@;
            proof {
                self.hazard_epoch.lemma_wf_view();
            }
            self.hazard_epoch.release(handle);
            proof {
                let now = choose|now: i64|
                    self.hazard_epoch@ == #[trigger] held.after_release(handle, now);
                held.lemma_release_idle(tid, handle, now);
                held.lemma_after_release_wf(handle, now);
            }
        }
    }

    /// Takes the value on top of the stack, for the thread `tid`. Returns
    /// `None` if the stack is empty.
    pub fn pop(&mut self, tid: u16) -> (ret: Option<T>)
        requires
            old(self).wf(),
            old(self).retired() < i64::MAX,
        ensures
            final(self).wf(),
            ret == if old(self)@.len() > 0 {
                Some(old(self)@.last())
            } else {
                None
            },
            final(self)@ == if old(self)@.len() > 0 {
                old(self)@.drop_last()
            } else {
                old(self)@
            },
            final(self).retired() == old(self).retired() + if old(self)@.len() > 0 && tid
                < MAX_THREAD_COUNT {
                1nat
            } else {
                0nat
            },
    {
        self.inner_pop(tid)
    }

    fn inner_pop(&mut self, tid: u16) -> (ret: Option<T>)
        requires
            old(self).wf(),
            old(self).retired() < i64::MAX,
        ensures
            final(self).wf(),
            ret == if old(self)@.len() > 0 {
                Some(old(self)@.last())
            } else {
                None
            },
            final(self)@ == if old(self)@.len() > 0 {
                old(self)@.drop_last()
            } else {
                old(self)@
            },
            final(self).retired() == old(self).retired() + if old(self)@.len() > 0 && tid
                < MAX_THREAD_COUNT {
                1nat
            } else {
                0nat
            },
    {
        let mut ret: Option<T> = None;
        let mut handle: u64 = 0;
        let ghost engine = self.hazard_epoch@;
        proof {
            self.hazard_epoch.lemma_wf_view();
        }
        let status = self.hazard_epoch.acquire(tid, &mut handle);
        proof {
            engine.lemma_acquired_wf(tid);
            if tid < MAX_THREAD_COUNT {
                engine.lemma_acquired_expects(tid);
            }
        }
        match self.nodes.pop() {
            Some(cur) => {
                let mut cur = cur;
                ret = cur.value.take();
                let ghost held = self.hazard_epoch@;
                let _ = self.hazard_epoch.add_node(tid, Some(cur));
                proof {
                    let now = choose|now: i64|
                        self.hazard_epoch@ == #[trigger] held.after_add_node(tid, Some(cur), now);
                    held.lemma_after_add_node_wf(tid, Some(cur), now);
                    if tid < MAX_THREAD_COUNT {
                        held.lemma_add_node_expects(tid, handle, Some(cur), now);
                    }
                    assert(self@ =~= old(self)@.drop_last());
                }
            },
            None => {
                assert(self@ =~= old(self)@);
            },
        }
        if status == Status::Success {
            let ghost held = self.hazard_epoch@;
            proof {
                self.hazard_epoch.lemma_wf_view();
            }
            self.hazard_epoch.release(handle);
            proof {
                let now = choose|now: i64|
                    self.hazard_epoch@ == #[trigger] held.after_release(handle, now);
                held.lemma_release_idle(tid, handle, now);
                held.lemma_after_release_wf(handle, now);
            }
        }
        ret
    }

    /// Destroys the values in the stack and the nodes that the stack has
    /// retired, for the thread `tid`. The stack is empty afterwards.
    pub fn destroy(&mut self, tid: u16)
        requires
            old(self).wf(),
        ensures
            final(self).wf(),
            final(self)@ == Seq::<T>::empty(),
            final(self).retired() == old(self).retired(),
    {
        self.nodes.clear();
        let ghost held = self.hazard_epoch@;
        proof {
            self.hazard_epoch.lemma_wf_view();
        }
        self.hazard_epoch.destroy(tid);
        proof {
            let now = choose|now: i64|
                self.hazard_epoch@ == #[trigger] held.after_destroy(tid, now);
            held.lemma_after_retire_wf(tid, now);
            held.after_retire(tid, now).lemma_drained_wf();
            held.lemma_retire_idle(tid, now);
            assert(self@ =~= Seq::<T>::empty());
        }
    }
}

} // verus!
