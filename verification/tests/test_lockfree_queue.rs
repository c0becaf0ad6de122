use rs_lockfree::lockfree_queue::{FIFONode, LockFreeQueue};
use std::cell::RefCell;

struct Node<'a, T> {
    cnt: &'a RefCell<i32>,
    v: T,
}

impl<'a, T> Drop for Node<'a, T> {
    fn drop(&mut self) {
        *self.cnt.borrow_mut() += 1;
    }
}

#[test]
fn lockfree_queue_test_base() {
    let mut queue = LockFreeQueue::default_new_in_stack();
    assert!(queue.pop(0).is_none());
    queue.push(0, 1);
    assert_eq!(queue.pop(0).unwrap(), 1);
    let test_num = 100;
    for i in 0..test_num {
        queue.push(0, i);
    }
    for i in 0..test_num {
        assert_eq!(queue.pop(0).unwrap(), i);
    }
}

#[test]
fn lockfree_queue_test_memory_leak() {
    let cnt = RefCell::new(0);
    let mut queue = LockFreeQueue::default_new_in_stack();
    let test_num = 100;
    for i in 0..test_num {
        queue.push(0, Node { cnt: &cnt, v: i });
    }
    assert!(queue.head_value().is_none());
    assert_eq!(*cnt.borrow(), 0);
    for i in 0..test_num {
        assert_eq!(queue.pop(0).unwrap().v, i);
    }
    assert_eq!(*cnt.borrow(), test_num);
}

#[test]
fn queue_in_heap_and_many_threads() {
    let mut queue = LockFreeQueue::<u64>::default_new_in_heap();
    for i in 0..1000u64 {
        queue.push((i % 16) as u16, i);
    }
    for i in 0..1000u64 {
        assert_eq!(queue.pop(((i * 7) % 16) as u16), Some(i));
    }
    assert_eq!(queue.pop(3), None);
    assert_eq!(queue.pop(3), None);
    queue.push(2, 5);
    assert_eq!(queue.pop(9), Some(5));
}

#[test]
fn queue_for_a_thread_without_a_store() {
    let mut queue = LockFreeQueue::<u32>::default_new_in_stack();
    queue.push(16, 1);
    queue.push(0xffff, 2);
    queue.push(0, 3);
    assert_eq!(queue.pop(16), Some(1));
    assert_eq!(queue.pop(0), Some(2));
    assert_eq!(queue.pop(200), Some(3));
    assert_eq!(queue.pop(200), None);
}

#[test]
fn queue_destroy() {
    let cnt = RefCell::new(0);
    let mut queue = LockFreeQueue::default_new_in_stack();
    for i in 0..10 {
        queue.push(1, Node { cnt: &cnt, v: i });
    }
    assert_eq!(queue.pop(1).unwrap().v, 0);
    assert_eq!(*cnt.borrow(), 1);
    queue.destroy(1);
    assert_eq!(*cnt.borrow(), 10);
    assert!(queue.pop(1).is_none());
    assert!(queue.head_value().is_none());
    queue.push(1, Node { cnt: &cnt, v: 77 });
    assert_eq!(queue.pop(1).unwrap().v, 77);
    assert_eq!(*cnt.borrow(), 11);
}

#[test]
fn dropping_the_queue_destroys_its_values() {
    let cnt = RefCell::new(0);
    {
        let mut queue = LockFreeQueue::default_new_in_stack();
        for i in 0..10 {
            queue.push(0, Node { cnt: &cnt, v: i });
        }
        assert_eq!(queue.pop(0).unwrap().v, 0);
    }
    assert_eq!(*cnt.borrow(), 10);
}

#[test]
fn queue_nodes() {
    let node = FIFONode::new(5u8);
    assert_eq!(node.value, Some(5));
    let node = FIFONode::<u8>::default();
    assert_eq!(node.value, None);
}
