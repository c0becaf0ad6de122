use rs_lockfree::lockfree_stack::{LIFONode, LockFreeStack};
use std::cell::RefCell;

struct Node<'a, T> {
    cnt: &'a RefCell<i32>,
    v: T,
}

impl<'a, T> Drop for Node<'a, T> {
    fn drop(&mut self) {
        *self.cnt.borrow_mut() += 1;
    }
}

#[test]
fn lockfree_stack_test_base() {
    let mut queue = LockFreeStack::default_new_in_stack();
    assert!(queue.pop(0).is_none());
    queue.push(0, 1);
    assert_eq!(queue.pop(0).unwrap(), 1);
    let test_num = 100;
    for i in 0..test_num {
        queue.push(0, i);
    }
    for i in 0..test_num {
        assert_eq!(queue.pop(0).unwrap(), test_num - i - 1);
    }
}

#[test]
fn lockfree_stack_test_memory_leak() {
    let cnt = RefCell::new(0);
    let mut queue = LockFreeStack::default_new_in_stack();
    let test_num = 100;
    for i in 0..test_num {
        queue.push(0, Node { cnt: &cnt, v: i });
    }
    assert_eq!(*cnt.borrow(), 0);
    for i in 0..test_num {
        assert_eq!(queue.pop(0).unwrap().v, test_num - i - 1);
    }
    assert_eq!(*cnt.borrow(), test_num);
}

#[test]
fn stack_in_heap_and_many_threads() {
    let mut stack = LockFreeStack::<u64>::default_new_in_heap();
    for i in 0..1000u64 {
        stack.push((i % 16) as u16, i);
    }
    for i in 0..1000u64 {
        assert_eq!(stack.pop(((i * 7) % 16) as u16), Some(999 - i));
    }
    assert_eq!(stack.pop(3), None);
    stack.push(2, 5);
    stack.push(2, 6);
    assert_eq!(stack.pop(9), Some(6));
    stack.push(2, 7);
    assert_eq!(stack.pop(9), Some(7));
    assert_eq!(stack.pop(9), Some(5));
    assert_eq!(stack.pop(9), None);
}

#[test]
fn stack_for_a_thread_without_a_store() {
    let mut stack = LockFreeStack::<u32>::default_new_in_stack();
    stack.push(16, 1);
    stack.push(0xffff, 2);
    assert_eq!(stack.pop(16), Some(2));
    assert_eq!(stack.pop(0), Some(1));
    assert_eq!(stack.pop(200), None);
}

#[test]
fn stack_destroy() {
    let cnt = RefCell::new(0);
    let mut stack = LockFreeStack::default_new_in_stack();
    for i in 0..10 {
        stack.push(1, Node { cnt: &cnt, v: i });
    }
    assert_eq!(stack.pop(1).unwrap().v, 9);
    assert_eq!(*cnt.borrow(), 1);
    stack.destroy(1);
    assert_eq!(*cnt.borrow(), 10);
    assert!(stack.pop(1).is_none());
    stack.push(1, Node { cnt: &cnt, v: 77 });
    assert_eq!(stack.pop(1).unwrap().v, 77);
    assert_eq!(*cnt.borrow(), 11);
}

#[test]
fn stack_nodes() {
    let node = LIFONode::new(5u8);
    assert_eq!(node.value, Some(5));
    let node = LIFONode::<u8>::default();
    assert_eq!(node.value, None);
}
