use rs_lockfree::error::Status;
use rs_lockfree::hazard_epoch::{HazardEpoch, MAX_THREAD_COUNT};
use std::cell::Cell;
use std::rc::Rc;

struct TestObj {
    cnt: Rc<Cell<i64>>,
    data: Option<i32>,
}

impl Drop for TestObj {
    fn drop(&mut self) {
        self.data.take().unwrap();
        self.cnt.set(self.cnt.get() - 1);
    }
}

impl TestObj {
    fn new(cnt: &Rc<Cell<i64>>) -> TestObj {
        let o = TestObj { cnt: cnt.clone(), data: Some(0) };
        o.cnt.set(o.cnt.get() + 1);
        o
    }
}

/// An object that says in `alive` whether it has been destroyed, and counts
/// its destruction in `destroyed`.
struct Watched {
    alive: Rc<Cell<bool>>,
    destroyed: Rc<Cell<u64>>,
}

impl Drop for Watched {
    fn drop(&mut self) {
        assert!(self.alive.get());
        self.alive.set(false);
        self.destroyed.set(self.destroyed.get() + 1);
    }
}

fn watched(destroyed: &Rc<Cell<u64>>) -> (Watched, Rc<Cell<bool>>) {
    let alive = Rc::new(Cell::new(true));
    (Watched { alive: alive.clone(), destroyed: destroyed.clone() }, alive)
}

#[test]
fn test_hazard_epoch_test_base() {
    let mut he = Box::new(HazardEpoch::<TestObj>::default_new_in_stack());
    let cnt = Rc::new(Cell::new(0i64));
    let mut handle = 0u64;
    let ret = he.acquire(0, &mut handle);
    assert_eq!(ret, Status::Success);
    for i in 0..64i64 {
        let tmp = TestObj::new(&cnt);
        let ret = he.add_node(0, Some(tmp));
        assert_eq!(Status::Success, ret);
        assert_eq!(i + 1, cnt.get());
    }
    he.retire(0);
    assert_eq!(cnt.get(), 64);
    he.release(handle);
    he.retire(0);
    assert_eq!(cnt.get(), 0);

    for i in 0..32i64 {
        assert_eq!(he.add_node(0, Some(TestObj::new(&cnt))), Status::Success);
        assert_eq!(cnt.get(), i + 1);
    }

    assert_eq!(he.acquire(0, &mut handle), Status::Success);
    for i in 32..64i64 {
        let tmp = TestObj::new(&cnt);
        let ret = he.add_node(0, Some(tmp));
        assert_eq!(Status::Success, ret);
        assert_eq!(i + 1, cnt.get());
    }

    he.retire(0);
    assert_eq!(32, cnt.get());
    he.release(handle);
    he.retire(0);
    assert_eq!(cnt.get(), 0);

    for _ in 0..2i64 {
        assert_eq!(he.acquire(0, &mut handle), Status::Success);
        assert_eq!(he.acquire(0, &mut handle), Status::Busy);
        he.release(handle);
    }
}

#[test]
fn new_engine() {
    let he = HazardEpoch::<u32>::new_in_stack(64, 200000);
    assert_eq!(he.atomic_load_version(), 0);
    assert_eq!(he.atomic_load_thread_count(), 0);
    assert_eq!(he.atomic_load_hazard_waiting_count(), 0);
    assert_eq!(he.atomic_load_thread_list(), None);
    let he = HazardEpoch::<u32>::new_in_heap(1, 1);
    assert_eq!(he.atomic_load_version(), 0);
    let he = HazardEpoch::<u32>::default_new_in_heap();
    assert_eq!(he.atomic_load_thread_count(), 0);
    assert_eq!(MAX_THREAD_COUNT, 16);
}

#[test]
fn single_thread_smoke() {
    let mut he = HazardEpoch::<TestObj>::default_new_in_stack();
    let cnt = Rc::new(Cell::new(0i64));
    let mut handle = 0u64;
    assert_eq!(he.acquire(0, &mut handle), Status::Success);
    he.release(handle);
    assert_eq!(he.acquire(0, &mut handle), Status::Success);
    he.release(handle);
    assert_eq!(cnt.get(), 0);
    assert_eq!(he.atomic_load_hazard_waiting_count(), 0);
}

#[test]
fn retire_then_flush() {
    let mut he = HazardEpoch::<TestObj>::default_new_in_stack();
    let cnt = Rc::new(Cell::new(0i64));
    let mut handle = 0u64;
    assert_eq!(he.acquire(0, &mut handle), Status::Success);
    for _ in 0..64 {
        assert_eq!(he.add_node(0, Some(TestObj::new(&cnt))), Status::Success);
    }
    assert_eq!(cnt.get(), 64);
    assert_eq!(he.atomic_load_hazard_waiting_count(), 64);
    he.retire(0);
    assert_eq!(cnt.get(), 64);
    assert_eq!(he.atomic_load_hazard_waiting_count(), 64);
    he.release(handle);
    he.retire(0);
    assert_eq!(cnt.get(), 0);
    assert_eq!(he.atomic_load_hazard_waiting_count(), 0);
}

#[test]
fn busy_detection() {
    let mut he = HazardEpoch::<u32>::default_new_in_stack();
    let mut first = 0u64;
    let mut second = 1234u64;
    assert_eq!(he.acquire(0, &mut first), Status::Success);
    assert_eq!(he.acquire(0, &mut second), Status::Busy);
    assert_eq!(second, 1234);
    he.release(first);
    assert_eq!(he.acquire(0, &mut second), Status::Success);
}

#[test]
fn handles_name_thread_and_release_count() {
    let mut he = HazardEpoch::<u32>::default_new_in_stack();
    let mut handle = 0xffff_ffff_ffff_ffffu64;
    assert_eq!(he.acquire(5, &mut handle), Status::Success);
    assert_eq!(handle, 5);
    he.release(handle);
    assert_eq!(he.acquire(5, &mut handle), Status::Success);
    assert_eq!(handle, 0x0000_0001_0000_0005);
    he.release(handle);
    assert_eq!(he.acquire(5, &mut handle), Status::Success);
    assert_eq!(handle, 0x0000_0002_0000_0005);
    let mut other = 0u64;
    assert_eq!(he.acquire(15, &mut other), Status::Success);
    assert_eq!(other, 15);
}

#[test]
fn stale_and_foreign_handles_are_ignored() {
    let mut he = HazardEpoch::<u32>::default_new_in_stack();
    let mut first = 0u64;
    assert_eq!(he.acquire(0, &mut first), Status::Success);
    he.release(first);
    let mut second = 0u64;
    assert_eq!(he.acquire(0, &mut second), Status::Success);
    assert_eq!(second, 0x0000_0001_0000_0000);

    // The first handle is stale: the version stays acquired.
    he.release(first);
    let mut third = 0u64;
    assert_eq!(he.acquire(0, &mut third), Status::Busy);

    // A handle that names no store changes nothing.
    he.release(16);
    he.release(0xffff_ffff_ffff_ffff);
    assert_eq!(he.acquire(0, &mut third), Status::Busy);
    assert_eq!(he.atomic_load_thread_count(), 1);

    he.release(second);
    assert_eq!(he.acquire(0, &mut third), Status::Success);
    assert_eq!(third, 0x0000_0002_0000_0000);
}

#[test]
fn thread_overflow() {
    let mut he = HazardEpoch::<u32>::default_new_in_stack();
    let mut handles = Vec::new();
    let mut succeeded = 0;
    for tid in 0..20u16 {
        let mut handle = 0u64;
        let ret = he.acquire(tid, &mut handle);
        if tid < 16 {
            assert_eq!(ret, Status::Success);
            succeeded += 1;
            handles.push(handle);
        } else {
            assert_eq!(ret, Status::ThreadNumOverflow);
            assert_eq!(handle, 0);
        }
    }
    assert_eq!(succeeded, 16);
    assert_eq!(he.atomic_load_thread_count(), 16);
    assert_eq!(he.atomic_load_thread_list(), Some(15));
    for handle in handles {
        he.release(handle);
    }
    let mut handle = 0u64;
    assert_eq!(he.acquire(3, &mut handle), Status::Success);
    assert_eq!(he.acquire(0xffff, &mut handle), Status::ThreadNumOverflow);
    assert_eq!(he.get_thread_store(16), Status::ThreadNumOverflow);
    assert_eq!(he.get_thread_store(0), Status::Success);
    assert_eq!(he.retire(16), Status::ThreadNumOverflow);
    assert_eq!(he.retire_at(0xffff, 1), Status::ThreadNumOverflow);
    assert_eq!(he.retire(15), Status::Success);
    assert_eq!(he.atomic_load_thread_count(), 16);
}

#[test]
fn stores_are_enabled_once_and_listed_last_first() {
    let mut he = HazardEpoch::<u32>::default_new_in_stack();
    assert_eq!(he.get_thread_store(4), Status::Success);
    assert_eq!(he.atomic_load_thread_list(), Some(4));
    assert_eq!(he.atomic_load_thread_count(), 1);
    assert_eq!(he.get_thread_store(4), Status::Success);
    assert_eq!(he.atomic_load_thread_count(), 1);
    assert_eq!(he.get_thread_store(2), Status::Success);
    assert_eq!(he.atomic_load_thread_list(), Some(2));
    assert_eq!(he.atomic_load_thread_count(), 2);
    assert_eq!(he.retire(9), Status::Success);
    assert_eq!(he.atomic_load_thread_list(), Some(9));
    assert_eq!(he.atomic_load_thread_count(), 3);
    he.release(7);
    assert_eq!(he.atomic_load_thread_list(), Some(7));
    assert_eq!(he.atomic_load_thread_count(), 4);
    assert_eq!(he.add_node(1, Some(1)), Status::Success);
    assert_eq!(he.atomic_load_thread_list(), Some(1));
    assert_eq!(he.atomic_load_thread_count(), 5);
}

#[test]
fn add_node_errors() {
    let mut he = HazardEpoch::<u32>::default_new_in_stack();
    assert_eq!(he.add_node(0, None), Status::InvalidParam);
    assert_eq!(he.add_node(16, None), Status::InvalidParam);
    assert_eq!(he.atomic_load_thread_count(), 0);
    assert_eq!(he.add_node(16, Some(1)), Status::ThreadNumOverflow);
    assert_eq!(he.atomic_load_version(), 0);
    assert_eq!(he.atomic_load_hazard_waiting_count(), 0);
    assert_eq!(he.add_node(15, Some(1)), Status::Success);
    assert_eq!(he.atomic_load_version(), 1);
    assert_eq!(he.atomic_load_hazard_waiting_count(), 1);
}

#[test]
fn versions_grow_by_one_for_each_node() {
    let mut he = HazardEpoch::<u32>::default_new_in_stack();
    let mut handle = 0u64;
    for i in 0..200u64 {
        assert_eq!(he.atomic_load_version(), i);
        assert_eq!(he.add_node((i % 3) as u16, Some(7)), Status::Success);
        assert_eq!(he.atomic_load_version(), i + 1);
        assert_eq!(he.acquire(5, &mut handle), Status::Success);
        assert_eq!(he.atomic_load_version(), i + 1);
        he.release(handle);
        assert_eq!(he.atomic_load_version(), i + 1);
        he.retire(4);
        assert_eq!(he.atomic_load_version(), i + 1);
    }
}

#[test]
fn minimum_version_and_its_cache() {
    let mut he = HazardEpoch::<u32>::new_in_stack(64, 100);
    assert_eq!(he.get_min_version_at(false, 5), 0);
    assert_eq!(he.add_node(0, Some(1)), Status::Success);
    // A minimum version of 0 is never used again.
    assert_eq!(he.get_min_version_at(false, 6), 1);
    assert_eq!(he.add_node(0, Some(2)), Status::Success);
    assert_eq!(he.get_min_version_at(false, 50), 1);
    assert_eq!(he.get_min_version_at(false, 105), 1);
    assert_eq!(he.get_min_version_at(false, 106), 2);
    assert_eq!(he.add_node(0, Some(3)), Status::Success);
    assert_eq!(he.get_min_version_at(false, 107), 2);
    assert_eq!(he.get_min_version_at(true, 107), 3);

    let mut handle = 0u64;
    assert_eq!(he.acquire(3, &mut handle), Status::Success);
    assert_eq!(he.add_node(0, Some(4)), Status::Success);
    assert_eq!(he.add_node(0, Some(5)), Status::Success);
    assert_eq!(he.atomic_load_version(), 5);
    assert_eq!(he.get_min_version_at(true, 108), 3);
    let mut later = 0u64;
    assert_eq!(he.acquire(4, &mut later), Status::Success);
    assert_eq!(he.get_min_version_at(true, 109), 3);
    he.release(handle);
    assert_eq!(he.get_min_version_at(false, 110), 3);
    assert_eq!(he.get_min_version_at(true, 110), 5);
    he.release(later);
    assert_eq!(he.get_min_version_at(true, 111), 5);
}

#[test]
fn cache_time_at_the_ends_of_the_range() {
    let mut he = HazardEpoch::<u32>::new_in_stack(64, i64::MAX);
    assert_eq!(he.add_node(0, Some(1)), Status::Success);
    assert_eq!(he.get_min_version_at(true, i64::MAX), 1);
    assert_eq!(he.add_node(0, Some(2)), Status::Success);
    // The version was computed at the end of time and never grows old.
    assert_eq!(he.get_min_version_at(false, i64::MAX), 1);
    assert_eq!(he.get_min_version_at(false, i64::MIN), 1);

    let mut he = HazardEpoch::<u32>::new_in_stack(64, i64::MIN);
    assert_eq!(he.add_node(0, Some(1)), Status::Success);
    assert_eq!(he.get_min_version_at(true, i64::MIN), 1);
    assert_eq!(he.add_node(0, Some(2)), Status::Success);
    assert_eq!(he.get_min_version_at(false, i64::MIN), 2);

    let mut he = HazardEpoch::<u32>::new_in_stack(64, 0);
    assert_eq!(he.add_node(0, Some(1)), Status::Success);
    assert_eq!(he.get_min_version_at(true, 10), 1);
    assert_eq!(he.add_node(0, Some(2)), Status::Success);
    assert_eq!(he.get_min_version_at(false, 10), 2);
    assert_eq!(he.add_node(0, Some(3)), Status::Success);
    assert_eq!(he.get_min_version_at(false, 9), 2);
}

#[test]
fn minimum_version_with_the_wall_clock() {
    let mut he = HazardEpoch::<u32>::default_new_in_stack();
    assert_eq!(he.add_node(0, Some(1)), Status::Success);
    assert_eq!(he.get_min_version(true), 1);
    assert_eq!(he.add_node(0, Some(2)), Status::Success);
    // Computed a moment ago: the version is used again for 200 000 microseconds.
    assert_eq!(he.get_min_version(false), 1);
    assert_eq!(he.get_min_version(true), 2);
}

#[test]
fn scan_of_the_own_store_over_the_threshold() {
    let mut he = HazardEpoch::<TestObj>::new_in_stack(2, 1000);
    let cnt = Rc::new(Cell::new(0i64));
    assert_eq!(he.add_node_at(0, Some(TestObj::new(&cnt)), 10), Status::Success);
    assert_eq!(he.add_node_at(0, Some(TestObj::new(&cnt)), 10), Status::Success);
    assert_eq!(he.atomic_load_hazard_waiting_count(), 2);
    assert_eq!(cnt.get(), 2);
    // The third node puts the store over the threshold: it is scanned.
    assert_eq!(he.add_node_at(0, Some(TestObj::new(&cnt)), 10), Status::Success);
    assert_eq!(he.atomic_load_hazard_waiting_count(), 0);
    assert_eq!(cnt.get(), 0);

    assert_eq!(he.add_node_at(0, Some(TestObj::new(&cnt)), 20), Status::Success);
    assert_eq!(he.add_node_at(0, Some(TestObj::new(&cnt)), 20), Status::Success);
    // The minimum version of the time 10 is used again, and the store was
    // scanned at it: nothing is done.
    assert_eq!(he.add_node_at(0, Some(TestObj::new(&cnt)), 20), Status::Success);
    assert_eq!(he.atomic_load_hazard_waiting_count(), 3);
    assert_eq!(cnt.get(), 3);
    assert_eq!(he.add_node_at(0, Some(TestObj::new(&cnt)), 1009), Status::Success);
    assert_eq!(he.atomic_load_hazard_waiting_count(), 4);
    // At the time 1010 it has grown old.
    assert_eq!(he.add_node_at(0, Some(TestObj::new(&cnt)), 1010), Status::Success);
    assert_eq!(he.atomic_load_hazard_waiting_count(), 0);
    assert_eq!(cnt.get(), 0);
    assert_eq!(he.atomic_load_version(), 8);
}

#[test]
fn release_scans_all_stores_when_they_are_over_the_threshold_together() {
    let mut he = HazardEpoch::<TestObj>::new_in_stack(1, 1000);
    let cnt = Rc::new(Cell::new(0i64));
    assert_eq!(he.add_node_at(0, Some(TestObj::new(&cnt)), 1), Status::Success);
    let mut handle = 0u64;
    assert_eq!(he.acquire(2, &mut handle), Status::Success);
    // Over the threshold: the store is scanned at the version 1 that is held.
    assert_eq!(he.add_node_at(0, Some(TestObj::new(&cnt)), 2), Status::Success);
    assert_eq!(he.atomic_load_hazard_waiting_count(), 1);
    assert_eq!(cnt.get(), 1);
    // The version 1 is used again, and the store was scanned at it.
    assert_eq!(he.add_node_at(0, Some(TestObj::new(&cnt)), 3), Status::Success);
    assert_eq!(he.add_node_at(0, Some(TestObj::new(&cnt)), 4), Status::Success);
    assert_eq!(he.atomic_load_hazard_waiting_count(), 3);
    assert_eq!(cnt.get(), 3);
    // Two stores and three nodes: the release scans all stores.
    he.release_at(handle, 5);
    assert_eq!(he.atomic_load_hazard_waiting_count(), 0);
    assert_eq!(cnt.get(), 0);
}

#[test]
fn release_below_the_thresholds_scans_nothing() {
    let mut he = HazardEpoch::<TestObj>::new_in_stack(2, 1000);
    let cnt = Rc::new(Cell::new(0i64));
    let mut handle = 0u64;
    assert_eq!(he.acquire(1, &mut handle), Status::Success);
    assert_eq!(he.add_node_at(1, Some(TestObj::new(&cnt)), 1), Status::Success);
    assert_eq!(he.add_node_at(1, Some(TestObj::new(&cnt)), 1), Status::Success);
    he.release_at(handle, 2);
    assert_eq!(he.atomic_load_hazard_waiting_count(), 2);
    assert_eq!(cnt.get(), 2);
    he.retire_at(1, 3);
    assert_eq!(he.atomic_load_hazard_waiting_count(), 0);
    assert_eq!(cnt.get(), 0);
}

#[test]
fn no_premature_destruction() {
    let mut he = HazardEpoch::<Watched>::default_new_in_stack();
    let destroyed = Rc::new(Cell::new(0u64));
    let mut before = Vec::new();
    for _ in 0..3 {
        let (obj, alive) = watched(&destroyed);
        before.push(alive);
        assert_eq!(he.add_node_at(0, Some(obj), 1), Status::Success);
    }
    let mut handle = 0u64;
    assert_eq!(he.acquire(1, &mut handle), Status::Success);
    let mut after = Vec::new();
    for _ in 0..2 {
        let (obj, alive) = watched(&destroyed);
        after.push(alive);
        assert_eq!(he.add_node_at(0, Some(obj), 2), Status::Success);
    }
    he.retire_at(0, 3);
    // What was retired before the acquisition is gone, what was retired
    // after it is still there.
    assert_eq!(destroyed.get(), 3);
    assert!(before.iter().all(|alive| !alive.get()));
    assert!(after.iter().all(|alive| alive.get()));
    assert_eq!(he.atomic_load_hazard_waiting_count(), 2);
    he.retire_at(2, 4);
    he.retire_at(1, 5);
    assert!(after.iter().all(|alive| alive.get()));
    assert_eq!(he.atomic_load_hazard_waiting_count(), 2);

    he.release_at(handle, 6);
    assert!(after.iter().all(|alive| alive.get()));
    he.retire_at(0, 7);
    assert!(after.iter().all(|alive| !alive.get()));
    assert_eq!(destroyed.get(), 5);
    assert_eq!(he.atomic_load_hazard_waiting_count(), 0);
}

#[test]
fn the_oldest_acquisition_decides() {
    let mut he = HazardEpoch::<Watched>::default_new_in_stack();
    let destroyed = Rc::new(Cell::new(0u64));
    let mut flags = Vec::new();
    let mut handles = [0u64; 3];
    for round in 0..3usize {
        let (obj, alive) = watched(&destroyed);
        flags.push(alive);
        assert_eq!(he.add_node_at(0, Some(obj), 1), Status::Success);
        assert_eq!(he.acquire(round as u16 + 1, &mut handles[round]), Status::Success);
    }
    let (obj, alive) = watched(&destroyed);
    flags.push(alive);
    assert_eq!(he.add_node_at(0, Some(obj), 1), Status::Success);
    // Versions 1, 2 and 3 are held, nodes 1 to 4 wait.
    he.retire_at(0, 2);
    assert_eq!(destroyed.get(), 1);
    he.release_at(handles[1], 3);
    he.retire_at(0, 4);
    assert_eq!(destroyed.get(), 1);
    he.release_at(handles[0], 5);
    he.retire_at(0, 6);
    assert_eq!(destroyed.get(), 3);
    assert!(flags[3].get());
    he.release_at(handles[2], 7);
    he.retire_at(0, 8);
    assert_eq!(destroyed.get(), 4);
}

#[test]
fn flush_moves_what_is_left_to_the_caller() {
    let mut he = HazardEpoch::<Watched>::new_in_stack(2, 1000);
    let destroyed = Rc::new(Cell::new(0u64));
    let mut flags = Vec::new();
    let mut add = |he: &mut HazardEpoch<Watched>, tid: u16, now: i64| {
        let (obj, alive) = watched(&destroyed);
        flags.push(alive);
        assert_eq!(he.add_node_at(tid, Some(obj), now), Status::Success);
    };
    add(&mut he, 0, 1);
    add(&mut he, 1, 1);
    let mut handle = 0u64;
    assert_eq!(he.acquire(2, &mut handle), Status::Success);
    add(&mut he, 0, 1);
    add(&mut he, 1, 1);
    // The thread 1 scans all stores at the version 2: the nodes 3 and 4 are
    // left, and both wait in its store now.
    he.retire_at(1, 2);
    assert_eq!(destroyed.get(), 2);
    assert_eq!(he.atomic_load_hazard_waiting_count(), 2);
    // One more node puts the store of thread 1 over the threshold of 2,
    // which that of the thread 0 would not be.
    add(&mut he, 0, 3);
    assert_eq!(he.atomic_load_hazard_waiting_count(), 3);
    he.release_at(handle, 4);
    assert_eq!(he.atomic_load_hazard_waiting_count(), 3);
    add(&mut he, 1, 2000);
    assert_eq!(he.atomic_load_hazard_waiting_count(), 1);
    assert_eq!(destroyed.get(), 5);
    assert!(flags[4].get());
}

#[test]
fn every_node_is_destroyed_once() {
    let mut he = HazardEpoch::<Watched>::new_in_stack(3, 50);
    let destroyed = Rc::new(Cell::new(0u64));
    let mut created = 0u64;
    let mut handle = 0u64;
    let mut held = false;
    for step in 0..5000u64 {
        let tid = (step % 5) as u16;
        let (obj, _) = watched(&destroyed);
        created += 1;
        assert_eq!(he.add_node_at(tid, Some(obj), step as i64), Status::Success);
        if step % 7 == 0 {
            if held {
                he.release_at(handle, step as i64);
                held = false;
            } else {
                assert_eq!(he.acquire(6, &mut handle), Status::Success);
                held = true;
            }
        }
        if step % 11 == 0 {
            he.retire_at(tid, step as i64);
        }
        assert_eq!(
            created - destroyed.get(),
            he.atomic_load_hazard_waiting_count() as u64
        );
    }
    if held {
        he.release_at(handle, 5000);
    }
    he.retire_at(0, 5001);
    assert_eq!(destroyed.get(), created);
    assert_eq!(he.atomic_load_hazard_waiting_count(), 0);
}

#[test]
fn destroy_takes_everything() {
    let mut he = HazardEpoch::<TestObj>::default_new_in_stack();
    let cnt = Rc::new(Cell::new(0i64));
    let mut handle = 0u64;
    assert_eq!(he.acquire(1, &mut handle), Status::Success);
    for tid in 0..4u16 {
        assert_eq!(he.add_node(tid, Some(TestObj::new(&cnt))), Status::Success);
    }
    he.retire(0);
    assert_eq!(cnt.get(), 4);
    he.destroy_at(0, 1);
    assert_eq!(cnt.get(), 0);
    assert_eq!(he.atomic_load_hazard_waiting_count(), 0);
    assert_eq!(he.atomic_load_thread_count(), 4);
    assert_eq!(he.atomic_load_version(), 4);
    assert_eq!(he.add_node(0, Some(TestObj::new(&cnt))), Status::Success);
    he.destroy(0);
    assert_eq!(cnt.get(), 0);
}

#[test]
fn dropping_the_engine_destroys_what_waits() {
    let cnt = Rc::new(Cell::new(0i64));
    {
        let mut he = HazardEpoch::<TestObj>::default_new_in_heap();
        let mut handle = 0u64;
        assert_eq!(he.acquire(0, &mut handle), Status::Success);
        for _ in 0..10 {
            assert_eq!(he.add_node(1, Some(TestObj::new(&cnt))), Status::Success);
        }
        assert_eq!(cnt.get(), 10);
    }
    assert_eq!(cnt.get(), 0);
}

#[test]
fn two_thread_exchange() {
    let mut he = HazardEpoch::<Watched>::default_new_in_stack();
    let destroyed = Rc::new(Cell::new(0u64));
    let (first, first_alive) = watched(&destroyed);
    let mut shared = Some(first);
    let mut shared_alive = first_alive;
    let mut created = 1u64;
    let rounds = 100_000u64;
    for _ in 0..rounds {
        // The reader acquires and loads the shared object.
        let mut handle = 0u64;
        assert_eq!(he.acquire(1, &mut handle), Status::Success);
        let seen = shared_alive.clone();
        // The writer puts a new object in its place and retires the old one.
        let (next, next_alive) = watched(&destroyed);
        created += 1;
        let old = shared.replace(next);
        shared_alive = next_alive;
        assert_eq!(he.add_node(0, old), Status::Success);
        // The reader still looks at the object that it loaded.
        assert!(seen.get());
        he.release(handle);
    }
    drop(shared);
    he.retire(0);
    assert_eq!(destroyed.get(), created);
    assert_eq!(he.atomic_load_hazard_waiting_count(), 0);
}

#[test]
fn many_readers_and_writers() {
    let mut he = HazardEpoch::<Watched>::default_new_in_stack();
    let destroyed = Rc::new(Cell::new(0u64));
    let readers = 4u16;
    let writers = 4u16;
    let (first, first_alive) = watched(&destroyed);
    let mut shared = Some(first);
    let mut shared_alive = first_alive;
    let mut created = 1u64;
    let mut handles = vec![0u64; readers as usize];
    let mut seen: Vec<Option<Rc<Cell<bool>>>> = vec![None; readers as usize];
    let mut reads = vec![0u64; readers as usize];
    let mut total_reads = 0u64;
    let retires = 200_000u64;
    for step in 0..retires {
        let reader = (step % readers as u64) as usize;
        match seen[reader].take() {
            Some(alive) => {
                assert!(alive.get());
                he.release(handles[reader]);
                reads[reader] += 1;
                total_reads += 1;
            }
            None => {
                assert_eq!(he.acquire(reader as u16, &mut handles[reader]), Status::Success);
                seen[reader] = Some(shared_alive.clone());
            }
        }
        for alive in seen.iter().flatten() {
            assert!(alive.get());
        }
        let writer = readers + (step % writers as u64) as u16;
        let (next, next_alive) = watched(&destroyed);
        created += 1;
        let old = shared.replace(next);
        shared_alive = next_alive;
        assert_eq!(he.add_node(writer, old), Status::Success);
        for alive in seen.iter().flatten() {
            assert!(alive.get());
        }
    }
    for reader in 0..readers as usize {
        if seen[reader].take().is_some() {
            he.release(handles[reader]);
        }
    }
    drop(shared);
    he.retire(0);
    assert_eq!(destroyed.get(), created);
    assert_eq!(he.atomic_load_hazard_waiting_count(), 0);
    assert_eq!(reads.iter().sum::<u64>(), total_reads);
    assert_eq!(he.atomic_load_version(), retires);
}
