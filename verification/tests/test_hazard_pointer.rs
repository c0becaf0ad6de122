use rs_lockfree::error::Status;
use rs_lockfree::hazard_pointer::{
    partition_by_version, BaseHazardNode, ThreadStore, VersionHandle, NO_VERSION,
};

fn versions(list: &Vec<BaseHazardNode<u32>>) -> Vec<(u32, u64)> {
    let mut out = Vec::new();
    for node in list.iter() {
        out.push((*node.trait_obj(), node.version()));
    }
    out
}

fn node(obj: u32, version: u64) -> BaseHazardNode<u32> {
    let mut node = BaseHazardNode::new(obj);
    node.set_version(version);
    node
}

#[test]
fn handle_parts() {
    let handle = VersionHandle::new(0x0000_0007_0000_0003);
    assert_eq!(handle.tid(), 3);
    assert_eq!(handle.seq(), 7);
    assert_eq!(handle.ver_u64(), 0x0000_0007_0000_0003);
    let handle = VersionHandle::new(0xffff_fffe_abcd_1234);
    assert_eq!(handle.tid(), 0x1234);
    assert_eq!(handle.seq(), 0xffff_fffe);
    assert_eq!(handle.ver_u64(), 0xffff_fffe_abcd_1234);
}

#[test]
fn handle_setters() {
    let mut handle = VersionHandle::new(0xffff_ffff_ffff_ffff);
    handle.set_tid(5);
    assert_eq!(handle.ver_u64(), 0xffff_ffff_ffff_0005);
    handle.set_high_bits(0);
    assert_eq!(handle.ver_u64(), 0xffff_ffff_0000_0005);
    handle.set_seq(9);
    assert_eq!(handle.ver_u64(), 0x0000_0009_0000_0005);
    handle.set_high_bits(0xbeef);
    assert_eq!(handle.ver_u64(), 0x0000_0009_beef_0005);
    assert_eq!(handle.tid(), 5);
    assert_eq!(handle.seq(), 9);
}

#[test]
fn new_node_has_no_version() {
    let node = BaseHazardNode::new(11u32);
    assert_eq!(node.version(), u64::MAX);
    assert_eq!(node.version(), NO_VERSION);
    assert_eq!(*node.trait_obj(), 11);
}

#[test]
fn partition_keeps_order() {
    let list = vec![node(10, 5), node(11, 2), node(12, 9), node(13, 3), node(14, 4), node(15, 3)];
    let (gone, kept) = partition_by_version(list, 3);
    assert_eq!(versions(&gone), vec![(11, 2), (13, 3), (15, 3)]);
    assert_eq!(versions(&kept), vec![(10, 5), (12, 9), (14, 4)]);
}

#[test]
fn partition_edges() {
    let (gone, kept) = partition_by_version(Vec::<BaseHazardNode<u32>>::new(), 7);
    assert!(gone.is_empty());
    assert!(kept.is_empty());
    let (gone, kept) = partition_by_version(vec![node(1, 1), node(2, 2)], 0);
    assert!(gone.is_empty());
    assert_eq!(versions(&kept), vec![(1, 1), (2, 2)]);
    let (gone, kept) = partition_by_version(vec![node(1, 1), node(2, 2)], u64::MAX);
    assert_eq!(versions(&gone), vec![(1, 1), (2, 2)]);
    assert!(kept.is_empty());
    let (gone, kept) = partition_by_version(vec![node(1, u64::MAX)], u64::MAX - 1);
    assert!(gone.is_empty());
    assert_eq!(versions(&kept), vec![(1, u64::MAX)]);
}

#[test]
fn fresh_store() {
    let store = ThreadStore::<u32>::new();
    assert!(!store.is_enabled());
    assert_eq!(store.tid(), 0);
    assert_eq!(store.curr_seq(), 0);
    assert_eq!(store.curr_version(), u64::MAX);
    assert_eq!(store.version(), u64::MAX);
    assert_eq!(store.next(), None);
    assert_eq!(store.get_hazard_waiting_count(), 0);
}

#[test]
fn store_links() {
    let mut store = ThreadStore::<u32>::new();
    store.set_enabled(7);
    assert!(store.is_enabled());
    assert_eq!(store.tid(), 7);
    store.set_next(Some(3));
    assert_eq!(store.next(), Some(3));
    store.set_next(None);
    assert_eq!(store.next(), None);
    store.set_curr_version(12);
    assert_eq!(store.version(), 12);
    store.inc_curr_seq();
    assert_eq!(store.curr_seq(), 1);
}

#[test]
fn store_acquire_and_release() {
    let mut store = ThreadStore::<u32>::new();
    store.set_enabled(4);
    let mut handle = VersionHandle::new(0xffff_ffff_ffff_ffff);
    assert_eq!(store.acquire(10, &mut handle), Status::Success);
    assert_eq!(handle.ver_u64(), 4);
    assert_eq!(store.version(), 10);

    let mut second = VersionHandle::new(77);
    assert_eq!(store.acquire(11, &mut second), Status::Busy);
    assert_eq!(second.ver_u64(), 77);
    assert_eq!(store.version(), 10);

    store.release(&handle);
    assert_eq!(store.version(), u64::MAX);
    assert_eq!(store.curr_seq(), 1);

    assert_eq!(store.acquire(12, &mut second), Status::Success);
    assert_eq!(second.ver_u64(), 0x0000_0001_0000_0004);
    assert_eq!(store.version(), 12);
}

#[test]
fn store_ignores_a_handle_that_is_not_its_own() {
    let mut store = ThreadStore::<u32>::new();
    store.set_enabled(4);
    let mut handle = VersionHandle::new(0);
    assert_eq!(store.acquire(10, &mut handle), Status::Success);

    let other_thread = VersionHandle::new(5);
    store.release(&other_thread);
    assert_eq!(store.version(), 10);
    assert_eq!(store.curr_seq(), 0);

    let other_seq = VersionHandle::new(0x0000_0001_0000_0004);
    store.release(&other_seq);
    assert_eq!(store.version(), 10);
    assert_eq!(store.curr_seq(), 0);

    let reserved_bits_set = VersionHandle::new(0x0000_0000_00ff_0004);
    store.release(&reserved_bits_set);
    assert_eq!(store.version(), u64::MAX);
    assert_eq!(store.curr_seq(), 1);
}

#[test]
fn release_counter_counts_releases() {
    let mut store = ThreadStore::<u32>::new();
    store.set_enabled(1);
    let mut handle = VersionHandle::new(0);
    assert_eq!(store.acquire(1, &mut handle), Status::Success);
    let mut rounds: u32 = 0;
    while rounds < 1000 {
        store.release(&handle);
        assert_eq!(store.acquire(1, &mut handle), Status::Success);
        rounds += 1;
        assert_eq!(handle.seq(), rounds);
        assert_eq!(handle.tid(), 1);
    }
    assert_eq!(store.curr_seq(), 1000);
    assert_eq!(handle.ver_u64(), 0x0000_03e8_0000_0001);
}

#[test]
fn store_scan() {
    let mut store = ThreadStore::<u32>::new();
    store.set_enabled(0);
    assert_eq!(store.add_node(1, 100), Status::Success);
    assert_eq!(store.add_node(2, 101), Status::Success);
    assert_eq!(store.add_node(3, 102), Status::Success);
    assert_eq!(store.add_node(4, 103), Status::Success);
    assert_eq!(store.get_hazard_waiting_count(), 4);

    let mut receiver = vec![node(1, 50)];
    assert_eq!(store.retire(2, &mut receiver), 2);
    assert_eq!(store.get_hazard_waiting_count(), 0);
    assert_eq!(versions(&receiver), vec![(1, 50), (102, 3), (103, 4)]);

    store.inner_add_nodes(receiver);
    assert_eq!(store.get_hazard_waiting_count(), 3);

    // A scan at the version of the last scan does nothing.
    let mut receiver = Vec::new();
    assert_eq!(store.retire(2, &mut receiver), 0);
    assert!(receiver.is_empty());
    assert_eq!(store.get_hazard_waiting_count(), 3);

    assert_eq!(store.retire(3, &mut receiver), 1);
    assert_eq!(versions(&receiver), vec![(1, 50), (103, 4)]);
    assert_eq!(store.get_hazard_waiting_count(), 0);
}

#[test]
fn first_scan_at_version_zero_is_skipped() {
    let mut store = ThreadStore::<u32>::new();
    assert_eq!(store.add_node(0, 1), Status::Success);
    let mut receiver = Vec::new();
    assert_eq!(store.retire(0, &mut receiver), 0);
    assert!(receiver.is_empty());
    assert_eq!(store.get_hazard_waiting_count(), 1);
    assert_eq!(store.retire(1, &mut receiver), 1);
    assert_eq!(store.get_hazard_waiting_count(), 0);
}

#[test]
fn store_destroy() {
    let mut store = ThreadStore::<u32>::new();
    store.set_enabled(2);
    store.set_next(Some(1));
    assert_eq!(store.add_node(9, 1), Status::Success);
    assert_eq!(store.add_node(8, 2), Status::Success);
    store.destroy();
    assert_eq!(store.get_hazard_waiting_count(), 0);
    assert!(store.is_enabled());
    assert_eq!(store.tid(), 2);
    assert_eq!(store.next(), Some(1));
}
