use hhutos::allocator::align_up;
use hhutos::allocator::bump::{BumpAllocator, BumpDump};
use hhutos::allocator::list::{LinkedListAllocator, ListNode, LIST_NODE_SIZE};

#[test]
fn align_up_values() {
    assert_eq!(align_up(0x1001, 0x1000), 0x2000);
    assert_eq!(align_up(0x1000, 0x1000), 0x1000);
    assert_eq!(align_up(13, 8), 16);
    assert_eq!(align_up(0, 8), 0);
    assert_eq!(align_up(7, 1), 7);
}

#[test]
fn bump_allocations_are_aligned_and_disjoint() {
    let mut a = BumpAllocator::new(0x1001, 0x100);
    a.init();
    let p1 = a.allocate(10, 8).unwrap();
    assert_eq!(p1, 0x1008);
    let p2 = a.allocate(4, 16).unwrap();
    assert_eq!(p2, 0x1020);
    assert!(p1 + 10 <= p2);
}

#[test]
fn bump_runs_out() {
    let mut a = BumpAllocator::new(0x1000, 0x20);
    assert_eq!(a.allocate(0x10, 1), Some(0x1000));
    assert_eq!(a.allocate(0x11, 1), None);
    assert_eq!(a.allocate(0x10, 1), Some(0x1010));
    assert_eq!(a.allocate(1, 1), None);
}

#[test]
fn bump_dealloc_reuses_nothing_and_dump_changes_nothing() {
    let mut a = BumpAllocator::new(0x1000, 0x100);
    let p = a.allocate(0x40, 8).unwrap();
    a.dealloc(p, 0x40, 8);
    assert_eq!(a.allocate(0x10, 8), Some(0x1040));
    let d = a.dump_free_list();
    assert_eq!(d, BumpDump { heap_start: 0x1000, heap_end: 0x1100, block_start: 0x1050, block_end: 0x1100 });
    assert_eq!(a.allocate(0x10, 8), Some(0x1050));
}

#[test]
fn list_node_bounds() {
    let n = ListNode::new(0x100, 0x40);
    assert_eq!(n.start_addr(), 0x100);
    assert_eq!(n.end_addr(), 0x140);
}

#[test]
fn size_align_values() {
    assert_eq!(LinkedListAllocator::size_align(1, 1), (16, 8));
    assert_eq!(LinkedListAllocator::size_align(20, 8), (24, 8));
    assert_eq!(LinkedListAllocator::size_align(5, 32), (32, 32));
    assert_eq!(LinkedListAllocator::size_align(0, 4), (LIST_NODE_SIZE, 8));
}

#[test]
fn check_block_requires_alignment_and_size() {
    let n = ListNode::new(0x1000, 0x100);
    assert!(LinkedListAllocator::check_block_for_alloc(&n, 0x100, 0x1000).is_ok());
    assert!(LinkedListAllocator::check_block_for_alloc(&n, 0x101, 8).is_err());
    assert!(LinkedListAllocator::check_block_for_alloc(&ListNode::new(0x1008, 0x100), 8, 16).is_err());
}

#[test]
fn list_allocator_splits_the_first_fitting_block() {
    let mut a = LinkedListAllocator::new(0x1000, 0x1000);
    assert_eq!(a.block_count(), 0);
    a.init();
    assert_eq!(a.block_count(), 1);
    let p = a.allocate(100, 8).unwrap();
    assert_eq!(p, 0x1000);
    let dump = a.dump_free_list();
    assert_eq!(dump, (0x1000, 0x2000, vec![ListNode::new(0x1068, 0x1000 - 0x68)]));
    assert_eq!(a.dump_free_list(), dump);
    assert_eq!(a.allocate(8, 8), Some(0x1068));
}

#[test]
fn list_allocator_keeps_small_rests_in_the_block() {
    let mut a = LinkedListAllocator::new(0x1000, 0x20);
    a.init();
    assert_eq!(a.allocate(8, 8), Some(0x1000));
    assert_eq!(a.block_count(), 0);
    assert_eq!(a.allocate(8, 8), None);
}

#[test]
fn dealloc_then_alloc_reuses_the_memory() {
    let mut a = LinkedListAllocator::new(0x1000, 0x1000);
    a.init();
    let p = a.allocate(64, 8).unwrap();
    let q = a.allocate(64, 8).unwrap();
    assert_ne!(p, q);
    a.dealloc(p, 64, 8);
    assert_eq!(a.allocate(64, 8), Some(p));
}

#[test]
fn find_free_block_takes_the_first_fit_out() {
    let mut a = LinkedListAllocator::new(0, 0);
    a.add_free_block(0x3000, 0x10);
    a.add_free_block(0x2000, 0x100);
    a.add_free_block(0x1000, 0x20);
    assert_eq!(a.find_free_block(0x40, 8), Some(ListNode::new(0x2000, 0x100)));
    assert_eq!(a.dump_free_list().2, vec![ListNode::new(0x1000, 0x20), ListNode::new(0x3000, 0x10)]);
}
