use hhutos::paging::frames::{fill_block_with_zeros, PfListAllocator, PfListNode, PhysAddr, PAGE_FRAME_SIZE};

#[test]
fn alloc_from_empty_allocator_fails() {
    let mut a = PfListAllocator::new();
    assert_eq!(a.alloc_block(1), None);
}

#[test]
fn free_then_alloc_returns_block() {
    let mut a = PfListAllocator::new();
    a.free_block(PhysAddr::new(0x10_0000), 4);
    assert_eq!(a.alloc_block(1), Some(PhysAddr::new(0x10_0000)));
    assert_eq!(a.block_count(), 1);
    let rest = a.block_at(0);
    assert_eq!(rest.addr, PhysAddr::new(0x10_0000 + PAGE_FRAME_SIZE as u64));
    assert_eq!(rest.size, 3 * PAGE_FRAME_SIZE);
}

#[test]
fn fill_block_with_zeros_clears_only_the_block() {
    let start: u64 = 0x10_0000;
    let mut memory = vec![0xAAu8; 3 * PAGE_FRAME_SIZE];
    let node = PfListNode::new(PhysAddr::new(start + PAGE_FRAME_SIZE as u64), PAGE_FRAME_SIZE);
    fill_block_with_zeros(&mut memory, start, node);
    assert_eq!(memory.len(), 3 * PAGE_FRAME_SIZE);
    assert!(memory[..PAGE_FRAME_SIZE].iter().all(|b| *b == 0xAA));
    assert!(memory[PAGE_FRAME_SIZE..2 * PAGE_FRAME_SIZE].iter().all(|b| *b == 0));
    assert!(memory[2 * PAGE_FRAME_SIZE..].iter().all(|b| *b == 0xAA));
}
