use hhutos::paging::frames::{
    check_asserts, is_between_head_and_first_node, is_between_node_and_successor, PfListAllocator,
    PfListNode, PhysAddr, PAGE_FRAME_SIZE,
};
use hhutos::paging::pages::{aligne_to_page, PageFlags, PageTableEntry, PAGE_SIZE};
use hhutos::paging::tables::{
    check_and_grow_user_stack, init_kernel_tables, map_user_app, map_user_heap, map_user_stack,
    PageTables, USER_CODE_VIRT_START, USER_STACK_VIRT_END, USER_STACK_VIRT_START,
};

const FRAME: u64 = PAGE_FRAME_SIZE as u64;

/// A frame allocator with `frames` free frames from `start` on.
fn frames_at(start: u64, frames: usize) -> PfListAllocator {
    let mut a = PfListAllocator::new();
    a.set_start_addr(PhysAddr::new(start));
    a.free_block(PhysAddr::new(start), frames);
    a
}

/// The level-1 entry for `va` below `root`, walking the tables by hand.
fn walk(t: &PageTables, root: u64, va: u64) -> Option<u64> {
    let mut table = root;
    for shift in [39u64, 30, 21] {
        let e = t.get_entry(table, ((va >> shift) & 0x1ff) as usize).0;
        if e & 1 == 0 {
            return None;
        }
        table = e & 0x000f_ffff_ffff_f000;
    }
    Some(t.get_entry(table, ((va >> 12) & 0x1ff) as usize).0)
}

/// Whether every entry above level 1 on the way to `va` has the user flag.
fn user_path(t: &PageTables, root: u64, va: u64) -> bool {
    let mut table = root;
    for shift in [39u64, 30, 21] {
        let e = t.get_entry(table, ((va >> shift) & 0x1ff) as usize).0;
        if e & 4 == 0 {
            return false;
        }
        table = e & 0x000f_ffff_ffff_f000;
    }
    true
}

#[test]
fn adjacent_blocks_are_merged() {
    let mut a = PfListAllocator::new();
    a.free_block(PhysAddr::new(0x20_0000), 2);
    a.free_block(PhysAddr::new(0x20_2000), 2);
    a.free_block(PhysAddr::new(0x1f_f000), 1);
    assert_eq!(a.block_count(), 1);
    assert_eq!(a.block_at(0), PfListNode::new(PhysAddr::new(0x1f_f000), 5 * PAGE_FRAME_SIZE));
}

#[test]
fn blocks_with_a_gap_stay_apart_in_address_order() {
    let mut a = PfListAllocator::new();
    a.free_block(PhysAddr::new(0x40_0000), 1);
    a.free_block(PhysAddr::new(0x10_0000), 1);
    assert_eq!(a.block_count(), 2);
    assert_eq!(a.block_at(0).addr, PhysAddr::new(0x10_0000));
    assert_eq!(a.block_at(1).addr, PhysAddr::new(0x40_0000));
}

#[test]
fn alloc_is_first_fit() {
    let mut a = PfListAllocator::new();
    a.free_block(PhysAddr::new(0x10_0000), 1);
    a.free_block(PhysAddr::new(0x20_0000), 3);
    assert_eq!(a.alloc_block(2), Some(PhysAddr::new(0x20_0000)));
    assert_eq!(a.block_count(), 2);
    assert_eq!(a.block_at(1), PfListNode::new(PhysAddr::new(0x20_2000), PAGE_FRAME_SIZE));
}

#[test]
fn alloc_too_large_fails_and_keeps_blocks() {
    let mut a = frames_at(0x10_0000, 2);
    assert_eq!(a.alloc_block(3), None);
    assert_eq!(a.block_count(), 1);
    assert_eq!(a.block_at(0), PfListNode::new(PhysAddr::new(0x10_0000), 2 * PAGE_FRAME_SIZE));
}

#[test]
fn alloc_then_free_restores_blocks() {
    let mut a = frames_at(0x10_0000, 4);
    let before = a.block_at(0);
    let b = a.alloc_block(2).unwrap();
    a.free_block(b, 2);
    assert_eq!(a.block_count(), 1);
    assert_eq!(a.block_at(0), before);
}

#[test]
fn phys_addr_arithmetic() {
    let a = PhysAddr::new(0x1000);
    assert_eq!(a.raw(), 0x1000);
    assert_eq!(a.plus(0x234).raw(), 0x1234);
    assert_eq!(a.minus(0x800).raw(), 0x800);
    assert_eq!(PhysAddr::new(0x3000).minus_addr(a).raw(), 0x2000);
    assert_eq!(u64::from(a), 0x1000);
}

#[test]
fn node_neighbourhood() {
    let n = PfListNode::new(PhysAddr::new(0x2000), 0x2000);
    assert_eq!(n.start_addr(), PhysAddr::new(0x2000));
    assert_eq!(n.end_addr(), PhysAddr::new(0x4000));
    assert!(n.is_adjacent_front(&PhysAddr::new(0x2000)));
    assert!(!n.is_adjacent_front(&PhysAddr::new(0x1000)));
    assert!(n.is_adjacent_back(&PhysAddr::new(0x4000)));
    assert!(n.is_overlapping(&PhysAddr::new(0x1000), &PhysAddr::new(0x3000)));
    assert!(n.is_overlapping(&PhysAddr::new(0x1000), &PhysAddr::new(0x2000)));
    assert!(n.is_overlapping(&PhysAddr::new(0x4000), &PhysAddr::new(0x5000)));
    assert!(!n.is_overlapping(&PhysAddr::new(0x4000), &PhysAddr::new(0x2000)));
}

#[test]
fn positions_between_blocks() {
    let blocks = vec![
        PfListNode::new(PhysAddr::new(0x4000), 0x1000),
        PfListNode::new(PhysAddr::new(0x8000), 0x1000),
    ];
    let lowest = Some(PhysAddr::new(0x1000));
    assert!(is_between_head_and_first_node(&blocks, &PhysAddr::new(0x2000), &lowest));
    assert!(!is_between_head_and_first_node(&blocks, &PhysAddr::new(0x5000), &lowest));
    assert!(!is_between_head_and_first_node(&blocks, &PhysAddr::new(0x2000), &None));
    assert!(is_between_node_and_successor(&blocks, 0, &PhysAddr::new(0x5000), &PhysAddr::new(0x7000)));
    assert!(!is_between_node_and_successor(&blocks, 0, &PhysAddr::new(0x5000), &PhysAddr::new(0x9000)));
    assert!(is_between_node_and_successor(&blocks, 1, &PhysAddr::new(0x9000), &PhysAddr::new(0xa000)));
    assert!(check_asserts(PhysAddr::new(0x3000), 1));
    assert!(!check_asserts(PhysAddr::new(0x3010), 1));
}

#[test]
fn page_flags_values() {
    assert_eq!(PageFlags::kernel_flags().bits(), 3);
    assert_eq!(PageFlags::user_flags().bits(), 7);
    assert_eq!(PageFlags::global().bits(), 0x100);
    assert_eq!(PageFlags::from_bits_truncate(0xfff).bits(), 0x1ff);
    assert!(PageFlags::user_flags().contains(PageFlags::present()));
    assert!(!PageFlags::kernel_flags().contains(PageFlags::user()));
    assert_eq!(PageFlags::empty().union(PageFlags::dirty()).bits(), 64);
}

#[test]
fn entry_fields_round_trip() {
    let mut e = PageTableEntry::new(PhysAddr::new(0x12_3000), PageFlags::kernel_flags());
    assert_eq!(e.0, 0x12_3003);
    assert_eq!(e.get_addr(), PhysAddr::new(0x12_3000));
    assert_eq!(e.get_flags().bits(), 3);
    e.set_flags(PageFlags::user_flags());
    assert_eq!(e.0, 0x12_3007);
    e.set_addr(PhysAddr::new(0x45_6000));
    assert_eq!(e.0, 0x45_6007);
    e.set(PhysAddr::new(0x1000), PageFlags::present());
    assert_eq!(e.0, 0x1001);
}

#[test]
fn align_to_page() {
    assert_eq!(aligne_to_page(0x1234), 0x1000);
    assert_eq!(aligne_to_page(0x2000), 0x2000);
    assert_eq!(aligne_to_page(0xfff), 0);
    assert_eq!(PAGE_SIZE, 4096);
}

#[test]
fn kernel_tables_map_physical_memory_one_to_one() {
    let mut tables = PageTables::new();
    let mut frames = frames_at(0x100_0000, 16);
    let root = init_kernel_tables(&mut tables, &mut frames, PhysAddr::new(0x40_0000)).unwrap();
    assert_eq!(root, 0x100_0000);
    for va in [0x1000u64, 0x20_0000, 0x3f_f000] {
        assert_eq!(walk(&tables, root, va), Some(va | 3));
    }
    assert_eq!(walk(&tables, root, 0), Some(0));
    assert_eq!(walk(&tables, root, 0x40_0000), None);
    // root, one level-3, one level-2 and two level-1 tables
    assert_eq!(frames.block_at(0).size, 11 * PAGE_FRAME_SIZE);
}

#[test]
fn kernel_tables_need_free_frames() {
    let mut tables = PageTables::new();
    let mut frames = PfListAllocator::new();
    assert_eq!(init_kernel_tables(&mut tables, &mut frames, PhysAddr::new(0x40_0000)), None);
}

#[test]
fn map_counts_frames_taken() {
    let mut tables = PageTables::new();
    let mut frames = frames_at(0x100_0000, 32);
    let root = init_kernel_tables(&mut tables, &mut frames, PhysAddr::new(0x1000)).unwrap();
    let before = frames.block_at(0).size;
    let count = tables.map(&mut frames, root, 0x8000_0000, 3, None, false).unwrap();
    // a level-3, a level-2 and a level-1 table, and three frames
    assert_eq!(count, 6);
    assert_eq!(before - frames.block_at(0).size, 6 * PAGE_FRAME_SIZE);
    let again = tables.map(&mut frames, root, 0x8000_3000, 1, None, false).unwrap();
    assert_eq!(again, 1);
    // frames given by the caller are not taken from the allocator
    let given = tables.map(&mut frames, root, 0x9000_0000_0000, 2, Some(PhysAddr::new(0x200_0000)), false);
    assert_eq!(given, Some(3));
    assert_eq!(walk(&tables, root, 0x9000_0000_1000), Some(0x200_1007));
}

#[test]
fn user_stack_gets_fresh_distinct_frames() {
    let mut tables = PageTables::new();
    let mut frames = frames_at(0x100_0000, 32);
    let root = init_kernel_tables(&mut tables, &mut frames, PhysAddr::new(0x1000)).unwrap();
    let stack = map_user_stack(&mut tables, &mut frames, root).unwrap();
    assert_eq!(stack, USER_STACK_VIRT_START);
    let mut seen = Vec::new();
    for k in 0..4u64 {
        let va = USER_STACK_VIRT_START + k * 4096;
        let e = walk(&tables, root, va).unwrap();
        assert_eq!(e & 0xfff, 7);
        assert!(user_path(&tables, root, va));
        let f = e & 0x000f_ffff_ffff_f000;
        assert!(!seen.contains(&f));
        assert!(f >= 0x100_0000 && f < 0x100_0000 + 32 * FRAME);
        seen.push(f);
    }
    assert_eq!(walk(&tables, root, USER_STACK_VIRT_START + 4 * 4096), Some(0));
}

#[test]
fn user_app_maps_given_frames() {
    let mut tables = PageTables::new();
    let mut frames = frames_at(0x100_0000, 32);
    let root = init_kernel_tables(&mut tables, &mut frames, PhysAddr::new(0x1000)).unwrap();
    let code = map_user_app(&mut tables, &mut frames, root, 2, PhysAddr::new(0x200_0000)).unwrap();
    assert_eq!(code, USER_CODE_VIRT_START);
    assert_eq!(walk(&tables, root, USER_CODE_VIRT_START), Some(0x200_0007));
    assert_eq!(walk(&tables, root, USER_CODE_VIRT_START + 0x1000), Some(0x200_1007));
    assert!(user_path(&tables, root, USER_CODE_VIRT_START));
}

#[test]
fn user_flag_spreads_to_existing_tables() {
    let mut tables = PageTables::new();
    let mut frames = frames_at(0x100_0000, 32);
    let root = init_kernel_tables(&mut tables, &mut frames, PhysAddr::new(0x40_0000)).unwrap();
    assert!(!user_path(&tables, root, 0x30_0000));
    assert!(map_user_heap(&mut tables, &mut frames, root, 0x30_0000, 100));
    assert!(user_path(&tables, root, 0x30_0000));
    assert_eq!(walk(&tables, root, 0x30_0000).unwrap() & 0xfff, 7);
    // the kernel page next to it keeps its 1:1 mapping
    assert_eq!(walk(&tables, root, 0x30_1000), Some(0x30_1003));
}

#[test]
fn other_address_spaces_are_left_alone() {
    let mut tables = PageTables::new();
    let mut frames = frames_at(0x100_0000, 64);
    let kernel = init_kernel_tables(&mut tables, &mut frames, PhysAddr::new(0x10_0000)).unwrap();
    let other = init_kernel_tables(&mut tables, &mut frames, PhysAddr::new(0x10_0000)).unwrap();
    assert_ne!(kernel, other);
    assert!(map_user_heap(&mut tables, &mut frames, other, 0x5000, 4096));
    assert_eq!(walk(&tables, kernel, 0x5000), Some(0x5003));
    assert_eq!(walk(&tables, other, 0x5000).unwrap() & 0xfff, 7);
}

#[test]
fn heap_mapping_fails_without_memory() {
    let mut tables = PageTables::new();
    let mut frames = frames_at(0x100_0000, 4);
    let root = init_kernel_tables(&mut tables, &mut frames, PhysAddr::new(0x1000)).unwrap();
    assert!(!map_user_heap(&mut tables, &mut frames, root, 0x8000_0000, 8 * 4096));
    assert_eq!(frames.block_count(), 0);
}

#[test]
fn stack_grows_only_within_its_range() {
    let mut tables = PageTables::new();
    let mut frames = frames_at(0x100_0000, 32);
    let root = init_kernel_tables(&mut tables, &mut frames, PhysAddr::new(0x1000)).unwrap();
    let free_before = frames.block_at(0);
    assert_eq!(check_and_grow_user_stack(&mut tables, &mut frames, root, USER_STACK_VIRT_END), Some(false));
    assert_eq!(check_and_grow_user_stack(&mut tables, &mut frames, root, 0x1234), Some(false));
    assert_eq!(frames.block_at(0), free_before);
    let fault = USER_STACK_VIRT_START + 0x2345;
    assert_eq!(check_and_grow_user_stack(&mut tables, &mut frames, root, fault), Some(true));
    assert_eq!(walk(&tables, root, USER_STACK_VIRT_START + 0x2000).unwrap() & 0xfff, 7);
}

#[test]
fn map_succeeds_when_four_frames_per_page_are_free() {
    let mut tables = PageTables::new();
    let mut frames = frames_at(0x100_0000, 1);
    let root = init_kernel_tables(&mut tables, &mut frames, PhysAddr::new(0x1000)).unwrap();
    frames.free_block(PhysAddr::new(0x200_0000), 8);
    assert_eq!(tables.map(&mut frames, root, 0x8000_0000, 2, None, false), Some(5));
    assert_eq!(frames.block_at(0).size, 3 * PAGE_FRAME_SIZE);
}
