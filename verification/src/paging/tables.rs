//! Page tables in physical memory and the mapping of virtual pages.
//!
//! The page tables of all address spaces live in frames of physical memory;
//! here they are kept by the address of their frame. Each table has a level:
//! 4 for a top-level table (PML4), 1 for a table whose entries point to the
//! mapped frames. A present entry of a table above level 1 points to a table
//! one level lower, and no two such entries point to the same table.
use vstd::prelude::*;
use std::collections::BTreeMap;
use super::frames::{PfListAllocator, PfListNode, PhysAddr, PAGE_FRAME_SIZE, byte_range, is_first_fit};
use super::pages::{PageFlags, PageTableEntry, PAGE_TABLE_ENTRIES, ADDR_MASK, FLAGS_MASK, PAGE_SIZE, aligne_to_page};
use crate::threads::thread::STACK_SIZE;

verus! {

/// Physical addresses an entry can hold lie below 2^52.
pub const MAX_PHYS_ADDR: u64 = 0x0010_0000_0000_0000;

/// Whether an entry is present.
pub open spec fn present(e: u64) -> bool {
    e & 1 == 1
}

/// The physical address an entry points to.
pub open spec fn target(e: u64) -> u64 {
    e & ADDR_MASK
}

/// Whether an entry allows writes.
pub open spec fn writeable(e: u64) -> bool {
    e & 2 == 2
}

/// Whether an entry allows access from user mode.
pub open spec fn user_bit(e: u64) -> bool {
    e & 4 == 4
}

/// The index into a table of the given level that the virtual address `va` uses.
pub open spec fn table_index(va: u64, level: int) -> int {
    if level == 1 {
        ((va >> 12u64) & 0x1ff) as int
    } else if level == 2 {
        ((va >> 21u64) & 0x1ff) as int
    } else if level == 3 {
        ((va >> 30u64) & 0x1ff) as int
    } else {
        ((va >> 39u64) & 0x1ff) as int
    }
}

/// A page table: 512 entries.
pub struct PageTable {
    pub entries: Vec<PageTableEntry>,
}

impl PageTable {
    /// A table whose entries are all zero, so that none is present.
    pub fn new() -> (r: PageTable)
        ensures
            r.entries@.len() == PAGE_TABLE_ENTRIES,
            forall|i: int| 0 <= i < PAGE_TABLE_ENTRIES ==> r.entries@[i].0 == 0,
    {
        let mut entries: Vec<PageTableEntry> = Vec::new();
        let mut i: usize = 0;
        while i < PAGE_TABLE_ENTRIES
            invariant
                i <= PAGE_TABLE_ENTRIES,
                entries@.len() == i,
                forall|j: int| 0 <= j < i ==> entries@[j].0 == 0,
            decreases PAGE_TABLE_ENTRIES - i,
        {
            entries.push(PageTableEntry(0));
            i = i + 1;
        }
        PageTable { entries }
    }
}

/// The effect on the bits of an entry of the operations that build tables.
proof fn lemma_entry_bits(x: u64, frame: u64)
    requires
        frame & !ADDR_MASK == 0,
    ensures
        ((x & ADDR_MASK) | ((x & FLAGS_MASK) | 4)) & ADDR_MASK == x & ADDR_MASK,
        ((x & ADDR_MASK) | ((x & FLAGS_MASK) | 4)) & 1 == x & 1,
        ((x & ADDR_MASK) | ((x & FLAGS_MASK) | 4)) & 4 == 4,
        ((x & ADDR_MASK) | ((x & FLAGS_MASK) | 4)) & 2 == x & 2,
        (frame | 3) & 2 == 2,
        (frame | 7) & 2 == 2,
        (frame | 3) & ADDR_MASK == frame,
        (frame | 3) & 1 == 1,
        (frame | 7) & ADDR_MASK == frame,
        (frame | 7) & 1 == 1,
        (frame | 7) & 4 == 4,
        0u64 & 1 == 0,
{
    assert(((x & 0x000f_ffff_ffff_f000u64) | ((x & 0x1ffu64) | 4u64)) & 0x000f_ffff_ffff_f000u64
        == x & 0x000f_ffff_ffff_f000u64) by (bit_vector);
    assert(((x & 0x000f_ffff_ffff_f000u64) | ((x & 0x1ffu64) | 4u64)) & 1u64 == x & 1u64)
        by (bit_vector);
    assert(((x & 0x000f_ffff_ffff_f000u64) | ((x & 0x1ffu64) | 4u64)) & 4u64 == 4u64 && ((x
        & 0x000f_ffff_ffff_f000u64) | ((x & 0x1ffu64) | 4u64)) & 2u64 == x & 2u64 && (frame | 3u64)
        & 2u64 == 2u64 && (frame | 7u64) & 2u64 == 2u64) by (bit_vector);
    assert((frame | 3u64) & 0x000f_ffff_ffff_f000u64 == frame && (frame | 3u64) & 1u64 == 1u64
        && (frame | 7u64) & 0x000f_ffff_ffff_f000u64 == frame && (frame | 7u64) & 1u64 == 1u64
        && (frame | 7u64) & 4u64 == 4u64) by (bit_vector)
        requires
            frame & !0x000f_ffff_ffff_f000u64 == 0,
    ;
    assert(0u64 & 1u64 == 0u64) by (bit_vector);
}

/// A frame address below 2^52 that is page aligned can stand in an entry.
proof fn lemma_frame_addr(frame: u64)
    requires
        frame % 4096 == 0,
        frame < MAX_PHYS_ADDR,
    ensures
        frame & !ADDR_MASK == 0,
{
    assert(frame & !0x000f_ffff_ffff_f000u64 == 0) by (bit_vector)
        requires
            frame % 4096 == 0,
            frame < 0x0010_0000_0000_0000u64,
    ;
}

/// The indices a virtual address uses at each level lie within a table.
proof fn lemma_index_range(va: u64)
    ensures
        0 <= table_index(va, 1) < PAGE_TABLE_ENTRIES,
        0 <= table_index(va, 2) < PAGE_TABLE_ENTRIES,
        0 <= table_index(va, 3) < PAGE_TABLE_ENTRIES,
        0 <= table_index(va, 4) < PAGE_TABLE_ENTRIES,
{
    assert((va >> 12u64) & 0x1ff < 512 && (va >> 21u64) & 0x1ff < 512 && (va >> 30u64) & 0x1ff
        < 512 && (va >> 39u64) & 0x1ff < 512) by (bit_vector);
}

/// The number of the 4 KiB page `va` lies in, as far as the four levels of
/// tables can tell it apart: bits 12 to 47.
pub open spec fn vpn(va: u64) -> u64 {
    (va >> 12u64) & 0xf_ffff_ffff
}

/// Two addresses that use the same index at each level lie in the same page.
proof fn lemma_vpn_indices(a: u64, b: u64)
    requires
        table_index(a, 1) == table_index(b, 1),
        table_index(a, 2) == table_index(b, 2),
        table_index(a, 3) == table_index(b, 3),
        table_index(a, 4) == table_index(b, 4),
    ensures
        vpn(a) == vpn(b),
{
    assert(((a >> 12u64) & 0x1ff) == ((b >> 12u64) & 0x1ff) && ((a >> 21u64) & 0x1ff) == ((b
        >> 21u64) & 0x1ff) && ((a >> 30u64) & 0x1ff) == ((b >> 30u64) & 0x1ff) && ((a >> 39u64)
        & 0x1ff) == ((b >> 39u64) & 0x1ff) ==> ((a >> 12u64) & 0xf_ffff_ffff) == ((b >> 12u64)
        & 0xf_ffff_ffff)) by (bit_vector);
}

/// Below 2^48 the page number is the address divided by the page size.
proof fn lemma_vpn_low(a: u64)
    requires
        a < 0x1_0000_0000_0000,
    ensures
        vpn(a) == a / 4096,
{
    assert(a < 0x1_0000_0000_0000u64 ==> (a >> 12u64) & 0xf_ffff_ffff == a / 4096)
        by (bit_vector);
}

/// The page tables of physical memory, by the address of their frame.
pub struct PageTables {
    tables: BTreeMap<u64, PageTable>,
    levels: Ghost<Map<u64, int>>,
}

impl PageTables {
    /// The tables by the address of their frame.
    pub closed spec fn tables(&self) -> Map<u64, PageTable> {
        self.tables@
    }

    /// The level of each table.
    pub closed spec fn levels(&self) -> Map<u64, int> {
        self.levels@
    }

    pub open spec fn has_table(&self, t: u64) -> bool {
        self.tables().contains_key(t)
    }

    pub open spec fn level(&self, t: u64) -> int {
        self.levels()[t]
    }

    /// Entry `i` of the table at `t`.
    pub open spec fn entry(&self, t: u64, i: int) -> u64 {
        self.tables()[t].entries@[i].0
    }

    /// An entry of a table above level 1 that is present.
    pub open spec fn is_link(&self, t: u64, i: int) -> bool {
        &&& self.has_table(t)
        &&& 0 <= i < PAGE_TABLE_ENTRIES
        &&& self.level(t) > 1
        &&& present(self.entry(t, i))
    }

    pub open spec fn wf(&self) -> bool {
        &&& self.tables().dom() == self.levels().dom()
        &&& forall|t: u64|
            #![trigger self.tables()[t]]
            self.has_table(t) ==> self.tables()[t].entries@.len() == PAGE_TABLE_ENTRIES && 1
                <= self.level(t) <= 4
        &&& forall|t: u64, i: int|
            #![trigger self.entry(t, i)]
            self.is_link(t, i) ==> self.has_table(target(self.entry(t, i))) && self.level(
                target(self.entry(t, i)),
            ) == self.level(t) - 1
        &&& forall|t1: u64, i1: int, t2: u64, i2: int|
            #![trigger self.entry(t1, i1), self.entry(t2, i2)]
            self.is_link(t1, i1) && self.is_link(t2, i2) && target(self.entry(t1, i1)) == target(
                self.entry(t2, i2),
            ) ==> t1 == t2 && i1 == i2
        &&& forall|t: u64, i: int|
            #![trigger self.entry(t, i)]
            self.is_link(t, i) ==> writeable(self.entry(t, i))
    }

    /// The level-3 table the top-level table at `root` selects for `va`.
    pub open spec fn pdpt(&self, root: u64, va: u64) -> u64 {
        target(self.entry(root, table_index(va, 4)))
    }

    /// The level-2 table on the way from `root` to `va`.
    pub open spec fn pd(&self, root: u64, va: u64) -> u64 {
        target(self.entry(self.pdpt(root, va), table_index(va, 3)))
    }

    /// The level-1 table on the way from `root` to `va`.
    pub open spec fn pt(&self, root: u64, va: u64) -> u64 {
        target(self.entry(self.pd(root, va), table_index(va, 2)))
    }

    /// The level-1 entry the top-level table at `root` maps the virtual address
    /// `va` to, if the three entries above it are present.
    pub open spec fn translate(&self, root: u64, va: u64) -> Option<u64> {
        if self.has_table(root) && present(self.entry(root, table_index(va, 4))) && present(
            self.entry(self.pdpt(root, va), table_index(va, 3)),
        ) && present(self.entry(self.pd(root, va), table_index(va, 2))) {
            Some(self.entry(self.pt(root, va), table_index(va, 1)))
        } else {
            None
        }
    }

    /// Whether the three entries above level 1 on the way to `va` allow user access.
    pub open spec fn user_path(&self, root: u64, va: u64) -> bool {
        &&& user_bit(self.entry(root, table_index(va, 4)))
        &&& user_bit(self.entry(self.pdpt(root, va), table_index(va, 3)))
        &&& user_bit(self.entry(self.pd(root, va), table_index(va, 2)))
    }

    /// Whether the three entries above level 1 on the way to `va` allow writes.
    pub open spec fn writeable_path(&self, root: u64, va: u64) -> bool {
        &&& writeable(self.entry(root, table_index(va, 4)))
        &&& writeable(self.entry(self.pdpt(root, va), table_index(va, 3)))
        &&& writeable(self.entry(self.pd(root, va), table_index(va, 2)))
    }

    /// Whether `va` is mapped to a present level-1 entry from `root`.
    pub open spec fn is_mapped(&self, root: u64, va: u64) -> bool {
        &&& self.translate(root, va).is_some()
        &&& present(self.translate(root, va).unwrap())
    }

    /// No page tables.
    pub fn new() -> (r: PageTables)
        ensures
            r.wf(),
            r.tables() == Map::<u64, PageTable>::empty(),
    {
        PageTables { tables: BTreeMap::new(), levels: Ghost(Map::empty()) }
    }

    /// Entry `i` of the table at `t`.
    pub fn get_entry(&self, t: u64, i: usize) -> (r: PageTableEntry)
        requires
            self.wf(),
            self.has_table(t),
            i < PAGE_TABLE_ENTRIES,
        ensures
            r.0 == self.entry(t, i as int),
    {
        let table = self.tables.get(&t).unwrap();
        table.entries[i]
    }

    /// The frame allocator hands out only addresses an entry can hold, and no
    /// free byte lies in the frame of a table.
    pub open spec fn separate_from(&self, frames: &PfListAllocator) -> bool {
        &&& frames.wf()
        &&& forall|a: int| #[trigger] frames.free().contains(a) ==> 0 <= a < MAX_PHYS_ADDR
        &&& forall|t: u64| #[trigger] self.has_table(t) ==> !frames.free().contains(t as int)
    }

    /// Adds an all-zero table of level `lvl` in the frame at `a`.
    fn add_table(&mut self, a: u64, Ghost(lvl): Ghost<int>)
        requires
            !old(self).has_table(a),
            old(self).tables().dom() == old(self).levels().dom(),
        ensures
            final(self).tables().dom() == old(self).tables().dom().insert(a),
            final(self).levels() == old(self).levels().insert(a, lvl),
            forall|u: u64| u != a ==> #[trigger] final(self).tables()[u] == old(self).tables()[u],
            final(self).tables()[a].entries@.len() == PAGE_TABLE_ENTRIES,
            forall|j: int| 0 <= j < PAGE_TABLE_ENTRIES ==> #[trigger] final(self).entry(a, j) == 0,
    {
        let table = PageTable::new();
        self.tables.insert(a, table);
        proof {
            self.levels@ = self.levels@.insert(a, lvl);
        }
        assert(self.tables@.dom() =~= old(self).tables().dom().insert(a));
    }

    /// The table that entry `i` of the table at `t` points to. Where the entry
    /// is not present, a frame is taken from `frames` for a new, empty table,
    /// and the entry is made to point to it with kernel or user flags. Where it
    /// is present and the mapping is for user mode, the entry gets the user flag.
    /// Returns `None`, and changes nothing, where a frame is needed and `frames`
    /// has no free memory left.
    #[verifier::rlimit(30)]
    fn get_or_create_page_table(
        &mut self,
        frames: &mut PfListAllocator,
        t: u64,
        i: usize,
        allocated: &mut usize,
        kernel: bool,
    ) -> (r: Option<u64>)
        requires
            old(self).wf(),
            old(self).separate_from(old(frames)),
            old(self).has_table(t),
            old(self).level(t) > 1,
            i < PAGE_TABLE_ENTRIES,
            *old(allocated) * PAGE_FRAME_SIZE + old(frames).free_size() <= usize::MAX,
        ensures
            final(self).wf(),
            final(self).separate_from(final(frames)),
            *final(allocated) * PAGE_FRAME_SIZE + final(frames).free_size() == *old(allocated)
                * PAGE_FRAME_SIZE + old(frames).free_size(),
            final(frames).lowest_addr() == old(frames).lowest_addr(),
            final(frames).free().subset_of(old(frames).free()),
            match r {
                None => {
                    &&& !present(old(self).entry(t, i as int))
                    &&& *final(self) == *old(self)
                    &&& final(frames).free() == Set::<int>::empty()
                    &&& final(frames).free_size() == 0
                    &&& final(frames).free_size() == old(frames).free_size()
                },
                Some(c) => {
                    &&& agree_except(old(self), final(self), t, i as int)
                    &&& present(final(self).entry(t, i as int))
                    &&& target(final(self).entry(t, i as int)) == c
                    &&& final(self).has_table(c)
                    &&& final(self).level(c) == old(self).level(t) - 1
                    &&& !kernel ==> user_bit(final(self).entry(t, i as int))
                    &&& (present(old(self).entry(t, i as int)) && user_bit(
                        old(self).entry(t, i as int),
                    ) ==> user_bit(final(self).entry(t, i as int)))
                    &&& final(self).entry(t, i as int) == if !present(old(self).entry(t, i as int)) {
                        c | (if kernel {
                            3u64
                        } else {
                            7u64
                        })
                    } else if kernel {
                        old(self).entry(t, i as int)
                    } else {
                        (old(self).entry(t, i as int) & ADDR_MASK) | ((old(self).entry(t, i as int)
                            & FLAGS_MASK) | 4u64)
                    }
                    &&& if present(old(self).entry(t, i as int)) {
                        &&& c == target(old(self).entry(t, i as int))
                        &&& *final(allocated) == *old(allocated)
                        &&& final(self).tables().dom() == old(self).tables().dom()
                        &&& *final(frames) == *old(frames)
                    } else {
                        &&& !old(self).has_table(c)
                        &&& *final(allocated) == *old(allocated) + 1
                        &&& final(self).tables().dom() == old(self).tables().dom().insert(c)
                        &&& old(frames).free().contains(c as int)
                        &&& final(frames).free() == old(frames).free().difference(
                            byte_range(c as int, PAGE_FRAME_SIZE as int),
                        )
                        &&& final(frames).free_size() == old(frames).free_size() - PAGE_FRAME_SIZE
                        &&& forall|j: int|
                            0 <= j < PAGE_TABLE_ENTRIES ==> #[trigger] final(self).entry(c, j) == 0
                    }
                },
            },
    {
        let entry = self.get_entry(t, i);
        let ghost old_e = entry.0;
        let ghost lvl = self.level(t) - 1;
        if !entry.get_flags().contains(PageFlags::present()) {
            proof {
                assert((old_e & 0x1ffu64) & 1u64 == 1u64 <==> old_e & 1u64 == 1u64) by (bit_vector);
            }
            let frame = frames.alloc_block(1);
            match frame {
                None => {
                    proof {
                        let b = old(frames).blocks();
                        if b.len() > 0 {
                            assert(b[0].size < PAGE_FRAME_SIZE);
                        }
                        assert(b =~= Seq::<PfListNode>::empty());
                        assert(frames.free() =~= Set::<int>::empty());
                    }
                    return None;
                },
                Some(frame_addr) => {
                    let a = frame_addr.0;
                    proof {
                        let b = old(frames).blocks();
                        let k = choose|k: int|
                            is_first_fit(b, PAGE_FRAME_SIZE as int, k) && b[k].addr == frame_addr;
                        assert(b[k].holds(a as int));
                        assert(old(frames).free().contains(a as int));
                        assert(byte_range(a as int, PAGE_FRAME_SIZE as int).contains(a as int));
                        lemma_frame_addr(a);
                        lemma_entry_bits(old_e, a);
                    }
                    proof {
                        frames.lemma_free_size_bounds();
                    }
                    *allocated = *allocated + 1;
                    let mut new_entry = entry;
                    if kernel {
                        new_entry.set(frame_addr, PageFlags::kernel_flags());
                    } else {
                        new_entry.set(frame_addr, PageFlags::user_flags());
                    }
                    let ghost s0 = *self;
                    proof {
                        assert(t != a);
                    }
                    self.add_table(a, Ghost(lvl));
                    let ghost s1 = *self;
                    self.set_entry(t, i, new_entry);
                    proof {
                        assert forall|u: u64, j: int|
                            u != t && 0 <= j < PAGE_TABLE_ENTRIES implies #[trigger] self.entry(u, j)
                            == s1.entry(u, j) by {
                            assert(self.tables()[u] == s1.tables()[u]);
                        }
                        assert forall|j: int|
                            0 <= j < PAGE_TABLE_ENTRIES && j != i implies #[trigger] self.entry(t, j)
                            == s1.entry(t, j) by {
                            assert(self.tables()[t].entries@[j] == s1.tables()[t].entries@[j]);
                        }
                        assert(self.entry(t, i as int) == new_entry.0);
                        assert forall|u: u64, j: int|
                            u != a && 0 <= j < PAGE_TABLE_ENTRIES implies #[trigger] s1.entry(u, j)
                            == s0.entry(u, j) by {
                            assert(s1.tables()[u] == s0.tables()[u]);
                        }
                        assert(self.level(t) == s0.level(t));
                        assert(self.level(a) == lvl);
                        assert forall|u: u64| #[trigger] s0.has_table(u) implies self.has_table(u)
                            && self.level(u) == s0.level(u) && u != a by {}
                        assert(self.wf()) by {
                            assert forall|u: u64|
                                #![trigger self.tables()[u]]
                                self.has_table(u) implies self.tables()[u].entries@.len()
                                == PAGE_TABLE_ENTRIES && 1 <= self.level(u) <= 4 by {
                                if u != a && u != t {
                                    assert(self.tables()[u] == s0.tables()[u]);
                                }
                            }
                            assert forall|u: u64, j: int|
                                #![trigger self.entry(u, j)]
                                self.is_link(u, j) implies self.has_table(
                                    target(self.entry(u, j)),
                                ) && self.level(target(self.entry(u, j))) == self.level(u) - 1 by {
                                if u == t && j == i {
                                } else if u == a {
                                    assert(self.entry(a, j) == 0);
                                } else {
                                    assert(self.entry(u, j) == s0.entry(u, j));
                                    assert(s0.is_link(u, j));
                                }
                            }
                            assert forall|u1: u64, j1: int, u2: u64, j2: int|
                                #![trigger self.entry(u1, j1), self.entry(u2, j2)]
                                self.is_link(u1, j1) && self.is_link(u2, j2) && target(
                                    self.entry(u1, j1),
                                ) == target(self.entry(u2, j2)) implies u1 == u2 && j1 == j2 by {
                                if u1 == a {
                                    assert(self.entry(a, j1) == 0);
                                }
                                if u2 == a {
                                    assert(self.entry(a, j2) == 0);
                                }
                                if !(u1 == t && j1 == i) && u1 != a {
                                    assert(self.entry(u1, j1) == s0.entry(u1, j1));
                                    assert(s0.is_link(u1, j1));
                                }
                                if !(u2 == t && j2 == i) && u2 != a {
                                    assert(self.entry(u2, j2) == s0.entry(u2, j2));
                                    assert(s0.is_link(u2, j2));
                                }
                            }
                        }
                        assert forall|u: u64| #[trigger] self.has_table(u) implies !frames.free().contains(
                            u as int,
                        ) by {
                            if u != a {
                                assert(old(self).has_table(u));
                            }
                        }
                    }
                    return Some(a);
                },
            }
        } else if !kernel {
            let mut new_entry = entry;
            let new_flags = entry.get_flags().union(PageFlags::user());
            new_entry.set_flags(new_flags);
            proof {
                lemma_frame_addr(0);
                lemma_entry_bits(old_e, 0);
                assert((old_e & 0x1ffu64) & 1u64 == 1u64 <==> old_e & 1u64 == 1u64) by (bit_vector);
            }
            let ghost s0 = *self;
            self.set_entry(t, i, new_entry);
            proof {
                assert(self.wf()) by {
                    assert forall|u: u64, j: int|
                        #![trigger self.entry(u, j)]
                        self.is_link(u, j) implies self.has_table(target(self.entry(u, j)))
                            && self.level(target(self.entry(u, j))) == self.level(u) - 1 by {
                        assert(s0.is_link(u, j));
                    }
                    assert forall|u: u64, j: int|
                        #![trigger self.entry(u, j)]
                        self.is_link(u, j) implies writeable(self.entry(u, j)) by {
                        assert(s0.is_link(u, j));
                    }
                    assert forall|u1: u64, j1: int, u2: u64, j2: int|
                        #![trigger self.entry(u1, j1), self.entry(u2, j2)]
                        self.is_link(u1, j1) && self.is_link(u2, j2) && target(self.entry(u1, j1))
                            == target(self.entry(u2, j2)) implies u1 == u2 && j1 == j2 by {
                        assert(s0.is_link(u1, j1));
                        assert(s0.is_link(u2, j2));
                    }
                }
                assert forall|u: u64| #[trigger] self.has_table(u) implies !frames.free().contains(
                    u as int,
                ) by {
                    assert(old(self).has_table(u));
                }
            }
        } else {
            proof {
                assert((old_e & 0x1ffu64) & 1u64 == 1u64 <==> old_e & 1u64 == 1u64) by (bit_vector);
            }
        }
        let e = self.get_entry(t, i);
        Some(e.get_addr().0)
    }

    /// Sets entry `i` of the level-1 table at `t`: such an entry points to a
    /// mapped frame, never to a table.
    fn set_leaf(&mut self, t: u64, i: usize, e: PageTableEntry)
        requires
            old(self).wf(),
            old(self).has_table(t),
            old(self).level(t) == 1,
            i < PAGE_TABLE_ENTRIES,
        ensures
            final(self).wf(),
            agree_except(old(self), final(self), t, i as int),
            final(self).entry(t, i as int) == e.0,
            final(self).tables().dom() == old(self).tables().dom(),
            final(self).levels() == old(self).levels(),
    {
        let ghost s0 = *self;
        self.set_entry(t, i, e);
        proof {
            assert forall|u: u64, j: int|
                0 <= j < PAGE_TABLE_ENTRIES && !(u == t && j == i) && s0.has_table(u) implies
                #[trigger] self.entry(u, j) == s0.entry(u, j) by {
                if u == t {
                    assert(self.tables()[t].entries@[j] == s0.tables()[t].entries@[j]);
                } else {
                    assert(self.tables()[u] == s0.tables()[u]);
                }
            }
            assert(self.wf()) by {
                assert forall|u: u64|
                    #![trigger self.tables()[u]]
                    self.has_table(u) implies self.tables()[u].entries@.len() == PAGE_TABLE_ENTRIES
                        && 1 <= self.level(u) <= 4 by {
                    if u != t {
                        assert(self.tables()[u] == s0.tables()[u]);
                    }
                }
                assert forall|u: u64, j: int|
                    #![trigger self.entry(u, j)]
                    self.is_link(u, j) implies self.has_table(target(self.entry(u, j)))
                        && self.level(target(self.entry(u, j))) == self.level(u) - 1 by {
                    assert(s0.is_link(u, j));
                }
                assert forall|u1: u64, j1: int, u2: u64, j2: int|
                    #![trigger self.entry(u1, j1), self.entry(u2, j2)]
                    self.is_link(u1, j1) && self.is_link(u2, j2) && target(self.entry(u1, j1))
                        == target(self.entry(u2, j2)) implies u1 == u2 && j1 == j2 by {
                    assert(s0.is_link(u1, j1));
                    assert(s0.is_link(u2, j2));
                }
            }
        }
    }

    /// Maps the page of `va` in the address space at `root`: the tables on the
    /// way are found or made, and the level-1 entry is set to `frame` with
    /// kernel or user flags, or, where `frame` is `None`, to a frame taken from
    /// `frames`. Every frame taken is counted in `allocated`. Returns `false`
    /// where `frames` ran out of free memory on the way.
    #[verifier::rlimit(60)]
    #[verifier::spinoff_prover]
    fn map_page(
        &mut self,
        frames: &mut PfListAllocator,
        root: u64,
        va: u64,
        frame: Option<PhysAddr>,
        kernel: bool,
        allocated: &mut usize,
    ) -> (ok: bool)
        requires
            old(self).wf(),
            old(self).separate_from(old(frames)),
            old(self).has_table(root),
            old(self).level(root) == 4,
            *old(allocated) * PAGE_FRAME_SIZE + old(frames).free_size() <= usize::MAX,
            kernel ==> frame.is_some(),
        ensures
            final(self).wf(),
            final(self).separate_from(final(frames)),
            final(frames).lowest_addr() == old(frames).lowest_addr(),
            final(frames).free().subset_of(old(frames).free()),
            *final(allocated) * PAGE_FRAME_SIZE + final(frames).free_size() == *old(allocated)
                * PAGE_FRAME_SIZE + old(frames).free_size(),
            keeps_tables(old(self), final(self)),
            forall|u: u64|
                #[trigger] final(self).has_table(u) ==> old(self).has_table(u) || old(frames).free().contains(u as int),
            keeps_others(old(self), final(self), root, va),
            ok ==> {
                let e = final(self).translate(root, va).unwrap();
                &&& final(self).translate(root, va).is_some()
                &&& is_leaf_for(e, frame, kernel)
                &&& !kernel ==> final(self).user_path(root, va)
                &&& frame.is_none() ==> {
                    &&& old(frames).free().contains(target(e) as int)
                    &&& !final(frames).free().contains(target(e) as int)
                    &&& !final(self).has_table(target(e))
                }
            },
            *final(allocated) <= *old(allocated) + 4,
            !ok ==> {
                &&& final(frames).free() == Set::<int>::empty()
                &&& final(frames).free_size() == 0
                &&& *final(allocated) <= *old(allocated) + 3
            },
    {
        proof {
            lemma_index_range(va);
        }
        let i4 = ((va >> 39u64) & 0x1ff) as usize;
        let i3 = ((va >> 30u64) & 0x1ff) as usize;
        let i2 = ((va >> 21u64) & 0x1ff) as usize;
        let i1 = ((va >> 12u64) & 0x1ff) as usize;
        let ghost s0 = *self;
        let ghost f0 = *frames;
        let c3 = match self.get_or_create_page_table(frames, root, i4, allocated, kernel) {
            None => {
                return false;
            },
            Some(c) => c,
        };
        let ghost s1 = *self;
        proof {
            lemma_link_step(&s0, &s1, root, i4 as int, root, va);
        }
        let c2 = match self.get_or_create_page_table(frames, c3, i3, allocated, kernel) {
            None => {
                return false;
            },
            Some(c) => c,
        };
        let ghost s2 = *self;
        proof {
            lemma_link_step(&s1, &s2, c3, i3 as int, root, va);
            lemma_keeps_trans(&s0, &s1, &s2, root, va);
            lemma_tables_trans(&s0, &s1, &s2);
        }
        let c1 = match self.get_or_create_page_table(frames, c2, i2, allocated, kernel) {
            None => {
                return false;
            },
            Some(c) => c,
        };
        let ghost s3 = *self;
        proof {
            lemma_link_step(&s2, &s3, c2, i2 as int, root, va);
            lemma_keeps_trans(&s0, &s2, &s3, root, va);
            lemma_tables_trans(&s0, &s2, &s3);
            assert(s3.entry(root, i4 as int) == s1.entry(root, i4 as int));
            assert(s3.entry(c3, i3 as int) == s2.entry(c3, i3 as int));
            assert(s3.translate(root, va) == Some(s3.entry(c1, i1 as int)));
            assert(s3.pt(root, va) == c1);
        }
        let leaf = match frame {
            Some(p) => {
                if kernel {
                    PageTableEntry::new(p, PageFlags::kernel_flags())
                } else {
                    PageTableEntry::new(p, PageFlags::user_flags())
                }
            },
            None => {
                let f3 = Ghost(*frames);
                match frames.alloc_block(1) {
                    None => {
                        proof {
                            let b = f3@.blocks();
                            if b.len() > 0 {
                                assert(b[0].size < PAGE_FRAME_SIZE);
                            }
                            assert(b =~= Seq::<PfListNode>::empty());
                            assert(frames.free() =~= Set::<int>::empty());
                            assert(frames.free_size() == 0);
                        }
                        return false;
                    },
                    Some(f) => {
                        proof {
                            let b = f3@.blocks();
                            let k = choose|k: int|
                                is_first_fit(b, PAGE_FRAME_SIZE as int, k) && b[k].addr == f;
                            assert(b[k].holds(f.0 as int));
                            assert(f3@.free().contains(f.0 as int));
                            assert(byte_range(f.0 as int, PAGE_FRAME_SIZE as int).contains(f.0 as int));
                            lemma_frame_addr(f.0);
                            lemma_entry_bits(0, f.0);
                            frames.lemma_free_size_bounds();
                            assert(!self.has_table(f.0));
                        }
                        *allocated = *allocated + 1;
                        PageTableEntry::new(f, PageFlags::user_flags())
                    },
                }
            },
        };
        self.set_leaf(c1, i1, leaf);
        proof {
            let s4 = *self;
            lemma_leaf_step(&s3, &s4, root, va);
            lemma_keeps_trans(&s0, &s3, &s4, root, va);
            lemma_tables_trans(&s0, &s3, &s4);
            assert(s4.translate(root, va) == Some(leaf.0));
            assert forall|u: u64| #[trigger] self.has_table(u) implies !frames.free().contains(
                u as int,
            ) by {
                assert(s3.has_table(u));
            }
        }
        true
    }

    /// Whether page `k` of the range at `virt_addr` is mapped from `root` as
    /// `map` maps it; `before` and `after` are the free memory of the frame
    /// allocator before and after.
    pub open spec fn maps_page(
        &self,
        before: Set<int>,
        after: Set<int>,
        root: u64,
        virt_addr: u64,
        k: int,
        phys_addr: Option<PhysAddr>,
        kernel: bool,
    ) -> bool {
        let va = page_va(virt_addr, k);
        let e = self.translate(root, va).unwrap();
        &&& self.translate(root, va).is_some()
        &&& present(e)
        &&& self.writeable_path(root, va)
        &&& is_leaf_for(e, page_frame(virt_addr, k, phys_addr, kernel), kernel)
        &&& !kernel ==> self.user_path(root, va) && user_bit(e)
        &&& (!kernel && phys_addr.is_none()) ==> {
            &&& before.contains(target(e) as int)
            &&& !after.contains(target(e) as int)
            &&& !self.has_table(target(e))
        }
    }

    /// The frame of page `k` of a fresh mapping of `root`.
    pub open spec fn fresh_frame(&self, root: u64, virt_addr: u64, k: int) -> u64 {
        target(self.translate(root, page_va(virt_addr, k)).unwrap())
    }

    /// Sets up a mapping of `num_pages` pages from `virt_addr` in the address
    /// space whose top-level table is at `root`. Where `kernel` holds, each page
    /// is mapped to the frame at its own address (1:1). Otherwise each page is
    /// mapped for user mode, to the frames from `phys_addr` on where it is
    /// given, else to new frames taken from `frames`. Tables missing on the way
    /// are made from new frames too. The page at address 0 is never mapped.
    /// Returns how many frames were taken, or `None` where `frames` ran out of
    /// free memory.
    #[verifier::rlimit(60)]
    #[verifier::spinoff_prover]
    pub fn map(
        &mut self,
        frames: &mut PfListAllocator,
        root: u64,
        virt_addr: u64,
        num_pages: usize,
        phys_addr: Option<PhysAddr>,
        kernel: bool,
    ) -> (r: Option<usize>)
        requires
            old(self).wf(),
            old(self).separate_from(old(frames)),
            old(self).has_table(root),
            old(self).level(root) == 4,
            virt_addr + num_pages * PAGE_SIZE <= VIRT_LIMIT,
            phys_addr matches Some(p) ==> p.0 + num_pages * PAGE_SIZE <= u64::MAX,
        ensures
            grows_from(old(self), final(self), old(frames), final(frames)),
            final(self).has_table(root),
            final(self).level(root) == 4,
            maps_range(
                old(self),
                final(self),
                old(frames),
                final(frames),
                root,
                virt_addr,
                num_pages as int,
                phys_addr,
                kernel,
                r.is_some(),
            ),
            r matches Some(count) ==> count * PAGE_FRAME_SIZE == old(frames).free_size() - final(frames).free_size()
                && count <= 4 * num_pages,
    {
        let ghost s0 = *self;
        let ghost f0 = *frames;
        let ghost lo = virt_addr / 4096;
        proof {
            frames.lemma_free_size_bounds();
        }
        let mut count: usize = 0;
        let mut k: usize = 0;
        while k < num_pages
            invariant
                k <= num_pages,
                s0 == *old(self),
                f0 == *old(frames),
                virt_addr + num_pages * PAGE_SIZE <= VIRT_LIMIT,
                phys_addr matches Some(p) ==> p.0 + num_pages * PAGE_SIZE <= u64::MAX,
                lo == virt_addr / 4096,
                self.wf(),
                self.separate_from(frames),
                self.has_table(root),
                self.level(root) == 4,
                frames.lowest_addr() == f0.lowest_addr(),
                frames.free().subset_of(f0.free()),
                count * PAGE_FRAME_SIZE + frames.free_size() == f0.free_size(),
                count <= 4 * k,
                f0.free_size() <= usize::MAX,
                keeps_tables(&s0, self),
                forall|u: u64|
                    #[trigger] self.has_table(u) ==> s0.has_table(u) || f0.free().contains(u as int),
                forall|r2: u64, va2: u64|
                    #![trigger self.translate(r2, va2)]
                    s0.has_table(r2) && s0.level(r2) == 4 && s0.translate(r2, va2).is_some() && (r2
                        != root || !(lo <= vpn(va2) < lo + k)) ==> self.translate(r2, va2)
                        == s0.translate(r2, va2) && (s0.user_path(r2, va2) ==> self.user_path(
                        r2,
                        va2,
                    )),
                forall|j: int|
                    0 <= j < k && page_va(virt_addr, j) != 0 ==> #[trigger] self.maps_page(
                        f0.free(),
                        frames.free(),
                        root,
                        virt_addr,
                        j,
                        phys_addr,
                        kernel,
                    ),
                !kernel && phys_addr.is_none() ==> forall|k1: int, k2: int|
                    0 <= k1 < k2 < k && page_va(virt_addr, k1) != 0 ==> #[trigger] self.fresh_frame(
                        root,
                        virt_addr,
                        k1,
                    ) != #[trigger] self.fresh_frame(root, virt_addr, k2),
            decreases num_pages - k,
        {
            let va = virt_addr + (k as u64) * 4096;
            proof {
                assert(va == page_va(virt_addr, k as int));
            }
            if va != 0 {
                let frame = if kernel {
                    Some(PhysAddr::new(va))
                } else {
                    match phys_addr {
                        Some(p) => Some(PhysAddr::new(p.0 + (k as u64) * 4096)),
                        None => None,
                    }
                };
                let ghost sb = *self;
                let ghost fb = *frames;
                let ok = self.map_page(frames, root, va, frame, kernel, &mut count);
                proof {
                    lemma_page_vpn(virt_addr, k as int);
                    assert forall|r2: u64, va2: u64|
                        s0.has_table(r2) && s0.level(r2) == 4 && s0.translate(r2, va2).is_some() && (
                        r2 != root || !(lo <= vpn(va2) < lo + k + 1)) implies #[trigger] self.translate(
                        r2,
                        va2,
                    ) == s0.translate(r2, va2) && (s0.user_path(r2, va2) ==> self.user_path(r2, va2)) by {
                        assert(sb.translate(r2, va2) == s0.translate(r2, va2));
                        assert(sb.has_table(r2));
                    }
                    lemma_tables_trans(&s0, &sb, self);
                }
                if !ok {
                    return None;
                }
                proof {
                    lemma_page_vpn(virt_addr, k as int);
                    assert forall|j: int|
                        0 <= j < k + 1 && page_va(virt_addr, j) != 0 implies #[trigger] self.maps_page(
                        f0.free(),
                        frames.free(),
                        root,
                        virt_addr,
                        j,
                        phys_addr,
                        kernel,
                    ) by {
                        let vj = page_va(virt_addr, j);
                        if j < k {
                            lemma_page_vpn(virt_addr, j);
                            assert(sb.maps_page(f0.free(), fb.free(), root, virt_addr, j, phys_addr, kernel));
                            lemma_path_writeable(self, root, vj);
                            assert(self.translate(root, vj) == sb.translate(root, vj));
                            let e = sb.translate(root, vj).unwrap();
                            if !kernel && phys_addr.is_none() {
                                assert(!frames.free().contains(target(e) as int));
                                assert(!self.has_table(target(e)));
                            }
                            if !kernel {
                                assert(self.user_path(root, vj));
                            }
                        } else {
                            lemma_path_writeable(self, root, va);
                            assert(j == k);
                            assert(vj == va);
                            assert(frame == page_frame(virt_addr, j, phys_addr, kernel));
                            lemma_leaf_bits(self.translate(root, va).unwrap(), frame, kernel);
                        }
                    }
                    if !kernel && phys_addr.is_none() {
                        assert forall|k1: int, k2: int|
                            0 <= k1 < k2 < k + 1 && page_va(virt_addr, k1) != 0 implies #[trigger] self.fresh_frame(
                            root,
                            virt_addr,
                            k1,
                        ) != #[trigger] self.fresh_frame(root, virt_addr, k2) by {
                            lemma_page_vpn(virt_addr, k1);
                            lemma_page_vpn(virt_addr, k2);
                            assert(sb.maps_page(f0.free(), fb.free(), root, virt_addr, k1, phys_addr, kernel));
                            assert(self.fresh_frame(root, virt_addr, k1) == sb.fresh_frame(root, virt_addr, k1));
                            if k2 < k {
                                assert(sb.maps_page(f0.free(), fb.free(), root, virt_addr, k2, phys_addr, kernel));
                                assert(self.fresh_frame(root, virt_addr, k2) == sb.fresh_frame(root, virt_addr, k2));
                            }
                        }
                    }
                }
            } else {
                proof {
                    assert forall|j: int|
                        0 <= j < k + 1 && page_va(virt_addr, j) != 0 implies #[trigger] self.maps_page(
                        f0.free(),
                        frames.free(),
                        root,
                        virt_addr,
                        j,
                        phys_addr,
                        kernel,
                    ) by {
                        assert(j < k);
                    }
                    lemma_page_vpn(virt_addr, k as int);
                }
            }
            k = k + 1;
        }
        Some(count)
    }

    /// Takes a frame from `frames` for a new, empty top-level table.
    /// Returns its address, or `None` where no free memory is left.
    fn new_root(&mut self, frames: &mut PfListAllocator) -> (r: Option<u64>)
        requires
            old(self).wf(),
            old(self).separate_from(old(frames)),
        ensures
            grows_from(old(self), final(self), old(frames), final(frames)),
            forall|r2: u64, va2: u64|
                #![trigger final(self).translate(r2, va2)]
                old(self).has_table(r2) && old(self).level(r2) == 4 && old(self).translate(
                    r2,
                    va2,
                ).is_some() ==> final(self).translate(r2, va2) == old(self).translate(r2, va2),
            match r {
                Some(a) => {
                    &&& final(self).has_table(a)
                    &&& final(self).level(a) == 4
                    &&& !old(self).has_table(a)
                    &&& old(frames).free().contains(a as int)
                    &&& final(frames).free_size() == old(frames).free_size() - PAGE_FRAME_SIZE
                },
                None => {
                    &&& final(frames).free() == Set::<int>::empty()
                    &&& old(frames).free_size() == 0
                    &&& *final(self) == *old(self)
                },
            },
    {
        let ghost f0 = *frames;
        match frames.alloc_block(1) {
            None => {
                proof {
                    let b = f0.blocks();
                    if b.len() > 0 {
                        assert(b[0].size < PAGE_FRAME_SIZE);
                    }
                    assert(b =~= Seq::<PfListNode>::empty());
                    assert(frames.free() =~= Set::<int>::empty());
                    assert(f0.free_size() == 0);
                }
                None
            },
            Some(f) => {
                let a = f.0;
                proof {
                    let b = f0.blocks();
                    let k = choose|k: int| is_first_fit(b, PAGE_FRAME_SIZE as int, k) && b[k].addr == f;
                    assert(b[k].holds(a as int));
                    assert(f0.free().contains(a as int));
                    assert(byte_range(a as int, PAGE_FRAME_SIZE as int).contains(a as int));
                }
                let ghost s0 = *self;
                self.add_table(a, Ghost(4));
                proof {
                    lemma_frame_addr(0);
                    lemma_entry_bits(0, 0);
                    assert forall|u: u64, j: int|
                        u != a && 0 <= j < PAGE_TABLE_ENTRIES implies #[trigger] self.entry(u, j)
                        == s0.entry(u, j) by {
                        assert(self.tables()[u] == s0.tables()[u]);
                    }
                    assert forall|u: u64| #[trigger] s0.has_table(u) implies self.has_table(u)
                        && self.level(u) == s0.level(u) && u != a by {}
                    assert(self.wf()) by {
                        assert forall|u: u64|
                            #![trigger self.tables()[u]]
                            self.has_table(u) implies self.tables()[u].entries@.len()
                            == PAGE_TABLE_ENTRIES && 1 <= self.level(u) <= 4 by {
                            if u != a {
                                assert(self.tables()[u] == s0.tables()[u]);
                            }
                        }
                        assert forall|u: u64, j: int|
                            #![trigger self.entry(u, j)]
                            self.is_link(u, j) implies self.has_table(target(self.entry(u, j)))
                            && self.level(target(self.entry(u, j))) == self.level(u) - 1 by {
                            if u == a {
                                assert(self.entry(a, j) == 0);
                            } else {
                                assert(self.entry(u, j) == s0.entry(u, j));
                                assert(s0.is_link(u, j));
                                assert(s0.has_table(target(s0.entry(u, j))));
                            }
                        }
                        assert forall|u1: u64, j1: int, u2: u64, j2: int|
                            #![trigger self.entry(u1, j1), self.entry(u2, j2)]
                            self.is_link(u1, j1) && self.is_link(u2, j2) && target(
                                self.entry(u1, j1),
                            ) == target(self.entry(u2, j2)) implies u1 == u2 && j1 == j2 by {
                            if u1 == a {
                                assert(self.entry(a, j1) == 0);
                            }
                            if u2 == a {
                                assert(self.entry(a, j2) == 0);
                            }
                            if u1 != a && u2 != a {
                                assert(self.entry(u1, j1) == s0.entry(u1, j1));
                                assert(self.entry(u2, j2) == s0.entry(u2, j2));
                                assert(s0.is_link(u1, j1));
                                assert(s0.is_link(u2, j2));
                            }
                        }
                    }
                    assert forall|u: u64| #[trigger] self.has_table(u) implies !frames.free().contains(
                        u as int,
                    ) by {
                        if u != a {
                            assert(s0.has_table(u));
                        }
                    }
                    assert forall|r2: u64, va2: u64|
                        s0.has_table(r2) && s0.level(r2) == 4 && s0.translate(r2, va2).is_some()
                            implies #[trigger] self.translate(r2, va2) == s0.translate(r2, va2) && (
                        s0.user_path(r2, va2) ==> self.user_path(r2, va2)) by {
                        lemma_index_range(va2);
                        lemma_translate_frame(&s0, self, r2, va2, r2, table_index(va2, 4));
                    }
                }
                Some(a)
            },
        }
    }

    /// Sets entry `i` of the table at `t`.
    fn set_entry(&mut self, t: u64, i: usize, e: PageTableEntry)
        requires
            old(self).has_table(t),
            old(self).tables().dom() == old(self).levels().dom(),
            i < PAGE_TABLE_ENTRIES,
            old(self).tables()[t].entries@.len() == PAGE_TABLE_ENTRIES,
        ensures
            final(self).tables().dom() == old(self).tables().dom(),
            final(self).levels() == old(self).levels(),
            final(self).tables()[t].entries@ == old(self).tables()[t].entries@.update(i as int, e),
            forall|u: u64| u != t ==> #[trigger] final(self).tables()[u] == old(self).tables()[u],
    {
        let mut table = self.tables.remove(&t).unwrap();
        table.entries.set(i, e);
        self.tables.insert(t, table);
        assert(self.tables@.dom() =~= old(self).tables().dom());
    }
}

/// Every table of `s` is a table of `s2` with the same level and the same
/// entries, but for entry `i` of the table at `t`.
pub open spec fn agree_except(s: &PageTables, s2: &PageTables, t: u64, i: int) -> bool {
    &&& forall|u: u64, j: int|
        #![trigger s2.entry(u, j)]
        s.has_table(u) && 0 <= j < PAGE_TABLE_ENTRIES && !(u == t && j == i) ==> s2.entry(u, j)
            == s.entry(u, j)
    &&& keeps_tables(s, s2)
}

/// A change of one entry leaves the translation of a mapped address alone when
/// the entry is not on its way, or is a link whose presence and target stay.
proof fn lemma_translate_frame(s: &PageTables, s2: &PageTables, root: u64, va: u64, t: u64, i: int)
    requires
        s.wf(),
        s.has_table(root),
        s.level(root) == 4,
        s.translate(root, va).is_some(),
        agree_except(s, s2, t, i),
        s.has_table(t),
        0 <= i < PAGE_TABLE_ENTRIES,
        s.level(t) > 1 ==> !present(s.entry(t, i)) || (present(s2.entry(t, i)) && target(
            s2.entry(t, i),
        ) == target(s.entry(t, i)) && (user_bit(s.entry(t, i)) ==> user_bit(s2.entry(t, i)))),
        s.level(t) == 1 ==> !(t == s.pt(root, va) && i == table_index(va, 1)),
    ensures
        s2.translate(root, va) == s.translate(root, va),
        s.user_path(root, va) ==> s2.user_path(root, va),
{
    lemma_index_range(va);
    let i4 = table_index(va, 4);
    let i3 = table_index(va, 3);
    let i2 = table_index(va, 2);
    let i1 = table_index(va, 1);
    let p3 = s.pdpt(root, va);
    let p2 = s.pd(root, va);
    let p1 = s.pt(root, va);
    assert(s.is_link(root, i4));
    assert(s.has_table(p3) && s.level(p3) == 3);
    assert(s.is_link(p3, i3));
    assert(s.has_table(p2) && s.level(p2) == 2);
    assert(s.is_link(p2, i2));
    assert(s.has_table(p1) && s.level(p1) == 1);
    assert(s2.entry(root, i4) == s.entry(root, i4) || (t == root && i == i4));
    assert(s2.pdpt(root, va) == p3);
    assert(s2.entry(p3, i3) == s.entry(p3, i3) || (t == p3 && i == i3));
    assert(s2.pd(root, va) == p2);
    assert(s2.entry(p2, i2) == s.entry(p2, i2) || (t == p2 && i == i2));
    assert(s2.pt(root, va) == p1);
    assert(s2.entry(p1, i1) == s.entry(p1, i1));
}

/// The entries on the way to a mapped address allow writes: every link does.
pub proof fn lemma_path_writeable(s: &PageTables, root: u64, va: u64)
    requires
        s.wf(),
        s.has_table(root),
        s.level(root) == 4,
        s.translate(root, va).is_some(),
    ensures
        s.writeable_path(root, va),
{
    lemma_index_range(va);
    assert(s.is_link(root, table_index(va, 4)));
    assert(s.is_link(s.pdpt(root, va), table_index(va, 3)));
    assert(s.is_link(s.pd(root, va), table_index(va, 2)));
}

/// Two mapped addresses whose ways end in the same level-1 entry lie in the
/// same page of the same address space: a table hangs from one entry only.
proof fn lemma_same_slot(s: &PageTables, r1: u64, va1: u64, r2: u64, va2: u64)
    requires
        s.wf(),
        s.has_table(r1),
        s.has_table(r2),
        s.level(r1) == 4,
        s.level(r2) == 4,
        s.translate(r1, va1).is_some(),
        s.translate(r2, va2).is_some(),
        s.pt(r1, va1) == s.pt(r2, va2),
        table_index(va1, 1) == table_index(va2, 1),
    ensures
        r1 == r2,
        vpn(va1) == vpn(va2),
{
    lemma_index_range(va1);
    lemma_index_range(va2);
    assert(s.is_link(r1, table_index(va1, 4)));
    assert(s.is_link(r2, table_index(va2, 4)));
    assert(s.is_link(s.pdpt(r1, va1), table_index(va1, 3)));
    assert(s.is_link(s.pdpt(r2, va2), table_index(va2, 3)));
    assert(s.is_link(s.pd(r1, va1), table_index(va1, 2)));
    assert(s.is_link(s.pd(r2, va2), table_index(va2, 2)));
    assert(s.pd(r1, va1) == s.pd(r2, va2));
    assert(s.pdpt(r1, va1) == s.pdpt(r2, va2));
    lemma_vpn_indices(va1, va2);
}

/// Every address space that was mapped in `s`, but for the page of `va` in
/// the one at `root`, translates in `s2` as it did in `s`, and keeps its user
/// access.
pub open spec fn keeps_others(s: &PageTables, s2: &PageTables, root: u64, va: u64) -> bool {
    forall|r2: u64, va2: u64|
        #![trigger s2.translate(r2, va2)]
        s.has_table(r2) && s.level(r2) == 4 && s.translate(r2, va2).is_some() && (r2 != root
            || vpn(va2) != vpn(va)) ==> s2.translate(r2, va2) == s.translate(r2, va2) && (
        s.user_path(r2, va2) ==> s2.user_path(r2, va2))
}

/// Tables are kept, with their levels, from `s` to `s2`.
pub open spec fn keeps_tables(s: &PageTables, s2: &PageTables) -> bool {
    forall|u: u64| #[trigger] s.has_table(u) ==> s2.has_table(u) && s2.level(u) == s.level(u)
}

/// Keeping tables composes.
pub proof fn lemma_tables_trans(s0: &PageTables, s1: &PageTables, s2: &PageTables)
    requires
        keeps_tables(s0, s1),
        keeps_tables(s1, s2),
    ensures
        keeps_tables(s0, s2),
{
    assert forall|u: u64| #[trigger] s0.has_table(u) implies s2.has_table(u) && s2.level(u)
        == s0.level(u) by {
        assert(s1.has_table(u));
    }
}

/// Making a link present, or giving a present link the user flag, keeps every
/// mapped address.
proof fn lemma_link_step(s: &PageTables, s2: &PageTables, t: u64, i: int, root: u64, va: u64)
    requires
        s.wf(),
        s.has_table(t),
        s.level(t) > 1,
        0 <= i < PAGE_TABLE_ENTRIES,
        agree_except(s, s2, t, i),
        !present(s.entry(t, i)) || (present(s2.entry(t, i)) && target(s2.entry(t, i)) == target(
            s.entry(t, i),
        ) && (user_bit(s.entry(t, i)) ==> user_bit(s2.entry(t, i)))),
    ensures
        keeps_others(s, s2, root, va),
{
    assert forall|r2: u64, va2: u64|
        s.has_table(r2) && s.level(r2) == 4 && s.translate(r2, va2).is_some() && (r2 != root
            || vpn(va2) != vpn(va)) implies #[trigger] s2.translate(r2, va2) == s.translate(r2, va2)
        && (s.user_path(r2, va2) ==> s2.user_path(r2, va2)) by {
        lemma_translate_frame(s, s2, r2, va2, t, i);
    }
}

/// Setting the level-1 entry on the way to `va` from `root` keeps every other
/// mapped page.
proof fn lemma_leaf_step(s: &PageTables, s2: &PageTables, root: u64, va: u64)
    requires
        s.wf(),
        s.has_table(root),
        s.level(root) == 4,
        s.translate(root, va).is_some(),
        agree_except(s, s2, s.pt(root, va), table_index(va, 1)),
    ensures
        keeps_others(s, s2, root, va),
{
    lemma_index_range(va);
    let p1 = s.pt(root, va);
    assert(s.is_link(root, table_index(va, 4)));
    assert(s.is_link(s.pdpt(root, va), table_index(va, 3)));
    assert(s.is_link(s.pd(root, va), table_index(va, 2)));
    assert forall|r2: u64, va2: u64|
        s.has_table(r2) && s.level(r2) == 4 && s.translate(r2, va2).is_some() && (r2 != root
            || vpn(va2) != vpn(va)) implies #[trigger] s2.translate(r2, va2) == s.translate(r2, va2)
        && (s.user_path(r2, va2) ==> s2.user_path(r2, va2)) by {
        if p1 == s.pt(r2, va2) && table_index(va, 1) == table_index(va2, 1) {
            lemma_same_slot(s, root, va, r2, va2);
        }
        lemma_translate_frame(s, s2, r2, va2, p1, table_index(va, 1));
    }
}

/// Keeping the other pages composes.
proof fn lemma_keeps_trans(s0: &PageTables, s1: &PageTables, s2: &PageTables, root: u64, va: u64)
    requires
        keeps_others(s0, s1, root, va),
        keeps_others(s1, s2, root, va),
        keeps_tables(s0, s1),
    ensures
        keeps_others(s0, s2, root, va),
{
    assert forall|r2: u64, va2: u64|
        s0.has_table(r2) && s0.level(r2) == 4 && s0.translate(r2, va2).is_some() && (r2 != root
            || vpn(va2) != vpn(va)) implies #[trigger] s2.translate(r2, va2) == s0.translate(r2, va2)
        && (s0.user_path(r2, va2) ==> s2.user_path(r2, va2)) by {
        assert(s1.translate(r2, va2) == s0.translate(r2, va2));
        assert(s1.has_table(r2));
    }
}

/// The level-1 entry a page is mapped with: `frame` with kernel or user flags,
/// or, where no frame is given, some frame with user flags.
pub open spec fn is_leaf_for(e: u64, frame: Option<PhysAddr>, kernel: bool) -> bool {
    match frame {
        Some(p) => e == p.0 | (if kernel {
            3u64
        } else {
            7u64
        }),
        None => e == target(e) | 7u64,
    }
}

/// Addresses of the pages the four levels of tables tell apart lie below 2^48.
pub const VIRT_LIMIT: u64 = 0x1_0000_0000_0000;

/// The address of page `k` of a range that starts at `virt_addr`.
pub open spec fn page_va(virt_addr: u64, k: int) -> u64 {
    (virt_addr + k * 4096) as u64
}

/// The frame page `k` of a mapping is set to: its own address in a kernel
/// mapping, the `k`-th frame from `phys_addr` where given, else a new one.
pub open spec fn page_frame(virt_addr: u64, k: int, phys_addr: Option<PhysAddr>, kernel: bool) -> Option<
    PhysAddr,
> {
    if kernel {
        Some(PhysAddr(page_va(virt_addr, k)))
    } else {
        match phys_addr {
            Some(p) => Some(PhysAddr((p.0 + k * 4096) as u64)),
            None => None,
        }
    }
}

/// The pages of a range below 2^48 have consecutive page numbers.
pub proof fn lemma_page_vpn(virt_addr: u64, k: int)
    requires
        0 <= k,
        virt_addr + k * 4096 < VIRT_LIMIT,
    ensures
        vpn(page_va(virt_addr, k)) == virt_addr / 4096 + k,
{
    let a = page_va(virt_addr, k);
    lemma_vpn_low(a);
    assert((virt_addr + k * 4096) / 4096 == virt_addr / 4096 + k) by (nonlinear_arith)
        requires
            0 <= k,
            0 <= virt_addr,
    ;
}

/// A leaf entry made with kernel or user flags is present, and with user
/// flags allows user access.
proof fn lemma_leaf_bits(e: u64, frame: Option<PhysAddr>, kernel: bool)
    requires
        is_leaf_for(e, frame, kernel),
    ensures
        present(e),
        !kernel ==> user_bit(e),
{
    let x = match frame {
        Some(p) => p.0,
        None => target(e),
    };
    assert((x | 3u64) & 1u64 == 1u64 && (x | 7u64) & 1u64 == 1u64 && (x | 7u64) & 4u64 == 4u64)
        by (bit_vector);
}

/// Every address mapped in an address space of `s` translates in `s2` as it did.
pub open spec fn keeps_address_spaces(s: &PageTables, s2: &PageTables) -> bool {
    forall|r2: u64, va2: u64|
        #![trigger s2.translate(r2, va2)]
        s.has_table(r2) && s.level(r2) == 4 && s.translate(r2, va2).is_some() ==> s2.translate(r2, va2)
            == s.translate(r2, va2)
}

/// `s2` and `f2` are what page tables `s` and frame allocator `f` became
/// through mappings: both stay well formed, tables and their levels stay, new
/// tables were made from free memory, and free memory only shrank.
pub open spec fn grows_from(
    s: &PageTables,
    s2: &PageTables,
    f: &PfListAllocator,
    f2: &PfListAllocator,
) -> bool {
    &&& s2.wf()
    &&& s2.separate_from(f2)
    &&& f2.lowest_addr() == f.lowest_addr()
    &&& f2.free().subset_of(f.free())
    &&& keeps_tables(s, s2)
    &&& forall|u: u64| #[trigger] s2.has_table(u) ==> s.has_table(u) || f.free().contains(u as int)
}

/// The outcome `r` of mapping `num_pages` pages from `virt_addr` in the
/// address space at `root`, from tables `s` and frames `f` to `s2` and `f2`.
/// Every other mapped address, in this address space or another, translates
/// as before. Where `ok` holds, every page but the one at address 0 is mapped
/// as asked, frames taken fresh are distinct, and at most four frames were
/// taken for each page (three tables and the page's own frame). Otherwise no
/// free memory is left, and there was less than that to begin with.
pub open spec fn maps_range(
    s: &PageTables,
    s2: &PageTables,
    f: &PfListAllocator,
    f2: &PfListAllocator,
    root: u64,
    virt_addr: u64,
    num_pages: int,
    phys_addr: Option<PhysAddr>,
    kernel: bool,
    ok: bool,
) -> bool {
    &&& forall|r2: u64, va2: u64|
        #![trigger s2.translate(r2, va2)]
        s.has_table(r2) && s.level(r2) == 4 && s.translate(r2, va2).is_some() && (r2 != root
            || !(virt_addr / 4096 <= vpn(va2) < virt_addr / 4096 + num_pages)) ==> s2.translate(
            r2,
            va2,
        ) == s.translate(r2, va2) && (s.user_path(r2, va2) ==> s2.user_path(r2, va2))
    &&& if ok {
        &&& forall|k: int|
                0 <= k < num_pages && page_va(virt_addr, k) != 0 ==> #[trigger] s2.maps_page(
                    f.free(),
                    f2.free(),
                    root,
                    virt_addr,
                    k,
                    phys_addr,
                    kernel,
                )
            &&& !kernel && phys_addr.is_none() ==> forall|k1: int, k2: int|
                0 <= k1 < k2 < num_pages && page_va(virt_addr, k1) != 0 ==> #[trigger] s2.fresh_frame(
                    root,
                    virt_addr,
                    k1,
                ) != #[trigger] s2.fresh_frame(root, virt_addr, k2)
        &&& f2.free_size() >= f.free_size() - 4 * num_pages * PAGE_FRAME_SIZE
    } else {
        &&& f2.free() == Set::<int>::empty()
        &&& f.free_size() < 4 * num_pages * PAGE_FRAME_SIZE
    }
}

/// First address of the code of a user program.
pub const USER_CODE_VIRT_START: u64 = 0x0100_0000_0000;

/// Lowest address of the user stack.
pub const USER_STACK_VIRT_START: u64 = 0x4000_0000_0000;

/// One past the highest address of the user stack.
pub const USER_STACK_VIRT_END: u64 = 0x4000_0000_4000;

/// Sets up the kernel's page tables: a new top-level table in which the
/// physical memory up to `max_phys_addr`, rounded up to whole pages, is mapped
/// 1:1 for the kernel, but for the page at address 0. Returns the address of
/// the top-level table, or `None` where `frames` ran out of free memory.
pub fn init_kernel_tables(
    tables: &mut PageTables,
    frames: &mut PfListAllocator,
    max_phys_addr: PhysAddr,
) -> (r: Option<u64>)
    requires
        old(tables).wf(),
        old(tables).separate_from(old(frames)),
        max_phys_addr.0 <= VIRT_LIMIT,
        max_phys_addr.0 + PAGE_SIZE <= usize::MAX,
    ensures
        grows_from(old(tables), final(tables), old(frames), final(frames)),
        keeps_address_spaces(old(tables), final(tables)),
        match r {
            Some(root) => {
                &&& final(tables).has_table(root)
                &&& final(tables).level(root) == 4
                &&& !old(tables).has_table(root)
                &&& forall|k: int|
                    0 < k < (max_phys_addr.0 + PAGE_SIZE - 1) / (PAGE_SIZE as int) ==> #[trigger] final(tables).translate(root, page_va(0, k)) == Some(page_va(0, k) | 3u64)
                &&& final(frames).free_size() >= old(frames).free_size() - (1 + 4 * ((max_phys_addr.0
                    + PAGE_SIZE - 1) / (PAGE_SIZE as int))) * PAGE_FRAME_SIZE
            },
            None => {
                &&& final(frames).free() == Set::<int>::empty()
                &&& old(frames).free_size() < (1 + 4 * ((max_phys_addr.0 + PAGE_SIZE - 1) / (
                PAGE_SIZE as int))) * PAGE_FRAME_SIZE
            },
        },
{
    let num_pages = (max_phys_addr.0 as usize + PAGE_SIZE - 1) / PAGE_SIZE;
    let ghost s0 = *tables;
    let ghost f0 = *frames;
    let root = match tables.new_root(frames) {
        None => {
            return None;
        },
        Some(a) => a,
    };
    let ghost s1 = *tables;
    let ghost f1 = *frames;
    proof {
        assert(num_pages * PAGE_SIZE <= VIRT_LIMIT) by (nonlinear_arith)
            requires
                num_pages == (max_phys_addr.0 + 4095) / 4096,
                max_phys_addr.0 <= VIRT_LIMIT,
                PAGE_SIZE == 4096,
                VIRT_LIMIT == 0x1_0000_0000_0000u64,
        ;
    }
    let r = tables.map(frames, root, 0, num_pages, None, true);
    proof {
        lemma_tables_trans(&s0, &s1, tables);
        assert forall|u: u64| #[trigger] tables.has_table(u) implies s0.has_table(u) || f0.free().contains(
            u as int,
        ) by {
            if !s1.has_table(u) {
                assert(f1.free().contains(u as int));
            }
        }
        assert forall|r2: u64, va2: u64|
            s0.has_table(r2) && s0.level(r2) == 4 && s0.translate(r2, va2).is_some() implies #[trigger] tables.translate(
            r2,
            va2,
        ) == s0.translate(r2, va2) by {
            assert(s1.translate(r2, va2) == s0.translate(r2, va2));
            assert(s1.has_table(r2));
        }
    }
    match r {
        None => None,
        Some(_) => {
            proof {
                assert forall|k: int|
                    0 < k < num_pages implies #[trigger] tables.translate(root, page_va(0, k)) == Some(
                    page_va(0, k) | 3u64,
                ) by {
                    assert(tables.maps_page(f1.free(), frames.free(), root, 0, k, None, true));
                }
            }
            Some(root)
        },
    }
}

/// Maps the user stack, `STACK_SIZE` rounded up to whole pages, at
/// `USER_STACK_VIRT_START` in the address space at `root`, to new frames.
/// Returns the stack's address, or `None` where `frames` ran out of memory.
pub fn map_user_stack(tables: &mut PageTables, frames: &mut PfListAllocator, root: u64) -> (r: Option<
    u64,
>)
    requires
        old(tables).wf(),
        old(tables).separate_from(old(frames)),
        old(tables).has_table(root),
        old(tables).level(root) == 4,
    ensures
        grows_from(old(tables), final(tables), old(frames), final(frames)),
        maps_range(
            old(tables),
            final(tables),
            old(frames),
            final(frames),
            root,
            USER_STACK_VIRT_START,
            (STACK_SIZE + PAGE_SIZE - 1) / (PAGE_SIZE as int),
            None,
            false,
            r.is_some(),
        ),
        r matches Some(a) ==> a == USER_STACK_VIRT_START,
{
    let num_pages = (STACK_SIZE + PAGE_SIZE - 1) / PAGE_SIZE;
    match tables.map(frames, root, USER_STACK_VIRT_START, num_pages, None, false) {
        None => None,
        Some(_) => Some(USER_STACK_VIRT_START),
    }
}

/// Maps `num_pages` pages of a user program at `USER_CODE_VIRT_START` in the
/// address space at `root`, to the frames from `phys_addr` on. Returns the
/// program's address, or `None` where `frames` ran out of memory for tables.
pub fn map_user_app(
    tables: &mut PageTables,
    frames: &mut PfListAllocator,
    root: u64,
    num_pages: usize,
    phys_addr: PhysAddr,
) -> (r: Option<u64>)
    requires
        old(tables).wf(),
        old(tables).separate_from(old(frames)),
        old(tables).has_table(root),
        old(tables).level(root) == 4,
        USER_CODE_VIRT_START + num_pages * PAGE_SIZE <= VIRT_LIMIT,
        phys_addr.0 + num_pages * PAGE_SIZE <= u64::MAX,
    ensures
        grows_from(old(tables), final(tables), old(frames), final(frames)),
        maps_range(
            old(tables),
            final(tables),
            old(frames),
            final(frames),
            root,
            USER_CODE_VIRT_START,
            num_pages as int,
            Some(phys_addr),
            false,
            r.is_some(),
        ),
        r matches Some(a) ==> a == USER_CODE_VIRT_START,
{
    match tables.map(frames, root, USER_CODE_VIRT_START, num_pages, Some(phys_addr), false) {
        None => None,
        Some(_) => Some(USER_CODE_VIRT_START),
    }
}

/// Maps a user heap of `user_heap_size` bytes, rounded up to whole pages, from
/// `user_heap_start` in the address space at `root`, to new frames. Returns
/// whether `frames` had enough free memory.
pub fn map_user_heap(
    tables: &mut PageTables,
    frames: &mut PfListAllocator,
    root: u64,
    user_heap_start: u64,
    user_heap_size: usize,
) -> (ok: bool)
    requires
        old(tables).wf(),
        old(tables).separate_from(old(frames)),
        old(tables).has_table(root),
        old(tables).level(root) == 4,
        user_heap_size + PAGE_SIZE <= usize::MAX,
        user_heap_start + user_heap_size + PAGE_SIZE <= VIRT_LIMIT,
    ensures
        grows_from(old(tables), final(tables), old(frames), final(frames)),
        maps_range(
            old(tables),
            final(tables),
            old(frames),
            final(frames),
            root,
            user_heap_start,
            (user_heap_size + PAGE_SIZE - 1) / (PAGE_SIZE as int),
            None,
            false,
            ok,
        ),
{
    let num_pages = (user_heap_size + PAGE_SIZE - 1) / PAGE_SIZE;
    proof {
        assert(num_pages * PAGE_SIZE <= user_heap_size + PAGE_SIZE) by (nonlinear_arith)
            requires
                num_pages == (user_heap_size + 4095) / 4096,
                PAGE_SIZE == 4096,
        ;
    }
    tables.map(frames, root, user_heap_start, num_pages, None, false).is_some()
}

/// Handles a page fault at `fault_addr` in the address space at `root`: where
/// it lies within the user stack, the page it lies in is mapped to a new
/// frame and `Some(true)` is returned; elsewhere nothing changes and
/// `Some(false)` is returned. `None` means the stack could not grow for want
/// of free memory.
pub fn check_and_grow_user_stack(
    tables: &mut PageTables,
    frames: &mut PfListAllocator,
    root: u64,
    fault_addr: u64,
) -> (r: Option<bool>)
    requires
        old(tables).wf(),
        old(tables).separate_from(old(frames)),
        old(tables).has_table(root),
        old(tables).level(root) == 4,
    ensures
        grows_from(old(tables), final(tables), old(frames), final(frames)),
        (r == Some(false)) <==> (fault_addr < USER_STACK_VIRT_START || fault_addr
            >= USER_STACK_VIRT_END),
        r == Some(false) ==> *final(tables) == *old(tables) && *final(frames) == *old(frames),
        r != Some(false) ==> maps_range(
            old(tables),
            final(tables),
            old(frames),
            final(frames),
            root,
            (fault_addr - fault_addr % 4096) as u64,
            1,
            None,
            false,
            r == Some(true),
        ),
{
    if fault_addr < USER_STACK_VIRT_START || fault_addr >= USER_STACK_VIRT_END {
        proof {
            frames.lemma_free_size_bounds();
        }
        return Some(false);
    }
    let page_addr = aligne_to_page(fault_addr);
    match tables.map(frames, root, page_addr, 1, None, false) {
        None => None,
        Some(_) => Some(true),
    }
}

} // verus!
