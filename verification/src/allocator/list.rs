//! A linked-list heap allocator: free blocks are kept in a list, new free
//! blocks go to its front, and allocation takes the first block that fits.
use vstd::prelude::*;

verus! {

/// Size in bytes of the header a free block stores at its start.
pub const LIST_NODE_SIZE: usize = 16;

/// Alignment in bytes of the header a free block stores at its start.
pub const LIST_NODE_ALIGN: usize = 8;

/// A free block: `size` bytes starting at address `addr`.
#[derive(Clone, Copy, Debug, PartialEq, Eq, Structural)]
pub struct ListNode {
    pub addr: usize,
    pub size: usize,
}

impl ListNode {
    /// A free block of `size` bytes at `addr`.
    pub fn new(addr: usize, size: usize) -> (r: ListNode)
        ensures
            r == (ListNode { addr, size }),
    {
        ListNode { addr, size }
    }

    /// Get the start address of the memory block.
    pub fn start_addr(&self) -> (r: usize)
        ensures
            r == self.addr,
    {
        self.addr
    }

    /// Get the end address of the memory block.
    pub fn end_addr(&self) -> (r: usize)
        requires
            self.addr + self.size <= usize::MAX,
        ensures
            r == self.addr + self.size,
    {
        self.start_addr() + self.size
    }
}

/// The larger of two integers.
pub open spec fn max_int(a: int, b: int) -> int {
    if a >= b {
        a
    } else {
        b
    }
}

/// The size and alignment actually reserved for a request of `size` bytes
/// aligned to `align`: the alignment is raised to that of a block header, the
/// size is padded to a multiple of that alignment and is at least the size of
/// a block header.
pub open spec fn size_align_spec(size: int, align: int) -> (int, int) {
    let al = max_int(align, LIST_NODE_ALIGN as int);
    let padded = super::align_up_spec(size, al);
    (max_int(padded, LIST_NODE_SIZE as int), al)
}

/// Law: what is reserved for a request of `size` bytes aligned to `align`.
/// The alignment is `align`, raised to that of a block header where it is
/// smaller. The size is the least multiple of that alignment that holds
/// `size` bytes, raised to the size of a block header where it is smaller;
/// so, for an alignment that divides the header size or a request of some
/// bytes, it is a multiple of the alignment, and the rest of a split block
/// stays aligned for a header.
pub proof fn law_size_align(size: int, align: int)
    requires
        size >= 0,
        align > 0,
    ensures
        ({
            let (sz, al) = size_align_spec(size, align);
            &&& al >= align && al >= LIST_NODE_ALIGN
            &&& al == align || al == LIST_NODE_ALIGN
            &&& sz >= size && sz >= LIST_NODE_SIZE
            &&& exists|m: int| m % al == 0 && size <= m < size + al && sz == max_int(m, LIST_NODE_SIZE as int)
            &&& (LIST_NODE_SIZE as int) % al == 0 || (size > 0 && al >= LIST_NODE_SIZE) ==> sz % al == 0
        }),
{
    let al = max_int(align, LIST_NODE_ALIGN as int);
    let m = super::align_up_spec(size, al);
    super::lemma_align_up(size, al);
    assert(m % al == 0 && size <= m < size + al);
    if m < LIST_NODE_SIZE as int && (LIST_NODE_SIZE as int) % al != 0 && size > 0 && al >= LIST_NODE_SIZE {
        assert(m >= al) by (nonlinear_arith)
            requires
                m % al == 0,
                m >= size,
                size > 0,
                al > 0,
        ;
    }
}

/// Whether a block can serve an allocation of `size` bytes aligned to `align`.
pub open spec fn block_fits(n: ListNode, size: int, align: int) -> bool {
    (n.addr as int) % align == 0 && n.size >= size
}

/// Block `i` is the first block of `s` that fits.
pub open spec fn is_first_fit(s: Seq<ListNode>, size: int, align: int, i: int) -> bool {
    &&& 0 <= i < s.len()
    &&& block_fits(s[i], size, align)
    &&& forall|j: int| 0 <= j < i ==> !block_fits(#[trigger] s[j], size, align)
}

/// A linked list allocator that uses a free list to manage memory.
pub struct LinkedListAllocator {
    blocks: Vec<ListNode>,
    heap_start: usize,
    heap_end: usize,
}

impl LinkedListAllocator {
    /// The free blocks, front of the list first.
    pub closed spec fn blocks(&self) -> Seq<ListNode> {
        self.blocks@
    }

    pub closed spec fn spec_heap_start(&self) -> usize {
        self.heap_start
    }

    pub closed spec fn spec_heap_end(&self) -> usize {
        self.heap_end
    }

    pub open spec fn wf(&self) -> bool {
        &&& self.spec_heap_start() <= self.spec_heap_end()
        &&& forall|i: int|
            0 <= i < self.blocks().len() ==> (#[trigger] self.blocks()[i]).addr
                + self.blocks()[i].size <= usize::MAX
    }

    /// Create a new allocator for the heap `[heap_start, heap_start + heap_size)`;
    /// its free list stays empty until `init`.
    pub fn new(heap_start: usize, heap_size: usize) -> (r: LinkedListAllocator)
        requires
            heap_start + heap_size <= usize::MAX,
        ensures
            r.wf(),
            r.blocks() == Seq::<ListNode>::empty(),
            r.spec_heap_start() == heap_start,
            r.spec_heap_end() == heap_start + heap_size,
    {
        LinkedListAllocator { blocks: Vec::new(), heap_start, heap_end: heap_start + heap_size }
    }

    /// Initialize the allocator: one free block covers the whole heap.
    pub fn init(&mut self)
        requires
            old(self).wf(),
        ensures
            final(self).wf(),
            final(self).spec_heap_start() == old(self).spec_heap_start(),
            final(self).spec_heap_end() == old(self).spec_heap_end(),
            final(self).blocks() == seq![
                ListNode {
                    addr: old(self).spec_heap_start(),
                    size: (old(self).spec_heap_end() - old(self).spec_heap_start()) as usize,
                },
            ],
    {
        let size = self.heap_end - self.heap_start;
        let mut blocks = Vec::new();
        blocks.push(ListNode::new(self.heap_start, size));
        self.blocks = blocks;
    }

    /// The number of free blocks.
    pub fn block_count(&self) -> (r: usize)
        ensures
            r == self.blocks().len(),
    {
        self.blocks.len()
    }

    /// Adds the free memory block `[addr, addr + size)` to the front of the free list.
    pub fn add_free_block(&mut self, addr: usize, size: usize)
        requires
            old(self).wf(),
            addr + size <= usize::MAX,
        ensures
            final(self).wf(),
            final(self).spec_heap_start() == old(self).spec_heap_start(),
            final(self).spec_heap_end() == old(self).spec_heap_end(),
            final(self).blocks() == seq![ListNode { addr, size }] + old(self).blocks(),
    {
        let ghost s = self.blocks@;
        self.blocks.insert(0, ListNode::new(addr, size));
        assert(self.blocks@ =~= seq![ListNode { addr, size }] + s);
        assert forall|i: int| 0 <= i < self.blocks().len() implies (
        #[trigger] self.blocks()[i]).addr + self.blocks()[i].size <= usize::MAX by {
            if i > 0 {
                assert(self.blocks()[i] == s[i - 1]);
                assert(old(self).blocks()[i - 1] == s[i - 1]);
            }
        }
    }

    /// Check if the given block can serve an allocation of `size` bytes aligned
    /// to `align`: its start must be aligned and it must be large enough.
    pub fn check_block_for_alloc(block: &ListNode, size: usize, align: usize) -> (r: Result<
        (),
        (),
    >)
        requires
            align > 0,
        ensures
            r is Ok <==> block_fits(*block, size as int, align as int),
    {
        let start = block.start_addr();
        if start % align != 0 {
            return Err(());
        }
        if block.size < size {
            return Err(());
        }
        Ok(())
    }

    /// Search the first free block that can serve `size` bytes aligned to
    /// `align`, and remove it from the list.
    pub fn find_free_block(&mut self, size: usize, align: usize) -> (r: Option<ListNode>)
        requires
            old(self).wf(),
            align > 0,
        ensures
            final(self).wf(),
            final(self).spec_heap_start() == old(self).spec_heap_start(),
            final(self).spec_heap_end() == old(self).spec_heap_end(),
            match r {
                None => {
                    &&& forall|j: int|
                        0 <= j < old(self).blocks().len() ==> !block_fits(
                            #[trigger] old(self).blocks()[j],
                            size as int,
                            align as int,
                        )
                    &&& final(self).blocks() == old(self).blocks()
                },
                Some(n) => exists|i: int|
                    is_first_fit(old(self).blocks(), size as int, align as int, i)
                        && n == old(self).blocks()[i] && final(self).blocks() == old(
                        self,
                    ).blocks().remove(i),
            },
    {
        let mut i: usize = 0;
        while i < self.blocks.len()
            invariant
                self.wf(),
                align > 0,
                self.blocks() == old(self).blocks(),
                self.spec_heap_start() == old(self).spec_heap_start(),
                self.spec_heap_end() == old(self).spec_heap_end(),
                i <= self.blocks().len(),
                forall|j: int|
                    0 <= j < i ==> !block_fits(#[trigger] self.blocks()[j], size as int, align as int),
            decreases self.blocks().len() - i,
        {
            let node = self.blocks[i];
            if Self::check_block_for_alloc(&node, size, align).is_ok() {
                let ghost s = self.blocks@;
                let taken = self.blocks.remove(i);
                proof {
                    assert(is_first_fit(s, size as int, align as int, i as int));
                    assert forall|j: int| 0 <= j < self.blocks().len() implies (
                    #[trigger] self.blocks()[j]).addr + self.blocks()[j].size <= usize::MAX by {
                        if j < i {
                            assert(self.blocks()[j] == s[j]);
                        } else {
                            assert(self.blocks()[j] == s[j + 1]);
                        }
                    }
                }
                return Some(taken);
            }
            i = i + 1;
        }
        None
    }

    /// The size and alignment reserved for a request of `size` bytes aligned to
    /// `align`, so that the memory can later hold a free block header.
    pub fn size_align(size: usize, align: usize) -> (r: (usize, usize))
        requires
            align > 0,
            size_align_spec(size as int, align as int).0 <= isize::MAX,
        ensures
            r.0 == size_align_spec(size as int, align as int).0,
            r.1 == size_align_spec(size as int, align as int).1,
            r.1 >= align && r.1 >= LIST_NODE_ALIGN,
            r.0 >= size && r.0 >= LIST_NODE_SIZE,
            (LIST_NODE_SIZE as int) % (r.1 as int) == 0 || (size > 0 && r.1 >= LIST_NODE_SIZE) ==> r.0
                % r.1 == 0,
    {
        proof {
            law_size_align(size as int, align as int);
        }
        let al = if align >= LIST_NODE_ALIGN {
            align
        } else {
            LIST_NODE_ALIGN
        };
        let padded = super::align_up(size, al);
        let sz = if padded >= LIST_NODE_SIZE {
            padded
        } else {
            LIST_NODE_SIZE
        };
        (sz, al)
    }

    /// Dump the free list for debugging: the heap bounds and the free blocks,
    /// front of the list first. Nothing changes.
    pub fn dump_free_list(&self) -> (r: (usize, usize, Vec<ListNode>))
        ensures
            r.0 == self.spec_heap_start(),
            r.1 == self.spec_heap_end(),
            r.2@ == self.blocks(),
    {
        let dumped = self.blocks.clone();
        proof {
            assert(dumped@ =~= self.blocks@);
        }
        (self.heap_start, self.heap_end, dumped)
    }

    /// Allocate `size` bytes aligned to `align`. Returns the address of the
    /// allocated memory, or `None` when no free block fits. When the block found
    /// is larger than needed and the rest can hold a block header, the rest goes
    /// back to the front of the free list.
    pub fn allocate(&mut self, size: usize, align: usize) -> (r: Option<usize>)
        requires
            old(self).wf(),
            align > 0,
            size_align_spec(size as int, align as int).0 <= isize::MAX,
        ensures
            final(self).wf(),
            final(self).spec_heap_start() == old(self).spec_heap_start(),
            final(self).spec_heap_end() == old(self).spec_heap_end(),
            ({
                let (sz, al) = size_align_spec(size as int, align as int);
                match r {
                    None => {
                        &&& forall|j: int|
                            0 <= j < old(self).blocks().len() ==> !block_fits(
                                #[trigger] old(self).blocks()[j],
                                sz,
                                al,
                            )
                        &&& final(self).blocks() == old(self).blocks()
                    },
                    Some(p) => exists|i: int|
                        {
                            &&& is_first_fit(old(self).blocks(), sz, al, i)
                            &&& p == old(self).blocks()[i].addr
                            &&& final(self).blocks() == if old(self).blocks()[i].size - sz
                                > LIST_NODE_SIZE {
                                seq![
                                    ListNode {
                                        addr: (p + sz) as usize,
                                        size: (old(self).blocks()[i].size - sz) as usize,
                                    },
                                ] + old(self).blocks().remove(i)
                            } else {
                                old(self).blocks().remove(i)
                            }
                        },
                }
            }),
    {
        let (sz, al) = Self::size_align(size, align);
        let found = self.find_free_block(sz, al);
        match found {
            None => None,
            Some(block) => {
                let ghost s = old(self).blocks();
                let ghost i = choose|i: int|
                    is_first_fit(s, sz as int, al as int, i) && block == s[i] && self.blocks()
                        == s.remove(i);
                let memory_remaining = block.size - sz;
                if memory_remaining > LIST_NODE_SIZE {
                    assert(s[i].addr + s[i].size <= usize::MAX);
                    self.add_free_block(block.start_addr() + sz, memory_remaining);
                }
                Some(block.start_addr())
            },
        }
    }

    /// Deallocate the memory at `ptr` that an allocation of `size` bytes aligned
    /// to `align` returned: it goes to the front of the free list.
    pub fn dealloc(&mut self, ptr: usize, size: usize, align: usize)
        requires
            old(self).wf(),
            align > 0,
            size_align_spec(size as int, align as int).0 <= isize::MAX,
            ptr + size_align_spec(size as int, align as int).0 <= usize::MAX,
        ensures
            final(self).wf(),
            final(self).spec_heap_start() == old(self).spec_heap_start(),
            final(self).spec_heap_end() == old(self).spec_heap_end(),
            final(self).blocks() == seq![
                ListNode { addr: ptr, size: size_align_spec(size as int, align as int).0 as usize },
            ] + old(self).blocks(),
    {
        let (sz, _) = Self::size_align(size, align);
        self.add_free_block(ptr, sz);
    }
}

/// Law: memory given back with `dealloc` serves the next allocation of the same
/// size and alignment at once, when its address is suitably aligned.
pub proof fn law_dealloc_then_alloc_reuses(
    before: LinkedListAllocator,
    after: LinkedListAllocator,
    ptr: usize,
    size: usize,
    align: usize,
)
    requires
        before.wf(),
        align > 0,
        size_align_spec(size as int, align as int).0 <= isize::MAX,
        (ptr as int) % size_align_spec(size as int, align as int).1 == 0,
        after.blocks() == seq![
            ListNode { addr: ptr, size: size_align_spec(size as int, align as int).0 as usize },
        ] + before.blocks(),
    ensures
        is_first_fit(
            after.blocks(),
            size_align_spec(size as int, align as int).0,
            size_align_spec(size as int, align as int).1,
            0,
        ),
        after.blocks()[0].addr == ptr,
{
}

} // verus!
