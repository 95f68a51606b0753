//! A basic heap allocator which cannot reuse deallocated memory.
use vstd::prelude::*;
use super::{align_up, align_up_spec};

verus! {

/// A simple bump allocator that allocates memory in a linear fashion.
pub struct BumpAllocator {
    heap_start: usize,
    heap_end: usize,
    next: usize,
    allocations: usize,
}

/// What `dump_free_list` reports: the heap bounds and the free block at its end.
#[derive(Clone, Copy, Debug, PartialEq, Eq, Structural)]
pub struct BumpDump {
    pub heap_start: usize,
    pub heap_end: usize,
    pub block_start: usize,
    pub block_end: usize,
}

impl BumpAllocator {
    pub closed spec fn spec_heap_start(&self) -> usize {
        self.heap_start
    }

    pub closed spec fn spec_heap_end(&self) -> usize {
        self.heap_end
    }

    /// The next free address.
    pub closed spec fn spec_next(&self) -> usize {
        self.next
    }

    /// The number of allocations since the last reset.
    pub closed spec fn spec_allocations(&self) -> usize {
        self.allocations
    }

    pub open spec fn wf(&self) -> bool {
        self.spec_heap_start() <= self.spec_next() <= self.spec_heap_end()
    }

    /// Create a new empty bump allocator over `[heap_start, heap_start + heap_size)`.
    pub fn new(heap_start: usize, heap_size: usize) -> (r: BumpAllocator)
        requires
            heap_start + heap_size <= usize::MAX,
        ensures
            r.wf(),
            r.spec_heap_start() == heap_start,
            r.spec_heap_end() == heap_start + heap_size,
            r.spec_next() == heap_start,
            r.spec_allocations() == 0,
    {
        BumpAllocator { heap_start, heap_end: heap_start + heap_size, next: heap_start, allocations: 0 }
    }

    /// Initialize the bump allocator: nothing to do.
    pub fn init(&mut self)
        ensures
            *final(self) == *old(self),
    {
    }

    /// Dump the free memory for debugging: the heap bounds and the free block
    /// at the end of the heap. Nothing changes.
    pub fn dump_free_list(&self) -> (r: BumpDump)
        ensures
            r == (BumpDump {
                heap_start: self.spec_heap_start(),
                heap_end: self.spec_heap_end(),
                block_start: self.spec_next(),
                block_end: self.spec_heap_end(),
            }),
    {
        BumpDump {
            heap_start: self.heap_start,
            heap_end: self.heap_end,
            block_start: self.next,
            block_end: self.heap_end,
        }
    }

    /// Allocate `size` bytes aligned to `align`. Returns the address of the
    /// allocated memory, or `None` when the heap has not enough space left.
    pub fn allocate(&mut self, size: usize, align: usize) -> (r: Option<usize>)
        requires
            old(self).wf(),
            align > 0,
            align_up_spec(old(self).spec_next() as int, align as int) + size <= usize::MAX,
            align_up_spec(old(self).spec_next() as int, align as int) + size
                <= old(self).spec_heap_end() ==> old(self).spec_allocations() < usize::MAX,
        ensures
            final(self).wf(),
            final(self).spec_heap_start() == old(self).spec_heap_start(),
            final(self).spec_heap_end() == old(self).spec_heap_end(),
            ({
                let aligned = align_up_spec(old(self).spec_next() as int, align as int);
                if aligned + size > old(self).spec_heap_end() {
                    r is None && *final(self) == *old(self)
                } else {
                    &&& r == Some(aligned as usize)
                    &&& final(self).spec_next() == aligned + size
                    &&& final(self).spec_allocations() == old(self).spec_allocations() + 1
                }
            }),
    {
        let aligned_next = align_up(self.next, align);
        if aligned_next + size > self.heap_end {
            return None;
        }
        self.next = aligned_next + size;
        self.allocations = self.allocations + 1;
        Some(aligned_next)
    }

    /// Deallocate memory: a bump allocator cannot reuse memory, so nothing changes.
    pub fn dealloc(&mut self, ptr: usize, size: usize, align: usize)
        ensures
            *final(self) == *old(self),
    {
    }
}

/// Law: memory handed out by two successive allocations does not overlap, and
/// each allocation lies inside the heap, aligned as asked.
pub proof fn law_bump_allocations_disjoint(
    a0: BumpAllocator,
    a1: BumpAllocator,
    a2: BumpAllocator,
    p1: usize,
    size1: usize,
    align1: usize,
    p2: usize,
    size2: usize,
    align2: usize,
)
    requires
        a0.wf(),
        align1 > 0,
        align2 > 0,
        a1.spec_heap_end() == a0.spec_heap_end(),
        a1.spec_heap_start() == a0.spec_heap_start(),
        p1 == align_up_spec(a0.spec_next() as int, align1 as int),
        p1 + size1 <= a0.spec_heap_end(),
        a1.spec_next() == p1 + size1,
        p2 == align_up_spec(a1.spec_next() as int, align2 as int),
        p2 + size2 <= a1.spec_heap_end(),
        a2.spec_next() == p2 + size2,
    ensures
        p1 + size1 <= p2,
        a0.spec_heap_start() <= p1,
        p2 + size2 <= a0.spec_heap_end(),
        p1 % align1 == 0,
        p2 % align2 == 0,
{
    super::lemma_align_up(a0.spec_next() as int, align1 as int);
    super::lemma_align_up(a1.spec_next() as int, align2 as int);
}

} // verus!
