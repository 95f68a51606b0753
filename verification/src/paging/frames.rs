//! Physical page frames: addresses and a first-fit free-list frame allocator.
//!
//! The allocator keeps its free memory as a list of blocks ordered by address.
//! Every block is aligned to `PAGE_FRAME_SIZE`, spans a whole number of frames,
//! and neighbouring blocks are never adjacent (adjacent free memory is always
//! merged into one block).
use vstd::prelude::*;

verus! {

/// Size of one physical page frame in bytes.
pub const PAGE_FRAME_SIZE: usize = 4096;

/// A physical address in memory.
#[derive(Clone, Copy, Debug, PartialEq, Eq, Structural)]
pub struct PhysAddr(pub u64);

impl PhysAddr {
    pub open spec fn spec_raw(self) -> u64 {
        self.0
    }

    /// Wraps a raw physical address.
    pub fn new(addr: u64) -> (r: PhysAddr)
        ensures
            r.0 == addr,
    {
        PhysAddr(addr)
    }

    /// The raw value of the address.
    pub fn raw(&self) -> (r: u64)
        ensures
            r == self.0,
    {
        self.0
    }

    /// The address `n` bytes above this one.
    pub fn plus(self, n: u64) -> (r: PhysAddr)
        requires
            self.0 + n <= u64::MAX,
        ensures
            r.0 == self.0 + n,
    {
        PhysAddr(self.0 + n)
    }

    /// The address `n` bytes below this one.
    pub fn minus(self, n: u64) -> (r: PhysAddr)
        requires
            self.0 >= n,
        ensures
            r.0 == self.0 - n,
    {
        PhysAddr(self.0 - n)
    }

    /// The distance in bytes from `other` up to this address.
    pub fn minus_addr(self, other: PhysAddr) -> (r: PhysAddr)
        requires
            self.0 >= other.0,
        ensures
            r.0 == self.0 - other.0,
    {
        PhysAddr(self.0 - other.0)
    }
}

impl From<PhysAddr> for u64 {
    fn from(addr: PhysAddr) -> (r: u64) {
        addr.0
    }
}

impl vstd::std_specs::convert::FromSpecImpl<PhysAddr> for u64 {
    open spec fn obeys_from_spec() -> bool {
        true
    }

    open spec fn from_spec(addr: PhysAddr) -> u64 {
        addr.0
    }
}

/// A free block of physical memory: `size` bytes starting at `addr`.
#[derive(Clone, Copy, Debug, PartialEq, Eq, Structural)]
pub struct PfListNode {
    pub addr: PhysAddr,
    pub size: usize,
}

impl PfListNode {
    /// First byte of the block.
    pub open spec fn start(self) -> int {
        self.addr.0 as int
    }

    /// One past the last byte of the block.
    pub open spec fn end(self) -> int {
        self.addr.0 + self.size
    }

    /// Whether the byte address `a` lies in the block.
    pub open spec fn holds(self, a: int) -> bool {
        self.start() <= a < self.end()
    }

    /// A free block of `size` bytes at `addr`.
    pub fn new(addr: PhysAddr, size: usize) -> (r: PfListNode)
        ensures
            r.addr == addr,
            r.size == size,
    {
        PfListNode { addr, size }
    }

    /// The start address of the block.
    pub fn start_addr(&self) -> (r: PhysAddr)
        ensures
            r == self.addr,
    {
        self.addr
    }

    /// The address one past the end of the block.
    pub fn end_addr(&self) -> (r: PhysAddr)
        requires
            self.end() <= u64::MAX,
        ensures
            r.0 == self.end(),
    {
        self.addr.plus(self.size as u64)
    }

    /// Whether a range ending at `addr_end` ends exactly where this block starts.
    pub fn is_adjacent_front(&self, addr_end: &PhysAddr) -> (r: bool)
        ensures
            r == (self.start() == addr_end.0),
    {
        self.addr.0 == addr_end.0
    }

    /// Whether a range starting at `addr_start` starts exactly where this block ends.
    pub fn is_adjacent_back(&self, addr_start: &PhysAddr) -> (r: bool)
        requires
            self.end() <= u64::MAX,
        ensures
            r == (self.end() == addr_start.0),
    {
        self.end_addr().0 == addr_start.0
    }

    /// Whether the range `[addr_start, addr_end)` reaches into this block from
    /// the front (it ends after the block starts) or from the back (it starts
    /// before the block ends). Either suffices, so a range wholly before or
    /// wholly after the block counts too; a range that shares a byte with the
    /// block always does.
    pub fn is_overlapping(&self, addr_start: &PhysAddr, addr_end: &PhysAddr) -> (r: bool)
        requires
            self.end() <= u64::MAX,
        ensures
            r == (addr_end.0 > self.start() || addr_start.0 < self.end()),
    {
        let overlaps_front = addr_end.0 > self.addr.0;
        let overlaps_end = addr_start.0 < self.end_addr().0;
        overlaps_front || overlaps_end
    }
}

/// Whether `a` lies in one of the blocks of `s`.
pub open spec fn is_free(s: Seq<PfListNode>, a: int) -> bool {
    exists|i: int| 0 <= i < s.len() && (#[trigger] s[i]).holds(a)
}

/// The set of free byte addresses described by the blocks `s`.
pub open spec fn free_set(s: Seq<PfListNode>) -> Set<int> {
    Set::new(|a: int| is_free(s, a))
}

/// The number of free bytes in the blocks `s`.
pub open spec fn free_bytes(s: Seq<PfListNode>) -> int
    decreases s.len(),
{
    if s.len() == 0 {
        0
    } else {
        free_bytes(s.drop_last()) + s.last().size
    }
}

/// Inserting a block adds its size to the free bytes.
proof fn lemma_bytes_insert(s: Seq<PfListNode>, k: int, x: PfListNode)
    requires
        0 <= k <= s.len(),
    ensures
        free_bytes(s.insert(k, x)) == free_bytes(s) + x.size,
    decreases s.len(),
{
    let t = s.insert(k, x);
    if k == s.len() {
        assert(t.drop_last() =~= s);
    } else {
        lemma_bytes_insert(s.drop_last(), k, x);
        assert(t.drop_last() =~= s.drop_last().insert(k, x));
        assert(t.last() == s.last());
    }
}

/// The free bytes of a well-formed list end no later than its last block.
proof fn lemma_bytes_le_end(s: Seq<PfListNode>)
    requires
        blocks_wf(s),
        s.len() > 0,
    ensures
        free_bytes(s) <= s.last().end(),
    decreases s.len(),
{
    let t = s.drop_last();
    if t.len() == 0 {
        assert(free_bytes(t) == 0);
    } else {
        assert(blocks_wf(t)) by {
            assert forall|i: int, j: int| 0 <= i < j < t.len() implies (#[trigger] t[i]).end() < (
            #[trigger] t[j]).start() by {
                assert(t[i] == s[i] && t[j] == s[j]);
            }
        }
        lemma_bytes_le_end(t);
        assert(t.last() == s[s.len() - 2]);
        assert(s.last() == s[s.len() - 1]);
    }
}

/// Removing block `k` takes its size off the free bytes.
proof fn lemma_bytes_remove(s: Seq<PfListNode>, k: int)
    requires
        0 <= k < s.len(),
    ensures
        free_bytes(s.remove(k)) == free_bytes(s) - s[k].size,
{
    lemma_bytes_insert(s.remove(k), k, s[k]);
    assert(s.remove(k).insert(k, s[k]) =~= s);
}

/// Blocks of positive size hold a positive number of free bytes, unless there
/// are none.
proof fn lemma_bytes_positive(s: Seq<PfListNode>)
    requires
        forall|i: int| 0 <= i < s.len() ==> (#[trigger] s[i]).size > 0,
    ensures
        free_bytes(s) >= 0,
        s.len() > 0 ==> free_bytes(s) > 0,
    decreases s.len(),
{
    if s.len() > 0 {
        let t = s.drop_last();
        assert forall|i: int| 0 <= i < t.len() implies (#[trigger] t[i]).size > 0 by {
            assert(t[i] == s[i]);
        }
        lemma_bytes_positive(t);
        assert(s.last() == s[s.len() - 1]);
    }
}

/// Replacing block `k` by `x` changes the free bytes by the difference in size.
proof fn lemma_bytes_update(s: Seq<PfListNode>, k: int, x: PfListNode)
    requires
        0 <= k < s.len(),
    ensures
        free_bytes(s.update(k, x)) == free_bytes(s) - s[k].size + x.size,
{
    lemma_bytes_remove(s, k);
    lemma_bytes_insert(s.remove(k), k, x);
    assert(s.remove(k).insert(k, x) =~= s.update(k, x));
}

/// The byte addresses `[start, start + len)`.
pub open spec fn byte_range(start: int, len: int) -> Set<int> {
    Set::new(|a: int| start <= a < start + len)
}

/// A well-formed block list: aligned, non-empty, addressable blocks in increasing
/// order of address, with a gap between any two of them.
pub open spec fn blocks_wf(s: Seq<PfListNode>) -> bool {
    &&& forall|i: int|
        #![trigger s[i]]
        0 <= i < s.len() ==> {
            &&& s[i].size > 0
            &&& s[i].size % PAGE_FRAME_SIZE == 0
            &&& s[i].addr.0 % (PAGE_FRAME_SIZE as u64) == 0
            &&& s[i].end() <= usize::MAX
        }
    &&& forall|i: int, j: int| 0 <= i < j < s.len() ==> (#[trigger] s[i]).end() < (#[trigger] s[j]).start()
}

/// The range `[start, start + len)` shares no byte with any block of `s`.
pub open spec fn disjoint_from(s: Seq<PfListNode>, start: int, len: int) -> bool {
    forall|i: int| 0 <= i < s.len() ==> (#[trigger] s[i]).end() <= start || start + len <= s[i].start()
}

/// The index of the first block of `s` that holds at least `size` bytes, if any.
pub open spec fn is_first_fit(s: Seq<PfListNode>, size: int, i: int) -> bool {
    &&& 0 <= i < s.len()
    &&& s[i].size >= size
    &&& forall|j: int| 0 <= j < i ==> (#[trigger] s[j]).size < size
}

/// Inserting a block adds exactly its bytes to the free addresses.
proof fn lemma_free_insert(s: Seq<PfListNode>, k: int, x: PfListNode, a: int)
    requires
        0 <= k <= s.len(),
    ensures
        is_free(s.insert(k, x), a) <==> (is_free(s, a) || x.holds(a)),
{
    let t = s.insert(k, x);
    if is_free(t, a) {
        let i = choose|i: int| 0 <= i < t.len() && (#[trigger] t[i]).holds(a);
        if i < k {
            assert(s[i] == t[i]);
        } else if i > k {
            assert(s[i - 1] == t[i]);
        }
    }
    if is_free(s, a) {
        let i = choose|i: int| 0 <= i < s.len() && (#[trigger] s[i]).holds(a);
        if i < k {
            assert(t[i] == s[i]);
        } else {
            assert(t[i + 1] == s[i]);
        }
    }
    if x.holds(a) {
        assert(t[k] == x);
    }
}

/// Removing block `k` removes exactly its bytes, when blocks do not overlap.
proof fn lemma_free_remove(s: Seq<PfListNode>, k: int, a: int)
    requires
        0 <= k < s.len(),
    ensures
        is_free(s, a) <==> (is_free(s.remove(k), a) || s[k].holds(a)),
{
    let t = s.remove(k);
    if is_free(t, a) {
        let i = choose|i: int| 0 <= i < t.len() && (#[trigger] t[i]).holds(a);
        if i < k {
            assert(s[i] == t[i]);
        } else {
            assert(s[i + 1] == t[i]);
        }
    }
    if is_free(s, a) && !s[k].holds(a) {
        let i = choose|i: int| 0 <= i < s.len() && (#[trigger] s[i]).holds(a);
        if i < k {
            assert(t[i] == s[i]);
        } else {
            assert(i > k);
            assert(t[i - 1] == s[i]);
        }
    }
}

/// Removing block `k` of a well-formed list keeps it well-formed.
proof fn lemma_wf_remove(s: Seq<PfListNode>, k: int)
    requires
        blocks_wf(s),
        0 <= k < s.len(),
    ensures
        blocks_wf(s.remove(k)),
{
    let t = s.remove(k);
    assert forall|i: int| 0 <= i < t.len() implies #[trigger] t[i] == if i < k {
        s[i]
    } else {
        s[i + 1]
    } by {}
    assert forall|i: int, j: int| 0 <= i < j < t.len() implies (#[trigger] t[i]).end() < (
    #[trigger] t[j]).start() by {
        let ii = if i < k {
            i
        } else {
            i + 1
        };
        let jj = if j < k {
            j
        } else {
            j + 1
        };
        assert(s[ii].end() < s[jj].start());
    }
}

/// Inserting a fitting block at `k` keeps a list well-formed.
proof fn lemma_wf_insert(s: Seq<PfListNode>, k: int, x: PfListNode)
    requires
        blocks_wf(s),
        0 <= k <= s.len(),
        x.size > 0,
        x.size % PAGE_FRAME_SIZE == 0,
        x.addr.0 % (PAGE_FRAME_SIZE as u64) == 0,
        x.end() <= usize::MAX,
        k > 0 ==> s[k - 1].end() < x.start(),
        k < s.len() ==> x.end() < s[k].start(),
    ensures
        blocks_wf(s.insert(k, x)),
{
    let t = s.insert(k, x);
    assert forall|i: int| 0 <= i < t.len() implies #[trigger] t[i] == if i < k {
        s[i]
    } else if i == k {
        x
    } else {
        s[i - 1]
    } by {}
    assert forall|i: int, j: int| 0 <= i < j < t.len() implies (#[trigger] t[i]).end() < (
    #[trigger] t[j]).start() by {
        if i < k && j == k {
            if i < k - 1 {
                assert(s[i].end() < s[k - 1].start());
            }
        } else if i == k && j > k {
            if j - 1 > k {
                assert(s[k].end() < s[j - 1].start());
            }
        } else if i < k && j > k {
            assert(s[i].end() < s[j - 1].start());
        } else if i < k && j < k {
            assert(s[i].end() < s[j].start());
        } else {
            assert(s[i - 1].end() < s[j - 1].start());
        }
    }
}

/// Replacing block `k` by a block that still fits between its neighbours keeps
/// a list well-formed.
proof fn lemma_wf_update(s: Seq<PfListNode>, k: int, x: PfListNode)
    requires
        blocks_wf(s),
        0 <= k < s.len(),
        x.size > 0,
        x.size % PAGE_FRAME_SIZE == 0,
        x.addr.0 % (PAGE_FRAME_SIZE as u64) == 0,
        x.end() <= usize::MAX,
        k > 0 ==> s[k - 1].end() < x.start(),
        k + 1 < s.len() ==> x.end() < s[k + 1].start(),
    ensures
        blocks_wf(s.update(k, x)),
{
    lemma_wf_remove(s, k);
    let r = s.remove(k);
    if k > 0 {
        assert(r[k - 1] == s[k - 1]);
    }
    if k < r.len() {
        assert(r[k] == s[k + 1]);
    }
    lemma_wf_insert(r, k, x);
    assert(r.insert(k, x) =~= s.update(k, x));
}

/// Replacing block `k` by `x` swaps the bytes of `s[k]` for those of `x`.
proof fn lemma_free_update(s: Seq<PfListNode>, k: int, x: PfListNode, a: int)
    requires
        0 <= k < s.len(),
    ensures
        is_free(s.update(k, x), a) <==> (is_free(s.remove(k), a) || x.holds(a)),
{
    lemma_free_insert(s.remove(k), k, x, a);
    assert(s.remove(k).insert(k, x) =~= s.update(k, x));
}

/// Returns true if `addr_start` lies between the allocator's lowest address
/// `pf_allocator_start_addr` and the first free block.
pub fn is_between_head_and_first_node(
    blocks: &Vec<PfListNode>,
    addr_start: &PhysAddr,
    pf_allocator_start_addr: &Option<PhysAddr>,
) -> (r: bool)
    ensures
        r == (blocks@.len() > 0 && pf_allocator_start_addr.is_some() && addr_start.0
            <= blocks@[0].start() && addr_start.0 >= pf_allocator_start_addr.unwrap().0),
{
    if pf_allocator_start_addr.is_none() || blocks.len() == 0 {
        return false;
    }
    let lowest = match pf_allocator_start_addr {
        Some(a) => a.0,
        None => 0,
    };
    addr_start.0 <= blocks[0].addr.0 && addr_start.0 >= lowest
}

/// Returns true if the range `[addr_start, addr_end)` lies after block `i` and,
/// when block `i` has a successor, before that successor.
pub fn is_between_node_and_successor(
    blocks: &Vec<PfListNode>,
    i: usize,
    addr_start: &PhysAddr,
    addr_end: &PhysAddr,
) -> (r: bool)
    requires
        i < blocks@.len(),
        blocks@[i as int].end() <= u64::MAX,
    ensures
        r == (addr_start.0 >= blocks@[i as int].end() && (i + 1 < blocks@.len() ==> addr_end.0
            <= blocks@[i + 1].start())),
{
    let node = blocks[i];
    if blocks.len() - i > 1 {
        return addr_start.0 >= node.end_addr().0 && addr_end.0 <= blocks[i + 1].addr.0;
    }
    addr_start.0 >= node.end_addr().0
}

/// Asserts the preconditions of freeing: the start address is frame aligned.
pub fn check_asserts(addr_start: PhysAddr, num_frames: usize) -> (r: bool)
    ensures
        r == (addr_start.0 % (PAGE_FRAME_SIZE as u64) == 0),
{
    addr_start.0 % (PAGE_FRAME_SIZE as u64) == 0
}

/// Fills the block `node` with zeros in `memory`, whose first byte is the
/// physical address `memory_start`; every other byte stays as it was.
pub fn fill_block_with_zeros(memory: &mut Vec<u8>, memory_start: u64, node: PfListNode)
    requires
        memory_start <= node.start(),
        node.end() - memory_start <= old(memory).len(),
    ensures
        final(memory).len() == old(memory).len(),
        forall|i: int|
            0 <= i < final(memory).len() ==> #[trigger] final(memory)@[i] == if node.holds(
                memory_start + i,
            ) {
                0u8
            } else {
                old(memory)@[i]
            },
{
    let first: usize = (node.addr.0 - memory_start) as usize;
    let last: usize = first + node.size;
    let mut i: usize = first;
    while i < last
        invariant
            first == node.start() - memory_start,
            last == node.end() - memory_start,
            first <= i <= last,
            last <= memory.len(),
            memory.len() == old(memory).len(),
            forall|j: int|
                0 <= j < memory.len() ==> #[trigger] memory@[j] == if first <= j < i {
                    0u8
                } else {
                    old(memory)@[j]
                },
        decreases last - i,
    {
        memory.set(i, 0);
        i = i + 1;
    }
}

/// A physical frame allocator that keeps the free memory in an address-ordered
/// list of blocks. Blocks are always aligned to `PAGE_FRAME_SIZE` (4096 bytes).
pub struct PfListAllocator {
    blocks: Vec<PfListNode>,
    start_addr: Option<PhysAddr>,
}

impl PfListAllocator {
    /// The free blocks, in increasing order of address.
    pub closed spec fn blocks(&self) -> Seq<PfListNode> {
        self.blocks@
    }

    /// The lowest address the allocator manages, once it is set.
    pub closed spec fn lowest_addr(&self) -> Option<PhysAddr> {
        self.start_addr
    }

    /// The set of free byte addresses.
    pub open spec fn free(&self) -> Set<int> {
        free_set(self.blocks())
    }

    /// The number of free bytes.
    pub open spec fn free_size(&self) -> int {
        free_bytes(self.blocks())
    }

    pub open spec fn wf(&self) -> bool {
        blocks_wf(self.blocks())
    }

    /// The free bytes of a well-formed allocator fit in a `usize`.
    pub proof fn lemma_free_size_bounds(&self)
        requires
            self.wf(),
        ensures
            0 <= self.free_size() <= usize::MAX,
    {
        let s = self.blocks();
        lemma_bytes_positive(s);
        if s.len() > 0 {
            lemma_bytes_le_end(s);
            assert(s.last() == s[s.len() - 1]);
        }
    }

    /// Create a new empty physical frame list allocator.
    pub fn new() -> (r: PfListAllocator)
        ensures
            r.wf(),
            r.blocks() == Seq::<PfListNode>::empty(),
            r.lowest_addr().is_none(),
    {
        PfListAllocator { blocks: Vec::new(), start_addr: None }
    }

    /// Records the lowest physical address managed by the allocator.
    pub fn set_start_addr(&mut self, addr: PhysAddr)
        ensures
            final(self).blocks() == old(self).blocks(),
            final(self).lowest_addr() == Some(addr),
    {
        self.start_addr = Some(addr);
    }

    /// The number of free blocks.
    pub fn block_count(&self) -> (r: usize)
        ensures
            r == self.blocks().len(),
    {
        self.blocks.len()
    }

    /// The free block at position `i` in address order.
    pub fn block_at(&self, i: usize) -> (r: PfListNode)
        requires
            i < self.blocks().len(),
        ensures
            r == self.blocks()[i as int],
    {
        self.blocks[i]
    }

    /// Whether the block after block `i` starts exactly at `addr_end`.
    pub fn is_adjacent_next_front(&self, i: usize, addr_end: &PhysAddr) -> (r: bool)
        requires
            i < self.blocks().len(),
        ensures
            r == (i + 1 < self.blocks().len() && self.blocks()[i + 1].start() == addr_end.0),
    {
        if self.blocks.len() - i > 1 {
            return self.blocks[i + 1].is_adjacent_front(addr_end);
        }
        false
    }

    /// Try to allocate a block of `num_frames` physical frames, first fit.
    /// Returns the starting physical address of the allocated block on success.
    /// If the block found is larger than requested, the remaining part is added
    /// back to the free list. If no suitable block is found, returns `None`.
    /// The allocator holds no physical memory: whoever holds it fills the
    /// block with zeros through `fill_block_with_zeros`.
    pub fn alloc_block(&mut self, num_frames: usize) -> (r: Option<PhysAddr>)
        requires
            old(self).wf(),
            num_frames * PAGE_FRAME_SIZE <= usize::MAX,
        ensures
            final(self).wf(),
            final(self).lowest_addr() == old(self).lowest_addr(),
            r is Some <==> exists|i: int|
                0 <= i < old(self).blocks().len() && #[trigger] old(self).blocks()[i].size
                    >= num_frames * PAGE_FRAME_SIZE,
            r matches Some(a) ==> a.0 % (PAGE_FRAME_SIZE as u64) == 0,
            match r {
                None => {
                    &&& forall|j: int|
                        0 <= j < old(self).blocks().len() ==> (#[trigger] old(self).blocks()[j]).size
                            < num_frames * PAGE_FRAME_SIZE
                    &&& final(self).blocks() == old(self).blocks()
                },
                Some(a) => {
                    &&& final(self).free_size() == old(self).free_size() - num_frames * PAGE_FRAME_SIZE
                    &&& exists|i: int|
                        is_first_fit(old(self).blocks(), num_frames * PAGE_FRAME_SIZE, i)
                            && old(self).blocks()[i].addr == a
                    &&& byte_range(a.0 as int, num_frames * PAGE_FRAME_SIZE).subset_of(old(self).free())
                    &&& final(self).free() == old(self).free().difference(
                        byte_range(a.0 as int, num_frames * PAGE_FRAME_SIZE),
                    )
                },
            },
    {
        let search_size = PAGE_FRAME_SIZE * num_frames;
        let mut i: usize = 0;
        while i < self.blocks.len()
            invariant
                self.wf(),
                i <= self.blocks().len(),
                self.blocks() == old(self).blocks(),
                self.lowest_addr() == old(self).lowest_addr(),
                search_size == num_frames * PAGE_FRAME_SIZE,
                forall|j: int| 0 <= j < i ==> (#[trigger] self.blocks()[j]).size < search_size,
            decreases self.blocks().len() - i,
        {
            let node = self.blocks[i];
            if node.size >= search_size {
                let ghost s = self.blocks@;
                let addr = node.start_addr();
                proof {
                    assert(is_first_fit(s, search_size as int, i as int));
                    assert forall|b: int| #[trigger] byte_range(addr.0 as int, search_size as int).contains(b)
                        implies old(self).free().contains(b) by {
                        assert(s[i as int].holds(b));
                    }
                    lemma_wf_remove(s, i as int);
                    lemma_bytes_remove(s, i as int);
                }
                self.blocks.remove(i);
                if node.size > search_size {
                    let rest = PfListNode::new(addr.plus(search_size as u64), node.size - search_size);
                    proof {
                        let t = s.remove(i as int);
                        assert(node == s[i as int]);
                        assert forall|k: int| 0 <= k < t.len() implies (#[trigger] t[k]).end()
                            <= rest.start() || rest.end() <= t[k].start() by {
                            if k < i {
                                assert(t[k] == s[k]);
                                assert(s[k].end() < s[i as int].start());
                            } else {
                                assert(t[k] == s[k + 1]);
                                assert(s[i as int].end() < s[k + 1].start());
                            }
                        }
                        assert(search_size % PAGE_FRAME_SIZE == 0) by (nonlinear_arith)
                            requires
                                search_size == num_frames * PAGE_FRAME_SIZE,
                        ;
                        assert((node.size - search_size) % (PAGE_FRAME_SIZE as int) == 0);
                        assert(node.addr.0 % (PAGE_FRAME_SIZE as u64) == 0);
                        assert((node.addr.0 + search_size) % (PAGE_FRAME_SIZE as int) == 0)
                            by (nonlinear_arith)
                            requires
                                node.addr.0 % 4096 == 0,
                                search_size % 4096 == 0,
                                PAGE_FRAME_SIZE == 4096,
                        ;
                    }
                    let rest_frames = (node.size - search_size) / PAGE_FRAME_SIZE;
                    proof {
                        assert(rest_frames * PAGE_FRAME_SIZE == node.size - search_size);
                    }
                    self.free_block(rest.addr, rest_frames);
                    proof {
                        let t = s.remove(i as int);
                        assert forall|b: int| self.free().contains(b) <==> old(self).free().difference(
                            byte_range(addr.0 as int, search_size as int),
                        ).contains(b) by {
                            lemma_free_remove(s, i as int, b);
                        }
                        assert(self.free() =~= old(self).free().difference(
                            byte_range(addr.0 as int, search_size as int),
                        ));
                    }
                } else {
                    proof {
                        assert forall|b: int| self.free().contains(b) <==> old(self).free().difference(
                            byte_range(addr.0 as int, search_size as int),
                        ).contains(b) by {
                            lemma_free_remove(s, i as int, b);
                        }
                        assert(self.free() =~= old(self).free().difference(
                            byte_range(addr.0 as int, search_size as int),
                        ));
                    }
                }
                return Some(addr);
            }
            i = i + 1;
        }
        None
    }

    /// Free a previously allocated block of `num_frames` physical frames starting
    /// at `addr_start`. The address must be aligned to `PAGE_FRAME_SIZE`.
    /// The freed block is merged with adjacent free blocks.
    #[verifier::rlimit(40)]
    #[verifier::spinoff_prover]
    pub fn free_block(&mut self, addr_start: PhysAddr, num_frames: usize)
        requires
            old(self).wf(),
            addr_start.0 % (PAGE_FRAME_SIZE as u64) == 0,
            num_frames * PAGE_FRAME_SIZE <= usize::MAX,
            addr_start.0 + num_frames * PAGE_FRAME_SIZE <= usize::MAX,
            disjoint_from(old(self).blocks(), addr_start.0 as int, num_frames * PAGE_FRAME_SIZE),
        ensures
            final(self).wf(),
            final(self).lowest_addr() == old(self).lowest_addr(),
            final(self).free() == old(self).free().union(
                byte_range(addr_start.0 as int, num_frames * PAGE_FRAME_SIZE),
            ),
            final(self).free_size() == old(self).free_size() + num_frames * PAGE_FRAME_SIZE,
    {
        let aligned = check_asserts(addr_start, num_frames);
        assert(aligned);
        let size = PAGE_FRAME_SIZE * num_frames;
        let ghost s = self.blocks@;
        let ghost range = byte_range(addr_start.0 as int, size as int);
        if size == 0 {
            assert(self.free() =~= old(self).free().union(range));
            return;
        }
        proof {
            assert(size % PAGE_FRAME_SIZE == 0) by (nonlinear_arith)
                requires
                    size == num_frames * PAGE_FRAME_SIZE,
            ;
        }
        let addr_end = addr_start.plus(size as u64);
        let new_node = PfListNode::new(addr_start, size);

        // All blocks are in use: the freed block is the only free one.
        if self.blocks.len() == 0 {
            proof {
                lemma_wf_insert(s, 0, new_node);
                lemma_bytes_insert(s, 0, new_node);
                assert(s.insert(0, new_node) =~= s.push(new_node));
            }
            self.blocks.push(new_node);
            proof {
                assert forall|b: int| self.free().contains(b) <==> old(self).free().union(
                    range,
                ).contains(b) by {
                    lemma_free_insert(s, 0, new_node, b);
                }
                assert(self.free() =~= old(self).free().union(range));
            }
            return;
        }
        // The freed block lies before the first free block.

        let first = self.blocks[0];
        if addr_end.0 <= first.addr.0 {
            if first.is_adjacent_front(&addr_end) {
                let merged = PfListNode::new(addr_start, size + first.size);
                proof {
                    lemma_wf_update(s, 0, merged);
                    lemma_bytes_update(s, 0, merged);
                }
                self.blocks.set(0, merged);
                proof {
                    assert forall|b: int| self.free().contains(b) <==> old(self).free().union(
                        range,
                    ).contains(b) by {
                        lemma_free_update(s, 0, merged, b);
                        lemma_free_remove(s, 0, b);
                    }
                    assert(self.free() =~= old(self).free().union(range));
                }
            } else {
                proof {
                    lemma_wf_insert(s, 0, new_node);
                    lemma_bytes_insert(s, 0, new_node);
                }
                self.blocks.insert(0, new_node);
                proof {
                    assert forall|b: int| self.free().contains(b) <==> old(self).free().union(
                        range,
                    ).contains(b) by {
                        lemma_free_insert(s, 0, new_node, b);
                    }
                    assert(self.free() =~= old(self).free().union(range));
                }
            }
            return;
        }
        // Find the block after which the freed block goes.

        let mut i: usize = 0;
        let len = self.blocks.len();
        proof {
            assert(s[0].end() <= addr_start.0);
        }
        loop
            invariant
                len == s.len(),
                self.blocks() == s,
                self.wf(),
                i < s.len(),
                s[i as int].end() <= addr_start.0,
                addr_end.0 == addr_start.0 + size,
                size > 0,
                disjoint_from(s, addr_start.0 as int, size as int),
            ensures
                i < s.len(),
                s[i as int].end() <= addr_start.0,
                i + 1 < s.len() ==> addr_end.0 <= s[i + 1].start(),
            decreases s.len() - i,
        {
            if is_between_node_and_successor(&self.blocks, i, &addr_start, &addr_end) {
                break;
            }
            assert(i + 1 < s.len());
            assert(s[i + 1].end() <= addr_start.0);
            i = i + 1;
        }
        let node = self.blocks[i];
        let back = node.is_adjacent_back(&addr_start);
        let front = self.is_adjacent_next_front(i, &addr_end);
        proof {
            if i + 1 < s.len() {
                assert(addr_end.0 <= s[i + 1].start());
            }
        }
        if back && front {
            let next = self.blocks[i + 1];
            let merged = PfListNode::new(node.addr, node.size + size + next.size);
            proof {
                assert(s[i as int].end() < s[i + 1].start());
                lemma_wf_remove(s, i + 1);
                let r = s.remove(i + 1);
                assert(r[i as int] == s[i as int]);
                if i > 0 {
                    assert(r[i - 1] == s[i - 1]);
                    assert(s[i - 1].end() < s[i as int].start());
                }
                if i + 1 < r.len() {
                    assert(r[i + 1] == s[i + 2]);
                    assert(s[i + 1].end() < s[i + 2].start());
                }
                lemma_wf_update(r, i as int, merged);
                lemma_bytes_remove(s, i + 1);
                lemma_bytes_update(r, i as int, merged);
            }
            self.blocks.remove(i + 1);
            self.blocks.set(i, merged);
            proof {
                let r = s.remove(i + 1);
                assert forall|b: int| self.free().contains(b) <==> old(self).free().union(
                    range,
                ).contains(b) by {
                    lemma_free_remove(s, i + 1, b);
                    lemma_free_update(r, i as int, merged, b);
                    lemma_free_remove(r, i as int, b);
                    assert(r[i as int] == s[i as int]);
                }
                assert(self.free() =~= old(self).free().union(range));
            }
        } else if back {
            let merged = PfListNode::new(node.addr, node.size + size);
            proof {
                if i > 0 {
                    assert(s[i - 1].end() < s[i as int].start());
                }
                lemma_wf_update(s, i as int, merged);
                lemma_bytes_update(s, i as int, merged);
            }
            self.blocks.set(i, merged);
            proof {
                assert forall|b: int| self.free().contains(b) <==> old(self).free().union(
                    range,
                ).contains(b) by {
                    lemma_free_update(s, i as int, merged, b);
                    lemma_free_remove(s, i as int, b);
                }
                assert(self.free() =~= old(self).free().union(range));
            }
        } else if front {
            let next = self.blocks[i + 1];
            let merged = PfListNode::new(addr_start, size + next.size);
            proof {
                if i + 2 < s.len() {
                    assert(s[i + 1].end() < s[i + 2].start());
                }
                lemma_wf_update(s, i + 1, merged);
                lemma_bytes_update(s, i + 1, merged);
            }
            self.blocks.set(i + 1, merged);
            proof {
                assert forall|b: int| self.free().contains(b) <==> old(self).free().union(
                    range,
                ).contains(b) by {
                    lemma_free_update(s, i + 1, merged, b);
                    lemma_free_remove(s, i + 1, b);
                }
                assert(self.free() =~= old(self).free().union(range));
            }
        } else {
            proof {
                lemma_wf_insert(s, i + 1, new_node);
                lemma_bytes_insert(s, i + 1, new_node);
            }
            self.blocks.insert(i + 1, new_node);
            proof {
                assert forall|b: int| self.free().contains(b) <==> old(self).free().union(
                    range,
                ).contains(b) by {
                    lemma_free_insert(s, i + 1, new_node, b);
                }
                assert(self.free() =~= old(self).free().union(range));
            }
        }
    }
}

/// A non-empty range that shares no byte with the free addresses of well-formed
/// blocks also lies entirely between them.
proof fn lemma_disjoint_from_free_set(s: Seq<PfListNode>, start: int, len: int)
    requires
        blocks_wf(s),
        len > 0,
        free_set(s).intersect(byte_range(start, len)) == Set::<int>::empty(),
    ensures
        disjoint_from(s, start, len),
{
    assert forall|i: int| 0 <= i < s.len() implies (#[trigger] s[i]).end() <= start || start + len
        <= s[i].start() by {
        if !(s[i].end() <= start || start + len <= s[i].start()) {
            let a = if start > s[i].start() {
                start
            } else {
                s[i].start()
            };
            assert(s[i].holds(a));
            assert(free_set(s).contains(a));
            assert(byte_range(start, len).contains(a));
            assert(free_set(s).intersect(byte_range(start, len)).contains(a));
        }
    }
}

/// Law: a block handed out by `alloc_block` was free before, is no longer free
/// afterwards, can be given back with `free_block` (its preconditions hold), and
/// giving it back restores exactly the free memory there was before the
/// allocation.
pub proof fn law_alloc_then_free_restores(
    before: PfListAllocator,
    after: PfListAllocator,
    a: PhysAddr,
    num_frames: usize,
)
    requires
        before.wf(),
        after.wf(),
        num_frames > 0,
        num_frames * PAGE_FRAME_SIZE <= usize::MAX,
        exists|i: int|
            is_first_fit(before.blocks(), num_frames * PAGE_FRAME_SIZE, i)
                && before.blocks()[i].addr == a,
        after.free() == before.free().difference(
            byte_range(a.0 as int, num_frames * PAGE_FRAME_SIZE),
        ),
    ensures
        byte_range(a.0 as int, num_frames * PAGE_FRAME_SIZE).subset_of(before.free()),
        after.free().intersect(byte_range(a.0 as int, num_frames * PAGE_FRAME_SIZE))
            == Set::<int>::empty(),
        a.0 % (PAGE_FRAME_SIZE as u64) == 0,
        a.0 + num_frames * PAGE_FRAME_SIZE <= usize::MAX,
        disjoint_from(after.blocks(), a.0 as int, num_frames * PAGE_FRAME_SIZE),
        after.free().union(byte_range(a.0 as int, num_frames * PAGE_FRAME_SIZE)) == before.free(),
{
    let n = num_frames * PAGE_FRAME_SIZE;
    let r = byte_range(a.0 as int, n);
    let i = choose|i: int| is_first_fit(before.blocks(), n, i) && before.blocks()[i].addr == a;
    let s = before.blocks();
    assert(s[i].size >= n);
    assert forall|b: int| r.contains(b) implies before.free().contains(b) by {
        assert(s[i].holds(b));
    }
    assert(after.free().intersect(r) =~= Set::<int>::empty());
    lemma_disjoint_from_free_set(after.blocks(), a.0 as int, n);
    assert(after.free().union(r) =~= before.free());
}

} // verus!
