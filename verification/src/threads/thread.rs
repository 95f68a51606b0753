//! Threads: their ids, kernel stacks and the context a new thread starts from.
use vstd::prelude::*;
use crate::paging::frames::{PfListAllocator, PhysAddr, byte_range, PAGE_FRAME_SIZE};
use crate::paging::pages::PAGE_SIZE;
use crate::paging::tables::{
    PageTables, grows_from, keeps_address_spaces, lemma_page_vpn, lemma_path_writeable, lemma_tables_trans, maps_range,
    page_va, target, init_kernel_tables, map_user_app, map_user_stack, USER_CODE_VIRT_START,
    USER_STACK_VIRT_END, USER_STACK_VIRT_START,
};

verus! {

/// Size of a kernel stack in bytes.
pub const STACK_SIZE: usize = 0x4000;

/// Size of one stack entry in bytes.
pub const STACK_ENTRY_SIZE: usize = 8;

/// Number of stack entries a new thread's saved context occupies.
pub const INITIAL_CONTEXT_ENTRIES: usize = 18;

/// The return address written above a new thread's context, which is never used.
pub const DUMMY_RETURN_ADDRESS: u64 = 0x131155;

/// The flags register a new thread starts with: interrupts disabled.
pub const INITIAL_RFLAGS: u64 = 0x2;

/// Hands out thread ids in increasing order, starting at 0.
pub struct IdCounter {
    next: usize,
}

impl IdCounter {
    /// The id the next thread gets.
    pub closed spec fn spec_next(&self) -> usize {
        self.next
    }

    /// A counter whose first id is 0.
    pub fn new() -> (r: IdCounter)
        ensures
            r.spec_next() == 0,
    {
        IdCounter { next: 0 }
    }
}

/// The value after `n` on a counter that wraps around at `usize::MAX`.
pub open spec fn wrapping_successor(n: usize) -> usize {
    if n == usize::MAX {
        0
    } else {
        (n + 1) as usize
    }
}

/// Takes the next thread id; the counter wraps around at `usize::MAX`.
pub fn next_id(counter: &mut IdCounter) -> (r: usize)
    ensures
        r == old(counter).spec_next(),
        final(counter).spec_next() == wrapping_successor(old(counter).spec_next()),
{
    let r = counter.next;
    counter.next = counter.next.wrapping_add(1);
    r
}

/// A thread: its id, its process, its kernel stack with the saved context, the
/// address of its entry function and of its top-level page table.
pub struct Thread {
    id: usize,
    is_kernel_thread: bool,
    kernel_stack: Vec<u64>,
    stack_ptr: usize,
    entry: usize,
    page_table: u64,
    process_id: usize,
    user_app_size: Option<usize>,
}

impl Thread {
    pub closed spec fn spec_id(&self) -> usize {
        self.id
    }

    pub closed spec fn spec_process_id(&self) -> usize {
        self.process_id
    }

    pub closed spec fn spec_is_kernel_thread(&self) -> bool {
        self.is_kernel_thread
    }

    pub closed spec fn spec_kernel_stack(&self) -> Seq<u64> {
        self.kernel_stack@
    }

    /// Where the saved context on the kernel stack begins.
    pub closed spec fn spec_stack_ptr(&self) -> usize {
        self.stack_ptr
    }

    pub closed spec fn spec_entry(&self) -> usize {
        self.entry
    }

    /// The physical address of the thread's top-level page table.
    pub closed spec fn spec_page_table(&self) -> u64 {
        self.page_table
    }

    /// The size of the user application, for user threads.
    pub closed spec fn spec_user_app_size(&self) -> Option<usize> {
        self.user_app_size
    }

    /// A zeroed kernel stack of `STACK_SIZE` bytes.
    fn zeroed_stack() -> (r: Vec<u64>)
        ensures
            r@.len() == STACK_SIZE / STACK_ENTRY_SIZE,
            forall|i: int| 0 <= i < r@.len() ==> r@[i] == 0,
    {
        let n = STACK_SIZE / STACK_ENTRY_SIZE;
        let mut stack: Vec<u64> = Vec::with_capacity(n);
        let mut i: usize = 0;
        while i < n
            invariant
                i <= n,
                n == STACK_SIZE / STACK_ENTRY_SIZE,
                stack@.len() == i,
                forall|j: int| 0 <= j < i ==> stack@[j] == 0,
            decreases n - i,
        {
            stack.push(0);
            i = i + 1;
        }
        stack
    }

    /// A new kernel thread of process `process_id` that runs the function at
    /// `entry`. Its kernel stack is zeroed; it gets an address space of its
    /// own, with the physical memory up to `max_phys_addr` mapped 1:1 and a
    /// user stack. Returns `None` where `frames` ran out of free memory.
    /// The context the thread starts from is put on its stack with
    /// `prepare_kernel_stack`, once the thread's own address is known.
    pub fn new_kernel_thread(
        ids: &mut IdCounter,
        entry: usize,
        process_id: usize,
        tables: &mut PageTables,
        frames: &mut PfListAllocator,
        max_phys_addr: PhysAddr,
    ) -> (r: Option<Box<Thread>>)
        requires
            old(tables).wf(),
            old(tables).separate_from(old(frames)),
            max_phys_addr.0 <= USER_CODE_VIRT_START,
            max_phys_addr.0 + PAGE_SIZE <= usize::MAX,
        ensures
            grows_from(old(tables), final(tables), old(frames), final(frames)),
            keeps_address_spaces(old(tables), final(tables)),
            match r {
                Some(t) => {
                    &&& t.spec_id() == old(ids).spec_next()
                    &&& final(ids).spec_next() == wrapping_successor(old(ids).spec_next())
                    &&& t.spec_is_kernel_thread()
                    &&& t.spec_entry() == entry
                    &&& t.spec_process_id() == process_id
                    &&& t.spec_user_app_size() is None
                    &&& t.spec_stack_ptr() == USER_STACK_VIRT_START as usize
                    &&& t.spec_kernel_stack().len() == STACK_SIZE / STACK_ENTRY_SIZE
                    &&& forall|i: int|
                        0 <= i < t.spec_kernel_stack().len() ==> t.spec_kernel_stack()[i] == 0
                    &&& !old(tables).has_table(t.spec_page_table())
                    &&& is_thread_address_space(
                        final(tables),
                        old(frames).free(),
                        final(frames).free(),
                        t.spec_page_table(),
                        max_phys_addr,
                    )
                },
                None => {
                    &&& final(frames).free() == Set::<int>::empty()
                    &&& old(frames).free_size() < address_space_frames(max_phys_addr) * PAGE_FRAME_SIZE
                    &&& final(ids).spec_next() == old(ids).spec_next()
                },
            },
    {
        let kernel_stack = Self::zeroed_stack();
        let page_table = match new_address_space(tables, frames, max_phys_addr) {
            None => {
                return None;
            },
            Some(root) => root,
        };
        let id = next_id(ids);
        Some(
            Box::new(
                Thread {
                    id,
                    is_kernel_thread: true,
                    kernel_stack,
                    stack_ptr: #[verifier::truncate] (USER_STACK_VIRT_START as usize),
                    entry,
                    page_table,
                    process_id,
                    user_app_size: None,
                },
            ),
        )
    }

    /// A new user thread of process `process_id`, running an application of
    /// `app_size` bytes. Its kernel stack is zeroed; it gets an address space
    /// of its own, with the physical memory up to `max_phys_addr` mapped 1:1,
    /// a user stack, and new frames for the application mapped for user mode
    /// at `USER_CODE_VIRT_START`, where the thread starts. Returns the thread
    /// and the address of the application's frames, to copy it there, or
    /// `None` where `frames` ran out of free memory.
    #[verifier::rlimit(40)]
    #[verifier::spinoff_prover]
    pub fn new_user_thread(
        ids: &mut IdCounter,
        process_id: usize,
        app_size: usize,
        tables: &mut PageTables,
        frames: &mut PfListAllocator,
        max_phys_addr: PhysAddr,
    ) -> (r: Option<(Box<Thread>, PhysAddr)>)
        requires
            old(tables).wf(),
            old(tables).separate_from(old(frames)),
            max_phys_addr.0 <= USER_CODE_VIRT_START,
            USER_CODE_VIRT_START + app_size + PAGE_SIZE <= USER_STACK_VIRT_START,
            app_size + PAGE_SIZE <= usize::MAX,
            max_phys_addr.0 + PAGE_SIZE <= usize::MAX,
        ensures
            grows_from(old(tables), final(tables), old(frames), final(frames)),
            keeps_address_spaces(old(tables), final(tables)),
            match r {
                Some((t, phys)) => {
                    let root = t.spec_page_table();
                    let num_pages = (app_size + PAGE_SIZE - 1) / (PAGE_SIZE as int);
                    &&& t.spec_id() == old(ids).spec_next()
                    &&& final(ids).spec_next() == wrapping_successor(old(ids).spec_next())
                    &&& !t.spec_is_kernel_thread()
                    &&& t.spec_entry() == USER_CODE_VIRT_START as usize
                    &&& t.spec_process_id() == process_id
                    &&& t.spec_user_app_size() == Some(app_size)
                    &&& t.spec_stack_ptr() == USER_STACK_VIRT_START as usize
                    &&& t.spec_kernel_stack().len() == STACK_SIZE / STACK_ENTRY_SIZE
                    &&& forall|i: int|
                        0 <= i < t.spec_kernel_stack().len() ==> t.spec_kernel_stack()[i] == 0
                    &&& !old(tables).has_table(root)
                    &&& is_thread_address_space(
                        final(tables),
                        old(frames).free(),
                        final(frames).free(),
                        root,
                        max_phys_addr,
                    )
                    &&& forall|k: int|
                        0 <= k < num_pages ==> #[trigger] final(tables).maps_page(
                            old(frames).free(),
                            final(frames).free(),
                            root,
                            USER_CODE_VIRT_START,
                            k,
                            Some(phys),
                            false,
                        )
                    &&& forall|a: int|
                        phys.0 <= a < phys.0 + num_pages * PAGE_SIZE ==> #[trigger] old(frames).free().contains(a) && !final(frames).free().contains(a)
                    &&& forall|u: u64|
                        #[trigger] final(tables).has_table(u) ==> !(phys.0 <= u < phys.0 + num_pages
                            * PAGE_SIZE)
                },
                None => {
                    let num_pages = (app_size + PAGE_SIZE - 1) / (PAGE_SIZE as int);
                    &&& final(ids).spec_next() == old(ids).spec_next()
                    &&& old(frames).free_size() < (address_space_frames(max_phys_addr) + 5 * num_pages)
                        * PAGE_FRAME_SIZE || {
                        &&& final(frames).free_size() >= old(frames).free_size()
                            - address_space_frames(max_phys_addr) * PAGE_FRAME_SIZE
                        &&& forall|j: int|
                            0 <= j < final(frames).blocks().len() ==> #[trigger] final(frames).blocks()[j].size < num_pages * PAGE_SIZE
                    }
                },
            },
    {
        let kernel_stack = Self::zeroed_stack();
        let ghost s0 = *tables;
        let ghost f0 = *frames;
        let page_table = match new_address_space(tables, frames, max_phys_addr) {
            None => {
                return None;
            },
            Some(root) => root,
        };
        let ghost s1 = *tables;
        let ghost f1 = *frames;
        let num_pages = (app_size + PAGE_SIZE - 1) / PAGE_SIZE;
        proof {
            assert(num_pages * PAGE_SIZE <= app_size + PAGE_SIZE) by (nonlinear_arith)
                requires
                    num_pages == (app_size + 4095) / 4096,
                    PAGE_SIZE == 4096,
            ;
            frames.lemma_free_size_bounds();
        }
        let phys_start = match frames.alloc_block(num_pages) {
            None => {
                return None;
            },
            Some(p) => p,
        };
        let ghost f2 = *frames;
        proof {
            if num_pages > 0 {
                assert(byte_range(phys_start.0 as int, num_pages * PAGE_SIZE).contains(
                    phys_start.0 + num_pages * PAGE_SIZE - 1,
                ));
                assert(f1.free().contains(phys_start.0 + num_pages * PAGE_SIZE - 1));
            }
            assert(tables.separate_from(frames)) by {
                assert forall|u: u64| #[trigger] tables.has_table(u) implies !frames.free().contains(
                    u as int,
                ) by {
                    assert(!f1.free().contains(u as int));
                }
            }
        }
        let mapped = map_user_app(tables, frames, page_table, num_pages, phys_start);
        let ghost s3 = *tables;
        proof {
            lemma_tables_trans(&s0, &s1, &s3);
            assert forall|u: u64| #[trigger] s3.has_table(u) implies s0.has_table(u) || f0.free().contains(
                u as int,
            ) by {
                if !s1.has_table(u) {
                    assert(f2.free().contains(u as int) || s1.has_table(u));
                }
            }
            assert forall|r2: u64, va2: u64|
                s0.has_table(r2) && s0.level(r2) == 4 && s0.translate(r2, va2).is_some() implies #[trigger] s3.translate(
                r2,
                va2,
            ) == s0.translate(r2, va2) by {
                assert(s1.translate(r2, va2) == s0.translate(r2, va2));
                assert(s1.has_table(r2));
            }
        }
        if mapped.is_none() {
            return None;
        }
        proof {
            lemma_app_keeps_address_space(&s1, &s3, &f0, &f1, &f2, frames, page_table, num_pages as int, phys_start, max_phys_addr);
            assert forall|u: u64| #[trigger] s3.has_table(u) implies !(phys_start.0 <= u < phys_start.0
                + num_pages * PAGE_SIZE) by {
                if s1.has_table(u) {
                    assert(!f1.free().contains(u as int));
                } else {
                    assert(f2.free().contains(u as int));
                }
            }
            assert forall|k: int| 0 <= k < num_pages implies #[trigger] s3.maps_page(
                f0.free(),
                frames.free(),
                page_table,
                USER_CODE_VIRT_START,
                k,
                Some(phys_start),
                false,
            ) by {
                assert(s3.maps_page(f2.free(), frames.free(), page_table, USER_CODE_VIRT_START, k, Some(phys_start), false));
            }
        }
        let id = next_id(ids);
        let thread = Box::new(
            Thread {
                id,
                is_kernel_thread: false,
                kernel_stack,
                stack_ptr: #[verifier::truncate] (USER_STACK_VIRT_START as usize),
                entry: #[verifier::truncate] (USER_CODE_VIRT_START as usize),
                page_table,
                process_id,
                user_app_size: Some(app_size),
            },
        );
        Some((thread, phys_start))
    }

    /// Get the ID of the thread.
    pub fn get_id(&self) -> (r: usize)
        ensures
            r == self.spec_id(),
    {
        self.id
    }

    /// Get the ID of the thread's process.
    pub fn get_process_id(&self) -> (r: usize)
        ensures
            r == self.spec_process_id(),
    {
        self.process_id
    }

    /// Whether the thread runs in kernel mode only.
    pub fn is_kernel_thread(&self) -> (r: bool)
        ensures
            r == self.spec_is_kernel_thread(),
    {
        self.is_kernel_thread
    }

    /// The address of the thread's entry function.
    pub fn entry(&self) -> (r: usize)
        ensures
            r == self.spec_entry(),
    {
        self.entry
    }

    /// The physical address of the thread's top-level page table.
    pub fn page_table(&self) -> (r: u64)
        ensures
            r == self.spec_page_table(),
    {
        self.page_table
    }

    /// The size of the user application, for user threads.
    pub fn user_app_size(&self) -> (r: Option<usize>)
        ensures
            r == self.spec_user_app_size(),
    {
        self.user_app_size
    }

    /// Where the saved context on the kernel stack begins.
    pub fn stack_ptr(&self) -> (r: usize)
        ensures
            r == self.spec_stack_ptr(),
    {
        self.stack_ptr
    }

    /// Records where the saved context begins after a switch away from the thread.
    pub fn set_stack_ptr(&mut self, stack_ptr: usize)
        ensures
            final(self).spec_stack_ptr() == stack_ptr,
            final(self).spec_id() == old(self).spec_id(),
            final(self).spec_process_id() == old(self).spec_process_id(),
            final(self).spec_is_kernel_thread() == old(self).spec_is_kernel_thread(),
            final(self).spec_kernel_stack() == old(self).spec_kernel_stack(),
            final(self).spec_entry() == old(self).spec_entry(),
            final(self).spec_page_table() == old(self).spec_page_table(),
            final(self).spec_user_app_size() == old(self).spec_user_app_size(),
    {
        self.stack_ptr = stack_ptr;
    }

    /// The kernel stack.
    pub fn kernel_stack(&self) -> (r: &Vec<u64>)
        ensures
            r@ == self.spec_kernel_stack(),
    {
        &self.kernel_stack
    }

    /// Prepare the kernel stack of a new thread so that restoring the context
    /// on it returns to `kickoff` with `thread` (the thread's own address) as
    /// first argument: from the top, a dummy return address, the address of
    /// `kickoff`, the registers r8 to rbp with `thread` in rdi, and the flags
    /// with interrupts disabled. `stack_top` is the address just above the stack.
    pub fn prepare_kernel_stack(&mut self, kickoff: u64, thread: u64, stack_top: usize)
        requires
            old(self).spec_kernel_stack().len() >= INITIAL_CONTEXT_ENTRIES,
            stack_top >= STACK_ENTRY_SIZE * INITIAL_CONTEXT_ENTRIES,
        ensures
            ({
                let old_stack = old(self).spec_kernel_stack();
                let new_stack = final(self).spec_kernel_stack();
                let len = old_stack.len();
                &&& new_stack.len() == len
                &&& forall|i: int| 0 <= i < len - 18 ==> new_stack[i] == old_stack[i]
                &&& new_stack[len - 1] == DUMMY_RETURN_ADDRESS
                &&& new_stack[len - 2] == kickoff
                &&& new_stack[len - 16] == thread
                &&& new_stack[len - 18] == INITIAL_RFLAGS
                &&& forall|i: int|
                    len - 18 < i < len - 2 && i != len - 16 ==> new_stack[i] == 0
            }),
            final(self).spec_stack_ptr() == stack_top - STACK_ENTRY_SIZE * INITIAL_CONTEXT_ENTRIES,
            final(self).spec_id() == old(self).spec_id(),
            final(self).spec_process_id() == old(self).spec_process_id(),
            final(self).spec_is_kernel_thread() == old(self).spec_is_kernel_thread(),
            final(self).spec_entry() == old(self).spec_entry(),
            final(self).spec_page_table() == old(self).spec_page_table(),
            final(self).spec_user_app_size() == old(self).spec_user_app_size(),
    {
        let length = self.kernel_stack.len();
        self.kernel_stack.set(length - 1, DUMMY_RETURN_ADDRESS);
        self.kernel_stack.set(length - 2, kickoff);
        let mut k: usize = 3;
        while k <= 15
            invariant
                3 <= k <= 16,
                length == old(self).spec_kernel_stack().len(),
                length >= 18,
                self.kernel_stack@.len() == length,
                self.kernel_stack@[length - 1] == DUMMY_RETURN_ADDRESS,
                self.kernel_stack@[length - 2] == kickoff,
                forall|i: int| length - k < i < length - 2 ==> self.kernel_stack@[i] == 0,
                forall|i: int| 0 <= i <= length - k ==> self.kernel_stack@[i] == old(self).spec_kernel_stack()[i],
                self.id == old(self).spec_id(),
                self.process_id == old(self).spec_process_id(),
                self.is_kernel_thread == old(self).spec_is_kernel_thread(),
                self.entry == old(self).spec_entry(),
                self.spec_page_table() == old(self).spec_page_table(),
                self.spec_user_app_size() == old(self).spec_user_app_size(),
            decreases 16 - k,
        {
            self.kernel_stack.set(length - k, 0);
            k = k + 1;
        }
        self.kernel_stack.set(length - 16, thread);
        self.kernel_stack.set(length - 17, 0);
        self.kernel_stack.set(length - 18, INITIAL_RFLAGS);
        self.stack_ptr = stack_top - STACK_ENTRY_SIZE * INITIAL_CONTEXT_ENTRIES;
    }
}

/// The address space of a new thread at `root`: the physical memory up to
/// `max_phys_addr` mapped 1:1 for the kernel, but for the page at address 0,
/// and the user stack mapped to frames that were free in `before` and are not
/// in `after`.
pub open spec fn is_thread_address_space(
    s: &PageTables,
    before: Set<int>,
    after: Set<int>,
    root: u64,
    max_phys_addr: PhysAddr,
) -> bool {
    &&& s.has_table(root)
    &&& s.level(root) == 4
    &&& forall|k: int|
        0 < k < (max_phys_addr.0 + PAGE_SIZE - 1) / (PAGE_SIZE as int) ==> #[trigger] s.translate(
            root,
            page_va(0, k),
        ) == Some(page_va(0, k) | 3u64)
    &&& forall|k: int|
        0 <= k < (STACK_SIZE + PAGE_SIZE - 1) / (PAGE_SIZE as int) ==> #[trigger] s.maps_page(
            before,
            after,
            root,
            USER_STACK_VIRT_START,
            k,
            None,
            false,
        )
}

/// The most frames a new thread's address space takes: its top-level table,
/// and three tables and a frame for each page mapped 1:1 and each page of the
/// user stack.
pub open spec fn address_space_frames(max_phys_addr: PhysAddr) -> int {
    1 + 4 * ((max_phys_addr.0 + PAGE_SIZE - 1) / (PAGE_SIZE as int) + (STACK_SIZE + PAGE_SIZE - 1) / (
    PAGE_SIZE as int))
}

/// A new address space for a thread: kernel tables with the physical memory
/// up to `max_phys_addr` mapped 1:1, and a user stack. Returns its top-level
/// table, or `None` where `frames` ran out of free memory.
fn new_address_space(tables: &mut PageTables, frames: &mut PfListAllocator, max_phys_addr: PhysAddr) -> (r:
    Option<u64>)
    requires
        old(tables).wf(),
        old(tables).separate_from(old(frames)),
        max_phys_addr.0 <= USER_CODE_VIRT_START,
        max_phys_addr.0 + PAGE_SIZE <= usize::MAX,
    ensures
        grows_from(old(tables), final(tables), old(frames), final(frames)),
        keeps_address_spaces(old(tables), final(tables)),
        match r {
            Some(root) => {
                &&& !old(tables).has_table(root)
                &&& is_thread_address_space(
                    final(tables),
                    old(frames).free(),
                    final(frames).free(),
                    root,
                    max_phys_addr,
                )
                &&& final(frames).free_size() >= old(frames).free_size() - address_space_frames(
                    max_phys_addr,
                ) * PAGE_FRAME_SIZE
            },
            None => {
                &&& final(frames).free() == Set::<int>::empty()
                &&& old(frames).free_size() < address_space_frames(max_phys_addr) * PAGE_FRAME_SIZE
            },
        },
{
    let ghost s0 = *tables;
    let ghost f0 = *frames;
    let root = match init_kernel_tables(tables, frames, max_phys_addr) {
        None => {
            return None;
        },
        Some(root) => root,
    };
    let ghost s1 = *tables;
    let ghost f1 = *frames;
    let stack = map_user_stack(tables, frames, root);
    proof {
        lemma_tables_trans(&s0, &s1, tables);
        assert forall|u: u64| #[trigger] tables.has_table(u) implies s0.has_table(u) || f0.free().contains(
            u as int,
        ) by {
            if !s1.has_table(u) {
                assert(f1.free().contains(u as int));
            }
        }
        assert forall|r2: u64, va2: u64|
            s0.has_table(r2) && s0.level(r2) == 4 && s0.translate(r2, va2).is_some() implies #[trigger] tables.translate(
            r2,
            va2,
        ) == s0.translate(r2, va2) by {
            assert(s1.translate(r2, va2) == s0.translate(r2, va2));
            assert(s1.has_table(r2));
        }
    }
    if stack.is_none() {
        return None;
    }
    proof {
        let n = (max_phys_addr.0 + PAGE_SIZE - 1) / (PAGE_SIZE as int);
        assert forall|k: int| 0 < k < n implies #[trigger] tables.translate(root, page_va(0, k)) == Some(
            page_va(0, k) | 3u64,
        ) by {
            lemma_page_vpn(0, k);
            lemma_page_vpn(USER_STACK_VIRT_START, 0);
            assert(s1.translate(root, page_va(0, k)) == Some(page_va(0, k) | 3u64));
        }
        assert forall|k: int| 0 <= k < (STACK_SIZE + PAGE_SIZE - 1) / (PAGE_SIZE as int) implies #[trigger] tables.maps_page(
            f0.free(),
            frames.free(),
            root,
            USER_STACK_VIRT_START,
            k,
            None,
            false,
        ) by {
            assert(tables.maps_page(f1.free(), frames.free(), root, USER_STACK_VIRT_START, k, None, false));
        }
    }
    Some(root)
}

/// Mapping an application below the user stack keeps a thread's address space.
proof fn lemma_app_keeps_address_space(
    s1: &PageTables,
    s3: &PageTables,
    f0: &PfListAllocator,
    f1: &PfListAllocator,
    f2: &PfListAllocator,
    f3: &PfListAllocator,
    root: u64,
    num_pages: int,
    phys: PhysAddr,
    max_phys_addr: PhysAddr,
)
    requires
        is_thread_address_space(s1, f0.free(), f1.free(), root, max_phys_addr),
        max_phys_addr.0 <= USER_CODE_VIRT_START,
        0 <= num_pages,
        USER_CODE_VIRT_START + num_pages * PAGE_SIZE <= USER_STACK_VIRT_START,
        f2.free().subset_of(f1.free()),
        grows_from(s1, s3, f2, f3),
        maps_range(s1, s3, f2, f3, root, USER_CODE_VIRT_START, num_pages, Some(phys), false, true),
    ensures
        is_thread_address_space(s3, f0.free(), f3.free(), root, max_phys_addr),
{
    assert(s3.has_table(root));
    let n = (max_phys_addr.0 + PAGE_SIZE - 1) / (PAGE_SIZE as int);
    assert forall|k: int| 0 < k < n implies #[trigger] s3.translate(root, page_va(0, k)) == Some(
        page_va(0, k) | 3u64,
    ) by {
        lemma_page_vpn(0, k);
        lemma_page_vpn(USER_CODE_VIRT_START, 0);
        assert(s1.translate(root, page_va(0, k)) == Some(page_va(0, k) | 3u64));
    }
    assert forall|k: int| 0 <= k < (STACK_SIZE + PAGE_SIZE - 1) / (PAGE_SIZE as int) implies #[trigger] s3.maps_page(
        f0.free(),
        f3.free(),
        root,
        USER_STACK_VIRT_START,
        k,
        None,
        false,
    ) by {
        lemma_page_vpn(USER_STACK_VIRT_START, k);
        lemma_page_vpn(USER_CODE_VIRT_START, 0);
        assert(s1.maps_page(f0.free(), f1.free(), root, USER_STACK_VIRT_START, k, None, false));
        let va = page_va(USER_STACK_VIRT_START, k);
        assert(s3.translate(root, va) == s1.translate(root, va));
        lemma_path_writeable(s3, root, va);
        let e = s1.translate(root, va).unwrap();
        assert(!f3.free().contains(target(e) as int));
        if s3.has_table(target(e)) {
            assert(f2.free().contains(target(e) as int));
        }
    }
}

/// Code segment selector of user mode: entry 4 of the GDT, privilege level 3.
pub const USER_CS: u64 = 0x23;

/// Stack segment selector of user mode: entry 5 of the GDT, privilege level 3.
pub const USER_SS: u64 = 0x2b;

/// The flags register a user thread starts with: interrupts enabled, and the
/// reserved bit that is always set.
pub const USER_RFLAGS: u64 = 0x202;

/// The frame that returns a thread to user mode, as it is put at the top of
/// the user stack: the thread's own address (to pop into rdi), then the
/// interrupt return frame of instruction pointer, code segment, flags, stack
/// pointer and stack segment. Returns the address of the frame and its words.
pub fn switch_to_usermode(thread: u64) -> (r: (u64, Vec<u64>))
    ensures
        r.0 == USER_STACK_VIRT_END - 6 * STACK_ENTRY_SIZE,
        r.1@ == seq![thread, USER_CODE_VIRT_START, USER_CS, USER_RFLAGS, USER_STACK_VIRT_END, USER_SS],
{
    let mut frame: Vec<u64> = Vec::new();
    frame.push(thread);
    frame.push(USER_CODE_VIRT_START);
    frame.push(USER_CS);
    frame.push(USER_RFLAGS);
    frame.push(USER_STACK_VIRT_END);
    frame.push(USER_SS);
    (USER_STACK_VIRT_END - 6 * (STACK_ENTRY_SIZE as u64), frame)
}

} // verus!
