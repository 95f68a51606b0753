use hhutos::library::mutex::{LockOutcome, Mutex};
use hhutos::paging::frames::{PfListAllocator, PhysAddr};
use hhutos::paging::tables::{PageTables, USER_CODE_VIRT_START, USER_STACK_VIRT_END, USER_STACK_VIRT_START};
use hhutos::threads::scheduler::Scheduler;
use hhutos::threads::thread::{
    next_id, switch_to_usermode, IdCounter, Thread, DUMMY_RETURN_ADDRESS, INITIAL_RFLAGS, STACK_ENTRY_SIZE,
    STACK_SIZE,
};

/// Page tables and a frame allocator with 1024 free frames at 16 MiB.
struct Memory {
    tables: PageTables,
    frames: PfListAllocator,
}

impl Memory {
    fn new() -> Memory {
        let mut frames = PfListAllocator::new();
        frames.free_block(PhysAddr::new(0x100_0000), 1024);
        Memory { tables: PageTables::new(), frames }
    }

    fn kernel_thread(&mut self, ids: &mut IdCounter, entry: usize, process_id: usize) -> Box<Thread> {
        Thread::new_kernel_thread(ids, entry, process_id, &mut self.tables, &mut self.frames, PhysAddr::new(0x1000))
            .unwrap()
    }
}

/// The level-1 entry for `va` below `root`.
fn walk(t: &PageTables, root: u64, va: u64) -> Option<u64> {
    let mut table = root;
    for shift in [39u64, 30, 21] {
        let e = t.get_entry(table, ((va >> shift) & 0x1ff) as usize).0;
        if e & 1 == 0 {
            return None;
        }
        table = e & 0x000f_ffff_ffff_f000;
    }
    Some(t.get_entry(table, ((va >> 12) & 0x1ff) as usize).0)
}

fn ids_of(s: &Scheduler) -> (Option<usize>, usize) {
    let active = s.active_thread().as_ref().map(|t| t.get_id());
    (active, s.ready_count())
}

#[test]
fn thread_ids_count_up_from_zero() {
    let mut ids = IdCounter::new();
    let mut mem = Memory::new();
    assert_eq!(next_id(&mut ids), 0);
    assert_eq!(next_id(&mut ids), 1);
    let t = mem.kernel_thread(&mut ids, 0x4000, 7);
    assert_eq!(t.get_id(), 2);
    assert_eq!(t.get_process_id(), 7);
    assert!(t.is_kernel_thread());
    assert_eq!(t.entry(), 0x4000);
    assert_eq!(t.page_table(), 0x100_0000);
    assert_eq!(t.user_app_size(), None);
    assert_eq!(t.stack_ptr(), USER_STACK_VIRT_START as usize);
    assert_eq!(t.kernel_stack().len(), STACK_SIZE / STACK_ENTRY_SIZE);
    assert!(t.kernel_stack().iter().all(|w| *w == 0));
}

#[test]
fn kernel_threads_get_their_own_address_space() {
    let mut ids = IdCounter::new();
    let mut tables = PageTables::new();
    let mut frames = PfListAllocator::new();
    frames.free_block(PhysAddr::new(0x100_0000), 64);
    let t = Thread::new_kernel_thread(&mut ids, 0, 1, &mut tables, &mut frames, PhysAddr::new(0x20_0000)).unwrap();
    let u = Thread::new_kernel_thread(&mut ids, 0, 1, &mut tables, &mut frames, PhysAddr::new(0x20_0000)).unwrap();
    assert_ne!(t.page_table(), u.page_table());
    assert_eq!(walk(&tables, t.page_table(), 0x1f_f000), Some(0x1f_f003));
    assert_eq!(walk(&tables, u.page_table(), 0x1000), Some(0x1003));
    let stack_entry = walk(&tables, t.page_table(), USER_STACK_VIRT_START).unwrap();
    assert_eq!(stack_entry & 0xfff, 7);
}

#[test]
fn thread_creation_fails_without_memory() {
    let mut ids = IdCounter::new();
    let mut tables = PageTables::new();
    let mut frames = PfListAllocator::new();
    frames.free_block(PhysAddr::new(0x100_0000), 3);
    let t = Thread::new_kernel_thread(&mut ids, 0, 1, &mut tables, &mut frames, PhysAddr::new(0x1000));
    assert!(t.is_none());
    assert_eq!(next_id(&mut ids), 0);
}

#[test]
fn user_threads_run_their_application() {
    let mut ids = IdCounter::new();
    let mut tables = PageTables::new();
    let mut frames = PfListAllocator::new();
    frames.free_block(PhysAddr::new(0x100_0000), 64);
    let (u, phys) = Thread::new_user_thread(&mut ids, 8, 0x2345, &mut tables, &mut frames, PhysAddr::new(0x1000)).unwrap();
    assert_eq!(u.get_id(), 0);
    assert!(!u.is_kernel_thread());
    assert_eq!(u.get_process_id(), 8);
    assert_eq!(u.user_app_size(), Some(0x2345));
    assert_eq!(u.entry(), USER_CODE_VIRT_START as usize);
    let root = u.page_table();
    for k in 0..3u64 {
        assert_eq!(walk(&tables, root, USER_CODE_VIRT_START + k * 0x1000), Some((phys.raw() + k * 0x1000) | 7));
    }
    assert_eq!(walk(&tables, root, USER_CODE_VIRT_START + 0x3000), Some(0));
    for k in 0..4u64 {
        let e = walk(&tables, root, USER_STACK_VIRT_START + k * 0x1000).unwrap();
        let f = e & 0x000f_ffff_ffff_f000;
        assert!(f < phys.raw() || f >= phys.raw() + 0x3000);
    }
}

#[test]
fn kernel_stack_holds_the_initial_context() {
    let mut ids = IdCounter::new();
    let mut mem = Memory::new();
    let mut t = mem.kernel_thread(&mut ids, 0x4000, 1);
    t.prepare_kernel_stack(0xabc, 0xdef, 0x9000);
    let s = t.kernel_stack();
    let n = s.len();
    assert_eq!(s[n - 1], DUMMY_RETURN_ADDRESS);
    assert_eq!(s[n - 2], 0xabc);
    assert_eq!(s[n - 16], 0xdef);
    assert_eq!(s[n - 18], INITIAL_RFLAGS);
    assert_eq!(s[n - 3], 0);
    assert_eq!(t.stack_ptr(), 0x9000 - 8 * 18);
    t.set_stack_ptr(0x1234);
    assert_eq!(t.stack_ptr(), 0x1234);
}

#[test]
fn yield_rotates_the_ready_queue() {
    let mut ids = IdCounter::new();
    let mut mem = Memory::new();
    let mut s = Scheduler::new(mem.kernel_thread(&mut ids, 0, 0));
    s.ready(mem.kernel_thread(&mut ids, 0, 0));
    s.ready(mem.kernel_thread(&mut ids, 0, 0));
    assert!(!s.yield_cpu(false));
    assert!(!s.is_initialized());
    s.schedule();
    assert!(s.is_initialized());
    assert!(!s.yield_cpu(true));
    assert_eq!(s.get_active_tid(), 0);
    assert!(s.yield_cpu(false));
    assert_eq!(s.get_active_tid(), 1);
    assert!(s.yield_cpu(false));
    assert_eq!(s.get_active_tid(), 2);
    assert!(s.yield_cpu(false));
    assert_eq!(s.get_active_tid(), 0);
    assert_eq!(ids_of(&s), (Some(0), 2));
}

#[test]
fn yield_alone_keeps_the_thread() {
    let mut ids = IdCounter::new();
    let mut mem = Memory::new();
    let mut s = Scheduler::new(mem.kernel_thread(&mut ids, 0, 5));
    s.schedule();
    assert!(!s.yield_cpu(false));
    assert_eq!(s.get_active_tid(), 0);
    assert_eq!(s.get_active_pid(), 5);
}

#[test]
fn exit_and_kill() {
    let mut ids = IdCounter::new();
    let mut mem = Memory::new();
    let mut s = Scheduler::new(mem.kernel_thread(&mut ids, 0, 0));
    for _ in 0..3 {
        s.ready(mem.kernel_thread(&mut ids, 0, 0));
    }
    s.schedule();
    s.kill(2);
    assert_eq!(s.ready_count(), 2);
    let gone = s.exit();
    assert_eq!(gone.get_id(), 0);
    assert_eq!(s.get_active_tid(), 1);
    assert!(s.yield_cpu(false));
    assert_eq!(s.get_active_tid(), 3);
}

#[test]
fn blocking_moves_to_the_next_thread() {
    let mut ids = IdCounter::new();
    let mut mem = Memory::new();
    let mut s = Scheduler::new(mem.kernel_thread(&mut ids, 0, 0));
    s.ready(mem.kernel_thread(&mut ids, 0, 0));
    s.schedule();
    let blocked = s.prepare_block();
    assert_eq!(blocked.get_id(), 0);
    assert!(s.switch_from_blocked_thread(None));
    assert_eq!(s.get_active_tid(), 1);
    let again = s.prepare_block();
    assert_eq!(again.get_id(), 1);
    let idle = mem.kernel_thread(&mut ids, 0, 0);
    assert!(!s.switch_from_blocked_thread(Some(idle)));
    assert_eq!(s.get_active_tid(), 2);
    assert_eq!(s.ready_count(), 0);
}

#[test]
fn mutex_try_lock_and_unlock() {
    let mut ids = IdCounter::new();
    let mut mem = Memory::new();
    let mut s = Scheduler::new(mem.kernel_thread(&mut ids, 0, 0));
    let mut m = Mutex::new(41u32);
    assert!(!m.is_locked());
    assert!(m.try_lock());
    assert!(!m.try_lock());
    assert_eq!(*m.data(), 41);
    *m.data_mut() += 1;
    assert_eq!(*m.data(), 42);
    m.unlock(&mut s);
    assert!(!m.is_locked());
    assert_eq!(s.ready_count(), 0);
}

#[test]
fn mutex_spins_before_the_scheduler_starts() {
    let mut ids = IdCounter::new();
    let mut mem = Memory::new();
    let mut s = Scheduler::new(mem.kernel_thread(&mut ids, 0, 0));
    let mut m = Mutex::new(());
    assert_eq!(m.lock(&mut s, None), LockOutcome::Acquired);
    assert_eq!(m.lock(&mut s, None), LockOutcome::Busy);
    m.force_unlock();
    assert!(!m.is_locked());
}

#[test]
fn mutex_hands_the_lock_to_waiters_in_order() {
    let mut ids = IdCounter::new();
    let mut mem = Memory::new();
    let mut s = Scheduler::new(mem.kernel_thread(&mut ids, 0, 0));
    s.ready(mem.kernel_thread(&mut ids, 0, 0));
    s.ready(mem.kernel_thread(&mut ids, 0, 0));
    s.schedule();
    let mut m = Mutex::new(0u8);
    assert_eq!(m.lock(&mut s, None), LockOutcome::Acquired);
    // thread 0 holds the lock; it yields, and threads 1 and 2 block on it
    assert!(s.yield_cpu(false));
    assert_eq!(m.lock(&mut s, None), LockOutcome::Blocked(true));
    assert_eq!(s.get_active_tid(), 2);
    assert_eq!(m.lock(&mut s, None), LockOutcome::Blocked(true));
    assert_eq!(s.get_active_tid(), 0);
    assert_eq!(s.ready_count(), 0);
    m.unlock(&mut s);
    assert!(m.is_locked());
    assert!(s.yield_cpu(false));
    assert_eq!(s.get_active_tid(), 1);
    m.unlock(&mut s);
    assert!(m.is_locked());
    assert!(s.yield_cpu(false));
    assert_eq!(s.get_active_tid(), 0);
    assert!(s.yield_cpu(false));
    assert_eq!(s.get_active_tid(), 2);
    m.unlock(&mut s);
    assert!(!m.is_locked());
}

#[test]
fn mutex_blocks_with_nobody_ready() {
    let mut ids = IdCounter::new();
    let mut mem = Memory::new();
    let mut s = Scheduler::new(mem.kernel_thread(&mut ids, 0, 0));
    s.schedule();
    let mut m = Mutex::new(0u8);
    assert!(m.try_lock());
    let idle = mem.kernel_thread(&mut ids, 0, 0);
    assert_eq!(m.lock(&mut s, Some(idle)), LockOutcome::Blocked(false));
    assert_eq!(s.get_active_tid(), 1);
}

#[test]
fn user_mode_frame() {
    let (at, frame) = switch_to_usermode(0xdead_b000);
    assert_eq!(at, USER_STACK_VIRT_END - 48);
    assert_eq!(frame, vec![0xdead_b000, USER_CODE_VIRT_START, 0x23, 0x202, USER_STACK_VIRT_END, 0x2b]);
}
