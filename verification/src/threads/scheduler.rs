//! A round-robin scheduler for threads, without priorities.
//!
//! The scheduler decides which thread runs; switching the processor from one
//! thread to another is left to its caller, which is told whom to switch to.
use vstd::prelude::*;
use std::collections::VecDeque;
use super::thread::Thread;
use vstd::multiset::Multiset;

verus! {

/// The ids of a sequence of threads.
pub open spec fn thread_ids(s: Seq<Box<Thread>>) -> Seq<usize> {
    s.map_values(|t: Box<Thread>| t.spec_id())
}

/// Represents the scheduler: the active thread and the ready queue with all
/// other threads.
pub struct Scheduler {
    active_thread: Option<Box<Thread>>,
    ready_queue: VecDeque<Box<Thread>>,
    initialized: bool,
}

impl Scheduler {
    /// The thread that runs now.
    pub closed spec fn active(&self) -> Option<Box<Thread>> {
        self.active_thread
    }

    /// The threads waiting to run, the next one first.
    pub closed spec fn ready_queue(&self) -> Seq<Box<Thread>> {
        self.ready_queue@
    }

    /// Whether the scheduler was started.
    pub closed spec fn initialized(&self) -> bool {
        self.initialized
    }

    /// All threads the scheduler holds: the active one, if any, then the queue.
    pub open spec fn all_threads(&self) -> Seq<Box<Thread>> {
        match self.active() {
            Some(t) => seq![t] + self.ready_queue(),
            None => self.ready_queue(),
        }
    }

    /// Create a new scheduler instance with an empty ready queue
    /// and the idle thread as the active thread.
    pub fn new(idle: Box<Thread>) -> (r: Scheduler)
        ensures
            r.active() == Some(idle),
            r.ready_queue() == Seq::<Box<Thread>>::empty(),
            !r.initialized(),
    {
        Scheduler { active_thread: Some(idle), ready_queue: VecDeque::new(), initialized: false }
    }

    /// Get the ID of the currently active thread.
    pub fn get_active_tid(&self) -> (r: usize)
        requires
            self.active() is Some,
        ensures
            r == self.active().unwrap().spec_id(),
    {
        match &self.active_thread {
            Some(t) => t.get_id(),
            None => 0,
        }
    }

    /// Get the ID of the process of the currently active thread.
    pub fn get_active_pid(&self) -> (r: usize)
        requires
            self.active() is Some,
        ensures
            r == self.active().unwrap().spec_process_id(),
    {
        match &self.active_thread {
            Some(t) => t.get_process_id(),
            None => 0,
        }
    }

    /// The thread that runs now.
    pub fn active_thread(&self) -> (r: &Option<Box<Thread>>)
        ensures
            *r == self.active(),
    {
        &self.active_thread
    }

    /// The number of threads waiting to run.
    pub fn ready_count(&self) -> (r: usize)
        ensures
            r == self.ready_queue().len(),
    {
        self.ready_queue.len()
    }

    /// Start the scheduler: from now on the active thread runs and the
    /// scheduler switches threads. The active thread is the one to start.
    pub fn schedule(&mut self)
        requires
            old(self).active() is Some,
        ensures
            final(self).initialized(),
            final(self).active() == old(self).active(),
            final(self).ready_queue() == old(self).ready_queue(),
    {
        self.initialized = true;
    }

    /// Register a new thread in the ready queue.
    pub fn ready(&mut self, thread: Box<Thread>)
        ensures
            final(self).active() == old(self).active(),
            final(self).ready_queue() == old(self).ready_queue().push(thread),
            final(self).initialized() == old(self).initialized(),
    {
        self.ready_queue.push_back(thread);
    }

    /// Terminate the active thread: the next thread of the ready queue becomes
    /// active. Returns the terminated thread, to switch away from.
    pub fn exit(&mut self) -> (r: Box<Thread>)
        requires
            old(self).active() is Some,
            old(self).ready_queue().len() > 0,
        ensures
            r == old(self).active().unwrap(),
            final(self).active() == Some(old(self).ready_queue()[0]),
            final(self).ready_queue() == old(self).ready_queue().drop_first(),
            final(self).initialized() == old(self).initialized(),
    {
        let current = self.active_thread.take().unwrap();
        let next = self.ready_queue.pop_front();
        self.active_thread = next;
        current
    }

    /// Yield the processor: when the scheduler was started, another thread is
    /// ready and the heap allocator is free, the next thread of the ready queue
    /// becomes active and the active one goes to the back of the queue. Returns
    /// whether the threads changed places, so that the caller switches from the
    /// thread now last in the queue to the active one.
    pub fn yield_cpu(&mut self, allocator_locked: bool) -> (switched: bool)
        requires
            old(self).initialized() && old(self).ready_queue().len() > 0 && !allocator_locked
                ==> old(self).active() is Some,
        ensures
            switched == (old(self).initialized() && old(self).ready_queue().len() > 0
                && !allocator_locked),
            final(self).initialized() == old(self).initialized(),
            switched ==> {
                &&& final(self).active() == Some(old(self).ready_queue()[0])
                &&& final(self).ready_queue() == old(self).ready_queue().drop_first().push(
                    old(self).active().unwrap(),
                )
            },
            !switched ==> final(self).active() == old(self).active() && final(self).ready_queue() == old(self).ready_queue(),
    {
        if !self.initialized {
            return false;
        }
        if self.ready_queue.len() == 0 {
            return false;
        }
        if allocator_locked {
            return false;
        }
        let next = self.ready_queue.pop_front();
        let current = self.active_thread.take();
        match current {
            Some(t) => {
                self.ready_queue.push_back(t);
            },
            None => {
                proof {
                    assert(false);
                }
            },
        }
        self.active_thread = next;
        true
    }

    /// Kill the thread with the given ID by removing it from the ready queue.
    pub fn kill(&mut self, to_kill_id: usize)
        ensures
            final(self).active() == old(self).active(),
            final(self).initialized() == old(self).initialized(),
            final(self).ready_queue() == old(self).ready_queue().filter(
                |t: Box<Thread>| t.spec_id() != to_kill_id,
            ),
    {
        let ghost keep = |t: Box<Thread>| t.spec_id() != to_kill_id;
        let ghost q0 = self.ready_queue@;
        let n = self.ready_queue.len();
        let mut i: usize = 0;
        while i < n
            invariant
                i <= n,
                n == q0.len(),
                self.ready_queue@ == q0.subrange(i as int, n as int) + q0.take(i as int).filter(keep),
                self.active_thread == old(self).active(),
                self.initialized == old(self).initialized(),
                keep == (|t: Box<Thread>| t.spec_id() != to_kill_id),
            decreases n - i,
        {
            let ghost before = self.ready_queue@;
            let front = self.ready_queue.pop_front();
            match front {
                Some(t) => {
                    proof {
                        assert(t == q0[i as int]);
                    }
                    if t.get_id() != to_kill_id {
                        self.ready_queue.push_back(t);
                    }
                    proof {
                        let x = q0[i as int];
                        assert(q0.take(i + 1) =~= q0.take(i as int) + seq![x]);
                        Seq::filter_distributes_over_add(q0.take(i as int), seq![x], keep);
                        reveal(Seq::filter);
                        assert(seq![x].drop_last() =~= Seq::<Box<Thread>>::empty());
                        assert(Seq::<Box<Thread>>::empty().filter(keep) =~= Seq::<Box<Thread>>::empty());
                        assert(before.subrange(1, before.len() as int) =~= q0.subrange(i + 1, n as int)
                            + q0.take(i as int).filter(keep));
                    }
                },
                None => {},
            }
            i = i + 1;
        }
        proof {
            assert(q0.take(n as int) =~= q0);
            assert(q0.subrange(n as int, n as int) =~= Seq::<Box<Thread>>::empty());
            assert(self.ready_queue@ =~= q0.filter(keep));
        }
    }

    /// Whether the scheduler was started.
    pub fn is_initialized(&self) -> (r: bool)
        ensures
            r == self.initialized(),
    {
        self.initialized
    }

    /// Prepare the active thread for blocking: it leaves the scheduler and is
    /// returned, so that the caller can keep it until it is ready again.
    /// To complete the blocking operation call `switch_from_blocked_thread()`.
    pub fn prepare_block(&mut self) -> (r: Box<Thread>)
        requires
            old(self).active() is Some,
        ensures
            r == old(self).active().unwrap(),
            final(self).active() is None,
            final(self).ready_queue() == old(self).ready_queue(),
            final(self).initialized() == old(self).initialized(),
    {
        self.active_thread.take().unwrap()
    }

    /// Complete a blocking operation begun with `prepare_block()`: the next
    /// thread of the ready queue becomes active, or, when no thread is ready,
    /// the new idle thread `idle`, so that a thread is always active. Returns
    /// whether the next thread came from the ready queue.
    pub fn switch_from_blocked_thread(&mut self, idle: Option<Box<Thread>>) -> (r: bool)
        requires
            old(self).active() is None,
            old(self).ready_queue().len() == 0 ==> idle is Some,
        ensures
            r == (old(self).ready_queue().len() > 0),
            final(self).active() is Some,
            r ==> final(self).active() == Some(old(self).ready_queue()[0])
                && final(self).ready_queue() == old(self).ready_queue().drop_first(),
            !r ==> final(self).active() == idle && final(self).ready_queue() == old(self).ready_queue(),
            final(self).initialized() == old(self).initialized(),
    {
        let next = self.ready_queue.pop_front();
        match next {
            Some(t) => {
                self.active_thread = Some(t);
                true
            },
            None => {
                self.active_thread = idle;
                false
            },
        }
    }
}

/// Law: yielding never loses or duplicates a thread; the scheduler holds the
/// same threads before and after, only in another order.
pub proof fn law_yield_keeps_threads(before: Scheduler, after: Scheduler, switched: bool)
    requires
        switched ==> {
            &&& before.active() is Some
            &&& before.ready_queue().len() > 0
            &&& after.active() == Some(before.ready_queue()[0])
            &&& after.ready_queue() == before.ready_queue().drop_first().push(
                before.active().unwrap(),
            )
        },
        !switched ==> after.active() == before.active() && after.ready_queue()
            == before.ready_queue(),
    ensures
        after.all_threads().to_multiset() == before.all_threads().to_multiset(),
{
    if switched {
        let cur = before.active().unwrap();
        let q = before.ready_queue();
        let rest = q.drop_first();
        assert(before.all_threads() =~= seq![cur] + (seq![q[0]] + rest));
        assert(after.all_threads() =~= seq![q[0]] + (rest + seq![cur]));
        vstd::seq_lib::lemma_multiset_commutative(seq![cur], seq![q[0]] + rest);
        vstd::seq_lib::lemma_multiset_commutative(seq![q[0]], rest + seq![cur]);
        vstd::seq_lib::lemma_multiset_commutative(seq![q[0]], rest);
        vstd::seq_lib::lemma_multiset_commutative(rest, seq![cur]);
        vstd::seq_lib::lemma_multiset_commutative(seq![q[0]] + rest, seq![cur]);
        assert((seq![q[0]] + rest) + seq![cur] =~= seq![q[0]] + (rest + seq![cur]));
    }
}

/// Law: after a thread blocks and the scheduler moves on, the blocked thread
/// together with the threads the scheduler holds are the threads it held before.
pub proof fn law_block_keeps_threads(before: Scheduler, after: Scheduler, blocked: Box<Thread>)
    requires
        before.active() == Some(blocked),
        before.ready_queue().len() > 0,
        after.active() == Some(before.ready_queue()[0]),
        after.ready_queue() == before.ready_queue().drop_first(),
    ensures
        after.all_threads().to_multiset().insert(blocked) == before.all_threads().to_multiset(),
{
    let q = before.ready_queue();
    assert(after.all_threads() =~= q);
    assert(before.all_threads() =~= seq![blocked] + q);
    vstd::seq_lib::lemma_multiset_commutative(seq![blocked], q);
    assert(seq![blocked].to_multiset() =~= Multiset::empty().insert(blocked)) by {
        broadcast use vstd::seq_lib::group_to_multiset_ensures;
        assert(seq![blocked] =~= Seq::<Box<Thread>>::empty().push(blocked));
    }
}

/// Law: completing a block loses no thread and leaves a thread active: the
/// scheduler then holds the threads it held, and the new idle thread where it
/// had to be used.
pub proof fn law_block_switch_keeps_threads(
    before: Scheduler,
    after: Scheduler,
    idle: Option<Box<Thread>>,
    from_queue: bool,
)
    requires
        before.active() is None,
        before.ready_queue().len() == 0 ==> idle is Some,
        from_queue == (before.ready_queue().len() > 0),
        from_queue ==> after.active() == Some(before.ready_queue()[0]) && after.ready_queue()
            == before.ready_queue().drop_first(),
        !from_queue ==> after.active() == idle && after.ready_queue() == before.ready_queue(),
    ensures
        after.active() is Some,
        from_queue ==> after.all_threads() == before.all_threads(),
        !from_queue ==> after.all_threads() == seq![idle.unwrap()],
{
    let q = before.ready_queue();
    if from_queue {
        assert(after.all_threads() =~= seq![q[0]] + q.drop_first());
        assert(seq![q[0]] + q.drop_first() =~= q);
    } else {
        assert(q =~= Seq::<Box<Thread>>::empty());
        assert(after.all_threads() =~= seq![idle.unwrap()] + q);
    }
}

} // verus!
