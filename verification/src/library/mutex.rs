//! A lock that blocks waiting threads in place of spinning.
//!
//! The mutex keeps the threads that wait for it in a queue. When the holder
//! unlocks it while threads wait, the lock passes straight to the first of
//! them, which the scheduler gets back as ready; only when nobody waits does
//! the mutex become free.
use vstd::prelude::*;
use std::collections::VecDeque;
use crate::threads::scheduler::Scheduler;
use crate::threads::thread::Thread;

verus! {

/// What became of a thread that asked for the lock.
#[derive(Debug, Clone, Copy, PartialEq, Eq, Structural)]
pub enum LockOutcome {
    /// The thread holds the lock now.
    Acquired,
    /// The lock is held and the scheduler has not started: the thread spins
    /// and asks again.
    Busy,
    /// The thread waits in the mutex's queue and left the scheduler. With
    /// `true` the next ready thread is active now; with `false` none was ready,
    /// and the new idle thread is.
    Blocked(bool),
}

/// A lock around `data` with a queue of the threads waiting for it.
pub struct Mutex<T> {
    lock: bool,
    data: T,
    wait_queue: VecDeque<Box<Thread>>,
}

impl<T> Mutex<T> {
    /// Whether the lock is held.
    pub closed spec fn locked(&self) -> bool {
        self.lock
    }

    /// The threads waiting for the lock, the first to get it first.
    pub closed spec fn waiting(&self) -> Seq<Box<Thread>> {
        self.wait_queue@
    }

    /// The protected data.
    pub closed spec fn value(&self) -> T {
        self.data
    }

    /// Nobody waits for a free lock.
    pub open spec fn wf(&self) -> bool {
        self.waiting().len() > 0 ==> self.locked()
    }

    /// A free mutex around `data`, with nobody waiting.
    pub fn new(data: T) -> (r: Mutex<T>)
        ensures
            !r.locked(),
            r.waiting() == Seq::<Box<Thread>>::empty(),
            r.value() == data,
            r.wf(),
    {
        Mutex { lock: false, data, wait_queue: VecDeque::new() }
    }

    /// Try to acquire the lock once without blocking. Returns whether it was
    /// free and is now held.
    pub fn try_lock(&mut self) -> (r: bool)
        requires
            old(self).wf(),
        ensures
            r == !old(self).locked(),
            final(self).locked(),
            attempt(*old(self), r, *final(self)),
            final(self).waiting() == old(self).waiting(),
            final(self).value() == old(self).value(),
            final(self).wf(),
    {
        if self.is_locked() {
            return false;
        }
        self.lock = true;
        true
    }

    /// The active thread of `scheduler` asks for the lock. A free lock is
    /// taken. A held one makes the thread spin while the scheduler has not
    /// started; once it has, the thread leaves the scheduler for the end of the
    /// wait queue, and the next ready thread becomes active, or the new idle
    /// thread `idle` when none is ready.
    pub fn lock(&mut self, scheduler: &mut Scheduler, idle: Option<Box<Thread>>) -> (r: LockOutcome)
        requires
            old(self).wf(),
            old(scheduler).active() is Some,
            old(self).locked() && old(scheduler).initialized() && old(scheduler).ready_queue().len()
                == 0 ==> idle is Some,
        ensures
            final(self).wf(),
            final(self).locked(),
            attempt(*old(self), r == LockOutcome::Acquired, *final(self)),
            final(self).value() == old(self).value(),
            final(scheduler).initialized() == old(scheduler).initialized(),
            !old(self).locked() ==> r == LockOutcome::Acquired && final(self).waiting()
                == old(self).waiting() && *final(scheduler) == *old(scheduler),
            old(self).locked() && !old(scheduler).initialized() ==> r == LockOutcome::Busy
                && final(self).waiting() == old(self).waiting() && *final(scheduler) == *old(scheduler),
            old(self).locked() && old(scheduler).initialized() ==> {
                let q = old(scheduler).ready_queue();
                &&& r == LockOutcome::Blocked(q.len() > 0)
                &&& final(self).waiting() == old(self).waiting().push(
                    old(scheduler).active().unwrap(),
                )
                &&& if q.len() > 0 {
                    &&& final(scheduler).active() == Some(q[0])
                    &&& final(scheduler).ready_queue() == q.drop_first()
                } else {
                    &&& final(scheduler).active() == idle
                    &&& final(scheduler).ready_queue() == q
                }
            },
    {
        if !scheduler.is_initialized() {
            if self.is_locked() {
                return LockOutcome::Busy;
            }
            self.lock = true;
            return LockOutcome::Acquired;
        }
        if self.is_locked() {
            let blocked_thread = scheduler.prepare_block();
            self.wait_queue.push_back(blocked_thread);
            let switched = scheduler.switch_from_blocked_thread(idle);
            return LockOutcome::Blocked(switched);
        }
        self.lock = true;
        LockOutcome::Acquired
    }

    /// Check if the lock is currently held.
    pub fn is_locked(&self) -> (r: bool)
        ensures
            r == self.locked(),
    {
        self.lock
    }

    /// Unlock the mutex. Where threads wait, the lock passes to the first of
    /// them, which goes back to the scheduler's ready queue; otherwise the
    /// mutex becomes free.
    pub fn unlock(&mut self, scheduler: &mut Scheduler)
        requires
            old(self).wf(),
        ensures
            final(self).wf(),
            final(self).value() == old(self).value(),
            final(scheduler).active() == old(scheduler).active(),
            final(scheduler).initialized() == old(scheduler).initialized(),
            old(self).waiting().len() > 0 ==> {
                &&& final(self).locked()
                &&& final(self).waiting() == old(self).waiting().drop_first()
                &&& final(scheduler).ready_queue() == old(scheduler).ready_queue().push(
                    old(self).waiting()[0],
                )
            },
            old(self).waiting().len() == 0 ==> !final(self).locked() && final(self).waiting()
                == old(self).waiting() && final(scheduler).ready_queue() == old(scheduler).ready_queue(),
    {
        match self.wait_queue.pop_front() {
            Some(next_thread) => {
                scheduler.ready(next_thread);
            },
            None => {
                self.lock = false;
            },
        }
    }

    /// Forcefully unlock the mutex without waking up any waiting threads.
    /// This should only be used in exceptional cases.
    pub fn force_unlock(&mut self)
        ensures
            !final(self).locked(),
            final(self).waiting() == old(self).waiting(),
            final(self).value() == old(self).value(),
    {
        self.lock = false;
    }

    /// The protected data, to change it.
    pub fn data_mut(&mut self) -> (r: &mut T)
        ensures
            *r == old(self).value(),
            final(self).value() == *final(r),
            final(self).locked() == old(self).locked(),
            final(self).waiting() == old(self).waiting(),
    {
        &mut self.data
    }

    /// The protected data.
    pub fn data(&self) -> (r: &T)
        ensures
            *r == self.value(),
    {
        &self.data
    }
}

/// One attempt to take the lock (`try_lock` or `lock`) that moved the mutex
/// from `before` to `after`: it gets the lock just when the lock was free, and
/// the lock is held afterwards either way.
pub open spec fn attempt<T>(before: Mutex<T>, got: bool, after: Mutex<T>) -> bool {
    got == !before.locked() && after.locked()
}

/// Law: mutual exclusion. Of a run of attempts to take the lock, each made on
/// the mutex the one before left, with no unlock between them, at most one
/// gets the lock, and none does when the lock was held at the start.
pub proof fn law_mutual_exclusion<T>(states: Seq<Mutex<T>>, got: Seq<bool>)
    requires
        states.len() == got.len() + 1,
        forall|i: int| 0 <= i < got.len() ==> attempt(#[trigger] states[i], got[i], states[i + 1]),
    ensures
        forall|i: int, j: int| 0 <= i < j < got.len() ==> !(#[trigger] got[i] && #[trigger] got[j]),
        states[0].locked() ==> forall|i: int| 0 <= i < got.len() ==> !#[trigger] got[i],
    decreases got.len(),
{
    if got.len() > 0 {
        let rest_states = states.drop_first();
        let rest_got = got.drop_first();
        assert forall|i: int| 0 <= i < rest_got.len() implies attempt(
            #[trigger] rest_states[i],
            rest_got[i],
            rest_states[i + 1],
        ) by {
            assert(attempt(states[i + 1], got[i + 1], states[i + 2]));
        }
        law_mutual_exclusion(rest_states, rest_got);
        assert(attempt(states[0], got[0], states[1]));
        assert(rest_states[0].locked());
        assert forall|i: int| 1 <= i < got.len() implies !#[trigger] got[i] by {
            assert(got[i] == rest_got[i - 1]);
        }
        assert forall|i: int, j: int| 0 <= i < j < got.len() implies !(#[trigger] got[i]
            && #[trigger] got[j]) by {
            if i > 0 {
                assert(got[i] == rest_got[i - 1]);
                assert(got[j] == rest_got[j - 1]);
            } else {
                assert(got[j] == rest_got[j - 1]);
            }
        }
        if states[0].locked() {
            assert forall|i: int| 0 <= i < got.len() implies !#[trigger] got[i] by {
                if i > 0 {
                    assert(got[i] == rest_got[i - 1]);
                }
            }
        }
    }
}

/// Law: the lock is handed on in the order the threads asked for it: of two
/// threads that blocked one after the other on a mutex nobody waited for, the
/// first unlock readies the first of them, and the lock stays held for it.
pub proof fn law_waiters_served_in_order<T>(
    m0: Mutex<T>,
    m1: Mutex<T>,
    m2: Mutex<T>,
    m3: Mutex<T>,
    a: Box<Thread>,
    b: Box<Thread>,
)
    requires
        m0.waiting().len() == 0,
        m1.waiting() == m0.waiting().push(a),
        m2.waiting() == m1.waiting().push(b),
        m3.waiting() == m2.waiting().drop_first(),
    ensures
        m2.waiting()[0] == a,
        m3.waiting() == seq![b],
{
    assert(m3.waiting() =~= seq![b]);
}

} // verus!
