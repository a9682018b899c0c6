//! Mutual exclusion: a lock that is tried again and again, and a lock that
//! blocks the task that finds it taken.
use vstd::prelude::*;
use crate::sync::{is_wakeup, park_current, wake_first, waiting};
use crate::task::{is_switch, TaskManager, TaskStatus};

verus! {

/// A lock that a task tries until it gets it, without a task switch.
pub struct MutexSpin {
    locked: bool,
}

impl MutexSpin {
    /// Whether the lock is taken.
    pub closed spec fn locked(&self) -> bool {
        self.locked
    }

    /// A free lock.
    pub fn new() -> (m: MutexSpin)
        ensures
            !m.locked(),
    {
        MutexSpin { locked: false }
    }

    /// One try for the lock: takes it and returns `true` where it is free,
    /// and returns `false` where it is taken, for the caller to try again.
    pub fn lock(&mut self) -> (acquired: bool)
        ensures
            acquired == !old(self).locked(),
            final(self).locked(),
    {
        if self.locked {
            false
        } else {
            self.locked = true;
            true
        }
    }

    /// Frees the lock.
    pub fn unlock(&mut self)
        ensures
            !final(self).locked(),
    {
        self.locked = false;
    }
}

/// A lock that blocks the tasks that find it taken and hands itself to them
/// in the order in which they came.
pub struct MutexBlocking {
    holder: Option<usize>,
    wait_queue: Vec<usize>,
}

impl MutexBlocking {
    /// The task that holds the lock.
    pub closed spec fn holder(&self) -> Option<usize> {
        self.holder
    }

    /// The tasks that wait for the lock, first come first.
    pub closed spec fn waiters(&self) -> Seq<usize> {
        self.wait_queue@
    }

    /// The invariant of the lock among the tasks of `tm`: the tasks that
    /// wait are blocked, each waits once, and none waits for a free lock.
    pub open spec fn wf(&self, tm: TaskManager) -> bool {
        &&& waiting(tm, self.waiters())
        &&& self.holder() is None ==> self.waiters().len() == 0
    }

    /// A free lock.
    pub fn new() -> (m: MutexBlocking)
        ensures
            m.holder() is None,
            m.waiters().len() == 0,
    {
        MutexBlocking { holder: None, wait_queue: Vec::new() }
    }

    /// The task that holds the lock.
    pub fn held_by(&self) -> (pid: Option<usize>)
        ensures
            pid == self.holder(),
    {
        self.holder
    }

    /// The number of tasks that wait for the lock.
    pub fn waiter_count(&self) -> (n: usize)
        ensures
            n == self.waiters().len(),
    {
        self.wait_queue.len()
    }

    /// The running task asks for the lock. Where the lock is free the task
    /// gets it, goes on running, and `true` is returned. Where it is taken
    /// the task joins the end of the wait list and blocks, the next ready
    /// task is dispatched, and `false` is returned: the task holds the lock
    /// when it runs again. To block with no task ready is fatal: where the
    /// lock is taken some task must be ready.
    pub fn lock(&mut self, tm: &mut TaskManager, now_ms: usize) -> (acquired: bool)
        requires
            old(tm).wf(),
            old(tm).current() is Some,
            old(self).wf(*old(tm)),
            old(self).holder() is Some ==> old(tm).ready().len() > 0,
        ensures
            final(tm).wf(),
            final(tm).evolves_from(old(tm)),
            final(self).wf(*final(tm)),
            is_lock(*old(self), *old(tm), now_ms, acquired, *final(self), *final(tm)),
    {
        if self.holder.is_none() {
            self.holder = tm.current_pid();
            true
        } else {
            let _ = park_current(tm, &mut self.wait_queue, now_ms);
            false
        }
    }

    /// The holder gives the lock up. Where tasks wait, the first of them
    /// gets the lock and is woken, it and no other; else the lock is free.
    /// Returns the task that was woken.
    pub fn unlock(&mut self, tm: &mut TaskManager) -> (woken: Option<usize>)
        requires
            old(tm).wf(),
            old(self).wf(*old(tm)),
            old(self).holder() is Some,
        ensures
            final(tm).wf(),
            final(tm).evolves_from(old(tm)),
            final(self).wf(*final(tm)),
            is_unlock(*old(self), *old(tm), woken, *final(self), *final(tm)),
    {
        let woken = wake_first(tm, &mut self.wait_queue);
        self.holder = woken;
        woken
    }
}

/// Whether `m2`, `tm2` and `acquired` are what the running task of `tm`
/// gets when it asks for the lock `m`.
pub open spec fn is_lock(
    m: MutexBlocking,
    tm: TaskManager,
    now_ms: usize,
    acquired: bool,
    m2: MutexBlocking,
    tm2: TaskManager,
) -> bool {
    if m.holder() is None {
        &&& acquired
        &&& m2.holder() == tm.current()
        &&& m2.waiters() == m.waiters()
        &&& tm2.tasks() == tm.tasks()
        &&& tm2.ready() == tm.ready()
        &&& tm2.current() == tm.current()
    } else {
        &&& !acquired
        &&& m2.holder() == m.holder()
        &&& m2.waiters() == m.waiters().push(tm.current().unwrap())
        &&& is_switch(tm, TaskStatus::Blocked, 0, now_ms, tm2)
    }
}

/// Whether `m2`, `tm2` and `woken` are what giving up the lock `m` among
/// the tasks of `tm` gives.
pub open spec fn is_unlock(
    m: MutexBlocking,
    tm: TaskManager,
    woken: Option<usize>,
    m2: MutexBlocking,
    tm2: TaskManager,
) -> bool {
    &&& m2.holder() == woken
    &&& if m.waiters().len() == 0 {
        &&& woken is None
        &&& m2.waiters() == m.waiters()
        &&& tm2.tasks() == tm.tasks()
        &&& tm2.ready() == tm.ready()
        &&& tm2.current() == tm.current()
    } else {
        &&& woken == Some(m.waiters()[0])
        &&& m2.waiters() == m.waiters().drop_first()
        &&& is_wakeup(tm, m.waiters()[0], tm2)
    }
}

/// Mutual exclusion: of two requests for the lock with no release between
/// them at most one gets it, and the holder after the first is still the
/// holder after the second.
pub proof fn lemma_lock_excludes(
    m0: MutexBlocking,
    tm0: TaskManager,
    now1: usize,
    got1: bool,
    m1: MutexBlocking,
    tm1: TaskManager,
    now2: usize,
    got2: bool,
    m2: MutexBlocking,
    tm2: TaskManager,
)
    requires
        tm0.current() is Some,
        is_lock(m0, tm0, now1, got1, m1, tm1),
        is_lock(m1, tm1, now2, got2, m2, tm2),
    ensures
        !(got1 && got2),
        m1.holder() is Some,
        m2.holder() == m1.holder(),
{
}

/// One release wakes one task: the only task that a release takes out of the
/// blocked state is the first waiter, which then holds the lock and waits
/// no more, so that no later release wakes it again.
pub proof fn lemma_unlock_wakes_one(
    m: MutexBlocking,
    tm: TaskManager,
    woken: Option<usize>,
    m2: MutexBlocking,
    tm2: TaskManager,
)
    requires
        tm.wf(),
        m.wf(tm),
        is_unlock(m, tm, woken, m2, tm2),
    ensures
        woken is Some <==> m.waiters().len() > 0,
        forall|pid: int|
            tm.live(pid) && tm.tcb(pid).task_status == TaskStatus::Blocked ==> (woken == Some(pid as usize)
                <==> tm2.tcb(pid).task_status != TaskStatus::Blocked),
        woken is Some ==> tm2.tcb(woken.unwrap() as int).task_status == TaskStatus::Ready && m2.holder() == woken
            && !m2.waiters().contains(woken.unwrap()),
{
    if m.waiters().len() > 0 {
        let w = m.waiters()[0];
        assert(tm.live(w as int));
        assert forall|k: int| 0 <= k < m2.waiters().len() implies m2.waiters()[k] != w by {
            assert(m2.waiters()[k] == m.waiters()[k + 1]);
        }
    }
}


} // verus!
