//! A condition variable, used together with a blocking mutex.
use vstd::prelude::*;
use crate::sync::mutex::{is_unlock, MutexBlocking};
use crate::sync::{is_wakeup, park_current, wake_first, waiting};
use crate::task::{is_switch, TaskManager, TaskStatus};

verus! {

/// The list of the tasks that wait for a condition.
pub struct Condvar {
    wait_queue: Vec<usize>,
}

impl Condvar {
    /// The tasks that wait, first come first.
    pub closed spec fn waiters(&self) -> Seq<usize> {
        self.wait_queue@
    }

    /// The invariant of the condition variable among the tasks of `tm`: the
    /// tasks that wait are blocked, and each waits once.
    pub open spec fn wf(&self, tm: TaskManager) -> bool {
        waiting(tm, self.waiters())
    }

    /// A condition variable on which no task waits.
    pub fn new() -> (c: Condvar)
        ensures
            c.waiters().len() == 0,
    {
        Condvar { wait_queue: Vec::new() }
    }

    /// The number of tasks that wait.
    pub fn waiter_count(&self) -> (n: usize)
        ensures
            n == self.waiters().len(),
    {
        self.wait_queue.len()
    }

    /// Wakes the first task that waits, it and no other, and returns it;
    /// `None` where no task waits.
    pub fn notify_one(&mut self, tm: &mut TaskManager) -> (woken: Option<usize>)
        requires
            old(tm).wf(),
            old(self).wf(*old(tm)),
        ensures
            final(tm).wf(),
            final(tm).evolves_from(old(tm)),
            final(self).wf(*final(tm)),
            old(self).waiters().len() == 0 ==> woken is None && final(self).waiters() == old(self).waiters()
                && final(tm).tasks() == old(tm).tasks() && final(tm).ready() == old(tm).ready() && final(tm).current() == old(tm).current(),
            old(self).waiters().len() > 0 ==> woken == Some(old(self).waiters()[0]) && final(self).waiters()
                == old(self).waiters().drop_first() && is_wakeup(*old(tm), old(self).waiters()[0], *final(tm)),
    {
        wake_first(tm, &mut self.wait_queue)
    }

    /// Wakes every task that waits, first come first.
    pub fn notify_all(&mut self, tm: &mut TaskManager)
        requires
            old(tm).wf(),
            old(self).wf(*old(tm)),
        ensures
            final(tm).wf(),
            final(self).wf(*final(tm)),
            final(self).waiters().len() == 0,
            final(tm).current() == old(tm).current(),
            is_wake_all(*old(tm), old(self).waiters(), *final(tm)),
        decreases old(self).waiters().len(),
    {
        let woken = wake_first(tm, &mut self.wait_queue);
        if woken.is_some() {
            let ghost mid = *tm;
            self.notify_all(tm);
            assert(is_wakeup(*old(tm), old(self).waiters()[0], mid) && is_wake_all(
                mid,
                old(self).waiters().drop_first(),
                *tm,
            ));
        }
    }

    /// The running task, which holds `mutex`, gives the mutex up as
    /// `MutexBlocking::unlock` does, joins the end of the wait list and
    /// blocks; the next ready task is dispatched. Once woken the task has to
    /// ask for the mutex again. Returns the task that the mutex woke. These
    /// are two steps of the kernel, and the task that the mutex woke may be
    /// the one dispatched. No task waits for both the mutex and the
    /// condition. To block with no task ready is fatal: a task must be ready
    /// or wait for the mutex.
    pub fn wait(&mut self, mutex: &mut MutexBlocking, tm: &mut TaskManager, now_ms: usize) -> (woken: Option<usize>)
        requires
            old(tm).wf(),
            old(tm).current() is Some,
            old(self).wf(*old(tm)),
            old(mutex).wf(*old(tm)),
            old(mutex).holder() == old(tm).current(),
            old(tm).ready().len() > 0 || old(mutex).waiters().len() > 0,
            forall|a: int, b: int|
                0 <= a < old(mutex).waiters().len() && 0 <= b < old(self).waiters().len() ==> old(mutex).waiters()[a]
                    != old(self).waiters()[b],
        ensures
            final(tm).wf(),
            exists|mid: TaskManager| #[trigger] mid.evolves_from(old(tm)) && final(tm).evolves_from(&mid),
            final(self).wf(*final(tm)),
            final(mutex).wf(*final(tm)),
            final(self).waiters() == old(self).waiters().push(old(tm).current().unwrap()),
            exists|mid: TaskManager| #[trigger]
                is_unlock(*old(mutex), *old(tm), woken, *final(mutex), mid) && is_switch(
                    mid,
                    TaskStatus::Blocked,
                    0,
                    now_ms,
                    *final(tm),
                ),
    {
        let woken = mutex.unlock(tm);
        let ghost mid = *tm;
        proof {
            assert forall|k: int| 0 <= k < self.waiters().len() implies tm.live(#[trigger] self.waiters()[k] as int)
                && tm.tcb(self.waiters()[k] as int).task_status == TaskStatus::Blocked by {
                assert(old(tm).live(self.waiters()[k] as int));
            }
        }
        let _ = park_current(tm, &mut self.wait_queue, now_ms);
        proof {
            assert(mid.evolves_from(old(tm)) && tm.evolves_from(&mid));
            assert(is_unlock(*old(mutex), *old(tm), woken, *mutex, mid) && is_switch(
                mid,
                TaskStatus::Blocked,
                0,
                now_ms,
                *tm,
            ));
            let cur = old(tm).current().unwrap();
            assert(self.waiters()[old(self).waiters().len() as int] == cur);
            assert(tm.live(self.waiters()[old(self).waiters().len() as int] as int));
            assert forall|k: int| 0 <= k < mutex.waiters().len() implies tm.live(#[trigger] mutex.waiters()[k] as int)
                && tm.tcb(mutex.waiters()[k] as int).task_status == TaskStatus::Blocked by {
                let w = mutex.waiters()[k];
                assert(mid.live(w as int));
                assert(tm.tasks().len() >= mid.tasks().len());
                assert(mid.tasks()[w as int] is Some);
            }
        }
        woken
    }
}

/// Whether `after` is `before` once the blocked tasks `waiters` have been
/// made ready and queued one after the other, and nothing else has changed.
pub open spec fn is_wake_all(before: TaskManager, waiters: Seq<usize>, after: TaskManager) -> bool
    decreases waiters.len(),
{
    if waiters.len() == 0 {
        after.tasks() == before.tasks() && after.ready() == before.ready() && after.current() == before.current()
    } else {
        exists|mid: TaskManager| #[trigger]
            is_wakeup(before, waiters[0], mid) && is_wake_all(mid, waiters.drop_first(), after)
    }
}

} // verus!
