//! A counting semaphore.
use vstd::prelude::*;
use crate::sync::{is_wakeup, park_current, wake_first, waiting};
use crate::task::{is_switch, TaskManager, TaskStatus};

verus! {

/// A counter of free units with the list of the tasks that wait for one.
pub struct Semaphore {
    count: isize,
    wait_queue: Vec<usize>,
}

impl Semaphore {
    /// The counter: the free units, or below zero the number of waiting tasks.
    pub closed spec fn count(&self) -> isize {
        self.count
    }

    /// The tasks that wait for a unit, first come first.
    pub closed spec fn waiters(&self) -> Seq<usize> {
        self.wait_queue@
    }

    /// The invariant of the semaphore among the tasks of `tm`: the tasks
    /// that wait are blocked, each waits once, and their number is what the
    /// counter is below zero.
    pub open spec fn wf(&self, tm: TaskManager) -> bool {
        &&& waiting(tm, self.waiters())
        &&& self.waiters().len() == if self.count() < 0 {
            -self.count()
        } else {
            0
        }
    }

    /// A semaphore with `res_count` free units.
    pub fn new(res_count: usize) -> (s: Semaphore)
        requires
            res_count <= isize::MAX,
        ensures
            s.count() == res_count,
            s.waiters().len() == 0,
    {
        Semaphore { count: res_count as isize, wait_queue: Vec::new() }
    }

    /// The counter.
    pub fn value(&self) -> (count: isize)
        ensures
            count == self.count(),
    {
        self.count
    }

    /// Returns a unit: the counter goes up by one, and where tasks wait the
    /// first of them is woken, it and no other. Returns the task that was
    /// woken.
    pub fn up(&mut self, tm: &mut TaskManager) -> (woken: Option<usize>)
        requires
            old(tm).wf(),
            old(self).wf(*old(tm)),
            old(self).count() < isize::MAX,
        ensures
            final(tm).wf(),
            final(tm).evolves_from(old(tm)),
            final(self).wf(*final(tm)),
            final(self).count() == old(self).count() + 1,
            old(self).count() >= 0 ==> woken is None && final(self).waiters() == old(self).waiters() && final(tm).tasks() == old(tm).tasks() && final(tm).ready() == old(tm).ready() && final(tm).current() == old(tm).current(),
            old(self).count() < 0 ==> woken == Some(old(self).waiters()[0]) && final(self).waiters() == old(self).waiters().drop_first() && is_wakeup(*old(tm), old(self).waiters()[0], *final(tm)),
    {
        self.count = self.count + 1;
        if self.count <= 0 {
            wake_first(tm, &mut self.wait_queue)
        } else {
            None
        }
    }

    /// The running task takes a unit: the counter goes down by one. Where a
    /// unit was free the task goes on running and `true` is returned. Where
    /// none was, the task joins the end of the wait list and blocks, the next
    /// ready task is dispatched, and `false` is returned. To block with no
    /// task ready is fatal: where no unit is free some task must be ready.
    pub fn down(&mut self, tm: &mut TaskManager, now_ms: usize) -> (acquired: bool)
        requires
            old(tm).wf(),
            old(tm).current() is Some,
            old(self).wf(*old(tm)),
            old(self).count() <= 0 ==> old(tm).ready().len() > 0,
            old(self).count() > isize::MIN,
        ensures
            final(tm).wf(),
            final(tm).evolves_from(old(tm)),
            final(self).wf(*final(tm)),
            final(self).count() == old(self).count() - 1,
            acquired == (old(self).count() > 0),
            acquired ==> final(self).waiters() == old(self).waiters() && final(tm).tasks() == old(tm).tasks()
                && final(tm).ready() == old(tm).ready() && final(tm).current() == old(tm).current(),
            !acquired ==> final(self).waiters() == old(self).waiters().push(old(tm).current().unwrap())
                && is_switch(*old(tm), TaskStatus::Blocked, 0, now_ms, *final(tm)),
    {
        self.count = self.count - 1;
        if self.count < 0 {
            let _ = park_current(tm, &mut self.wait_queue, now_ms);
            false
        } else {
            true
        }
    }
}

} // verus!
