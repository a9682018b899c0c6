//! Synchronisation primitives, the wait list they share, and their
//! resource-safety check: the safety test of the Banker's algorithm over a
//! snapshot of the resource state.
pub mod condvar;
pub mod mutex;
pub mod safety;
pub mod semaphore;
pub mod up;

use vstd::prelude::*;
use crate::task::{is_enqueue, is_switch, switch_through, TaskControlBlock, TaskManager, TaskStatus};
use crate::sync::safety::{is_safe, lemma_unsafe_iff_no_safe_order};
pub use condvar::Condvar;
pub use mutex::{MutexBlocking, MutexSpin};
pub use semaphore::Semaphore;
pub use up::UPSafeCell;

verus! {

/// Units of resource `r` in row `t` of a per-task table; a row that is too
/// short holds no units of the resources it does not mention.
pub open spec fn units(rows: Seq<Vec<usize>>, t: int, r: int) -> int {
    if 0 <= r < rows[t].len() {
        rows[t][r] as int
    } else {
        0
    }
}

/// Units of resource `r` held by the first `n` tasks together.
pub open spec fn held(allocation: Seq<Vec<usize>>, r: int, n: nat) -> int
    decreases n,
{
    if n == 0 {
        0
    } else {
        held(allocation, r, (n - 1) as nat) + units(allocation, n - 1, r)
    }
}

/// Whether everything task `t` may still request is free right now.
pub open spec fn can_finish(available: Seq<int>, need: Seq<Vec<usize>>, t: int) -> bool {
    forall|r: int| 0 <= r < available.len() && r < need[t].len() ==> need[t][r] <= available[r]
}

/// The free units after task `t` has handed back all it holds.
pub open spec fn release(available: Seq<int>, allocation: Seq<Vec<usize>>, t: int) -> Seq<int> {
    Seq::new(available.len(), |r: int| available[r] + units(allocation, t, r))
}

/// The first unfinished task at or after `from` that can finish, or the
/// number of tasks if there is none.
pub open spec fn next_finishable(
    available: Seq<int>,
    need: Seq<Vec<usize>>,
    finish: Seq<bool>,
    from: int,
) -> int
    decreases finish.len() - from,
{
    if from < 0 || from >= finish.len() {
        finish.len() as int
    } else if !finish[from] && can_finish(available, need, from) {
        from
    } else {
        next_finishable(available, need, finish, from + 1)
    }
}

/// The free units and the finished flags of a simulated run.
pub struct Progress {
    pub available: Seq<int>,
    pub finish: Seq<bool>,
}

/// Lets tasks finish one after the other, at most `rounds` of them, each time
/// the first one that can, and stops early when none can.
pub open spec fn settle(
    state: Progress,
    allocation: Seq<Vec<usize>>,
    need: Seq<Vec<usize>>,
    rounds: nat,
) -> Progress
    decreases rounds,
{
    let t = next_finishable(state.available, need, state.finish, 0);
    if rounds == 0 || t >= state.finish.len() {
        state
    } else {
        settle(
            Progress {
                available: release(state.available, allocation, t),
                finish: state.finish.update(t, true),
            },
            allocation,
            need,
            (rounds - 1) as nat,
        )
    }
}

/// The state in which the simulation starts: nothing has finished.
pub open spec fn initial(available: Seq<int>, tasks: nat) -> Progress {
    Progress { available, finish: Seq::new(tasks, |t: int| false) }
}

/// The state in which the simulation ends. Every round finishes one more
/// task, so as many rounds as there are tasks exhaust all progress.
pub open spec fn outcome(
    available: Seq<int>,
    allocation: Seq<Vec<usize>>,
    need: Seq<Vec<usize>>,
) -> Progress {
    settle(initial(available, allocation.len()), allocation, need, allocation.len())
}

/// A snapshot is unsafe when some task is left unfinished at the end.
pub open spec fn is_unsafe(
    available: Seq<int>,
    allocation: Seq<Vec<usize>>,
    need: Seq<Vec<usize>>,
) -> bool {
    let end = outcome(available, allocation, need);
    exists|t: int| 0 <= t < allocation.len() && !end.finish[t]
}

/// The free units as mathematical integers.
pub open spec fn ints(available: Seq<isize>) -> Seq<int> {
    Seq::new(available.len(), |r: int| available[r] as int)
}

/// Units of resource `r` held by the unfinished ones among the first `n` tasks.
pub open spec fn outstanding(allocation: Seq<Vec<usize>>, finish: Seq<bool>, r: int, n: nat) -> int
    decreases n,
{
    if n == 0 {
        0
    } else {
        outstanding(allocation, finish, r, (n - 1) as nat) + if finish[n - 1] {
            0
        } else {
            units(allocation, n - 1, r)
        }
    }
}

proof fn lemma_outstanding_initial(allocation: Seq<Vec<usize>>, finish: Seq<bool>, r: int, n: nat)
    requires
        n <= finish.len(),
        forall|t: int| 0 <= t < n ==> !finish[t],
    ensures
        outstanding(allocation, finish, r, n) == held(allocation, r, n),
    decreases n,
{
    if n > 0 {
        lemma_outstanding_initial(allocation, finish, r, (n - 1) as nat);
    }
}

proof fn lemma_outstanding_bounds(allocation: Seq<Vec<usize>>, finish: Seq<bool>, r: int, n: nat, t: int)
    requires
        n <= finish.len(),
    ensures
        outstanding(allocation, finish, r, n) >= 0,
        0 <= t < n && !finish[t] ==> outstanding(allocation, finish, r, n) >= units(allocation, t, r),
    decreases n,
{
    if n > 0 {
        lemma_outstanding_bounds(allocation, finish, r, (n - 1) as nat, t);
    }
}

proof fn lemma_outstanding_finish(allocation: Seq<Vec<usize>>, finish: Seq<bool>, r: int, n: nat, t: int)
    requires
        n <= finish.len(),
        0 <= t < finish.len(),
        !finish[t],
    ensures
        outstanding(allocation, finish.update(t, true), r, n) == outstanding(allocation, finish, r, n)
            - if t < n {
            units(allocation, t, r)
        } else {
            0
        },
    decreases n,
{
    if n > 0 {
        lemma_outstanding_finish(allocation, finish, r, (n - 1) as nat, t);
    }
}

/// Tests whether one task's remaining need is covered by the free units.
fn need_covered(available: &Vec<isize>, need: &[Vec<usize>], t: usize) -> (covered: bool)
    requires
        t < need.len(),
    ensures
        covered == can_finish(ints(available@), need@, t as int),
{
    let row = &need[t];
    let mut r: usize = 0;
    while r < available.len() && r < row.len()
        invariant
            row == need@[t as int],
            forall|q: int| 0 <= q < r && q < available.len() && q < row.len() ==> row[q] <= available[q],
        decreases available.len() - r,
    {
        let free: isize = available[r];
        if free < 0 || row[r] > free as usize {
            assert(!(need@[t as int][r as int] <= ints(available@)[r as int]));
            return false;
        }
        r += 1;
    }
    assert forall|q: int| 0 <= q < ints(available@).len() && q < need@[t as int].len() implies need@[t as int][q]
        <= ints(available@)[q] by {}
    true
}

/// Finds the first unfinished task that can finish.
fn find_finishable(available: &Vec<isize>, need: &[Vec<usize>], finish: &Vec<bool>) -> (t: usize)
    requires
        finish.len() == need.len(),
    ensures
        t as int == next_finishable(ints(available@), need@, finish@, 0),
        t <= finish.len(),
        t < finish.len() ==> !finish[t as int],
{
    let mut t: usize = 0;
    while t < finish.len()
        invariant
            t <= finish.len(),
            finish.len() == need.len(),
            next_finishable(ints(available@), need@, finish@, 0) == next_finishable(
                ints(available@),
                need@,
                finish@,
                t as int,
            ),
        decreases finish.len() - t,
    {
        if !finish[t] && need_covered(available, need, t) {
            return t;
        }
        t += 1;
    }
    t
}

/// Hands the units that task `t` holds back to the free units.
fn release_held(available: &mut Vec<isize>, allocation: &[Vec<usize>], t: usize)
    requires
        t < allocation.len(),
        forall|r: int| 0 <= r < old(available).len() ==> old(available)[r] + units(allocation@, t as int, r) <= isize::MAX,
    ensures
        final(available).len() == old(available).len(),
        ints(final(available)@) == release(ints(old(available)@), allocation@, t as int),
{
    let row = &allocation[t];
    let mut r: usize = 0;
    while r < available.len() && r < row.len()
        invariant
            t < allocation.len(),
            row == allocation@[t as int],
            available.len() == old(available).len(),
            forall|q: int| 0 <= q < r && q < available.len() ==> available[q] == old(available)[q] + units(allocation@, t as int, q),
            forall|q: int| r <= q < available.len() ==> available[q] == old(available)[q],
            forall|q: int| 0 <= q < old(available).len() ==> old(available)[q] + units(allocation@, t as int, q) <= isize::MAX,
        decreases available.len() - r,
    {
        let free: isize = available[r];
        let back: usize = row[r];
        assert(units(allocation@, t as int, r as int) == back);
        let sum: isize = if back <= isize::MAX as usize {
            free + back as isize
        } else {
            (free + isize::MAX + 1) + (back - isize::MAX as usize - 1) as isize
        };
        available[r] = sum;
        r += 1;
    }
    assert(ints(available@) =~= release(ints(old(available)@), allocation@, t as int));
}

/// Reports whether the snapshot is unsafe: whether there is no order in
/// which all tasks can finish.
///
/// Tasks finish one at a time. A task can finish when every resource it may
/// still need is free; it then returns what it holds. The check works on a
/// copy of the free units: the snapshot is left as it was. The total supply
/// of every resource must fit in an `isize`.
pub fn deadlock_detect(available: &mut [isize], allocation: &[Vec<usize>], need: &[Vec<usize>]) -> (deadlocked: bool)
    requires
        allocation.len() == need.len(),
        forall|r: int| 0 <= r < old(available).len() ==> old(available)[r] + held(allocation@, r, allocation@.len()) <= isize::MAX,
    ensures
        deadlocked == is_unsafe(ints(old(available)@), allocation@, need@),
        deadlocked == !is_safe(ints(old(available)@), allocation@, need@),
        final(available)@ == old(available)@,
{
    let mut free: Vec<isize> = Vec::new();
    let mut r: usize = 0;
    while r < available.len()
        invariant
            r <= available.len(),
            free@ == available@.subrange(0, r as int),
        decreases available.len() - r,
    {
        free.push(available[r]);
        assert(free@ =~= available@.subrange(0, r + 1));
        r += 1;
    }
    assert(free@ =~= old(available)@);
    let task_len: usize = allocation.len();
    let mut finish: Vec<bool> = Vec::new();
    let mut k: usize = 0;
    while k < task_len
        invariant
            k <= task_len,
            finish.len() == k,
            forall|t: int| 0 <= t < k ==> !finish[t],
        decreases task_len - k,
    {
        finish.push(false);
        k += 1;
    }
    proof {
        assert(finish@ =~= initial(ints(free@), task_len as nat).finish);
        assert forall|r: int| 0 <= r < free.len() implies free[r] + outstanding(
            allocation@,
            finish@,
            r,
            task_len as nat,
        ) <= isize::MAX by {
            lemma_outstanding_initial(allocation@, finish@, r, task_len as nat);
        }
    }
    let mut round: usize = 0;
    let mut stuck: bool = false;
    while round < task_len && !stuck
        invariant
            round <= task_len,
            task_len == allocation.len(),
            task_len == need.len(),
            finish.len() == task_len,
            free.len() == old(available).len(),
            forall|r: int| 0 <= r < free.len() ==> free[r] + outstanding(allocation@, finish@, r, task_len as nat) <= isize::MAX,
            stuck ==> next_finishable(ints(free@), need@, finish@, 0) >= task_len,
            outcome(ints(old(available)@), allocation@, need@) == settle(
                (Progress { available: ints(free@), finish: finish@ }),
                allocation@,
                need@,
                (task_len - round) as nat,
            ),
        decreases task_len - round, if stuck { 0int } else { 1int },
    {
        let t = find_finishable(&free, need, &finish);
        if t >= task_len {
            stuck = true;
        } else {
            proof {
                assert forall|r: int| 0 <= r < free.len() implies free[r] + units(allocation@, t as int, r)
                    <= isize::MAX && free[r] + units(allocation@, t as int, r) + outstanding(
                    allocation@,
                    finish@.update(t as int, true),
                    r,
                    task_len as nat,
                ) <= isize::MAX by {
                    lemma_outstanding_bounds(allocation@, finish@, r, task_len as nat, t as int);
                    lemma_outstanding_finish(allocation@, finish@, r, task_len as nat, t as int);
                }
            }
            let ghost before = free@;
            let ghost flags = finish@;
            release_held(&mut free, allocation, t);
            finish[t] = true;
            round += 1;
            proof {
                assert(finish@ == flags.update(t as int, true));
                assert forall|r: int| 0 <= r < free.len() implies free[r] + outstanding(
                    allocation@,
                    finish@,
                    r,
                    task_len as nat,
                ) <= isize::MAX by {
                    assert(ints(free@)[r] == release(ints(before), allocation@, t as int)[r]);
                    assert(ints(before)[r] == before[r]);
                }
            }
        }
    }
    let found = any_unfinished(&finish);
    proof {
        lemma_unsafe_iff_no_safe_order(ints(old(available)@), allocation@, need@);
        let end = outcome(ints(old(available)@), allocation@, need@);
        assert(end.finish == finish@);
        if found {
            let t = choose|t: int| 0 <= t < finish.len() && !finish[t];
            assert(0 <= t < allocation.len() && !end.finish[t]);
        }
    }
    found
}

/// Whether some task has not finished.
fn any_unfinished(finish: &Vec<bool>) -> (found: bool)
    ensures
        found == exists|t: int| 0 <= t < finish.len() && !finish[t],
{
    let mut t: usize = 0;
    while t < finish.len()
        invariant
            t <= finish.len(),
            forall|q: int| 0 <= q < t ==> finish[q],
        decreases finish.len() - t,
    {
        if !finish[t] {
            return true;
        }
        t += 1;
    }
    false
}

/// Whether no further task can finish: every unfinished task needs more of
/// some resource than is free.
pub open spec fn stuck(state: Progress, need: Seq<Vec<usize>>) -> bool {
    forall|t: int| 0 <= t < state.finish.len() && !state.finish[t] ==> !can_finish(state.available, need, t)
}

/// The number of finished tasks among the first `n`.
pub open spec fn finished_count(finish: Seq<bool>, n: nat) -> nat
    decreases n,
{
    if n == 0 {
        0
    } else {
        finished_count(finish, (n - 1) as nat) + if finish[n - 1] {
            1nat
        } else {
            0nat
        }
    }
}

proof fn lemma_count_full(finish: Seq<bool>, n: nat)
    requires
        n <= finish.len(),
    ensures
        finished_count(finish, n) <= n,
        finished_count(finish, n) == n ==> forall|t: int| 0 <= t < n ==> finish[t],
    decreases n,
{
    if n > 0 {
        lemma_count_full(finish, (n - 1) as nat);
    }
}

proof fn lemma_count_finish(finish: Seq<bool>, n: nat, t: int)
    requires
        n <= finish.len(),
        0 <= t < finish.len(),
        !finish[t],
    ensures
        finished_count(finish.update(t, true), n) == finished_count(finish, n) + if t < n {
            1nat
        } else {
            0nat
        },
    decreases n,
{
    if n > 0 {
        lemma_count_finish(finish, (n - 1) as nat, t);
    }
}

proof fn lemma_next_finishable(available: Seq<int>, need: Seq<Vec<usize>>, finish: Seq<bool>, from: int)
    requires
        0 <= from <= finish.len(),
    ensures
        from <= next_finishable(available, need, finish, from) <= finish.len(),
        next_finishable(available, need, finish, from) < finish.len() ==> !finish[next_finishable(
            available,
            need,
            finish,
            from,
        )] && can_finish(available, need, next_finishable(available, need, finish, from)),
        forall|q: int|
            from <= q < next_finishable(available, need, finish, from) ==> finish[q] || !can_finish(
                available,
                need,
                q,
            ),
    decreases finish.len() - from,
{
    if from < finish.len() && !(!finish[from] && can_finish(available, need, from)) {
        lemma_next_finishable(available, need, finish, from + 1);
    }
}

proof fn lemma_settle(state: Progress, allocation: Seq<Vec<usize>>, need: Seq<Vec<usize>>, rounds: nat)
    ensures
        settle(state, allocation, need, rounds).finish.len() == state.finish.len(),
        settle(state, allocation, need, rounds).available.len() == state.available.len(),
        stuck(settle(state, allocation, need, rounds), need) || finished_count(
            settle(state, allocation, need, rounds).finish,
            state.finish.len(),
        ) == finished_count(state.finish, state.finish.len()) + rounds,
    decreases rounds,
{
    let t = next_finishable(state.available, need, state.finish, 0);
    lemma_next_finishable(state.available, need, state.finish, 0);
    if rounds == 0 || t >= state.finish.len() {
    } else {
        let next = Progress {
            available: release(state.available, allocation, t),
            finish: state.finish.update(t, true),
        };
        lemma_count_finish(state.finish, state.finish.len(), t);
        lemma_settle(next, allocation, need, (rounds - 1) as nat);
    }
}

/// The simulation ends only when no progress is left: in its outcome every
/// task has finished, or each unfinished task needs more of some resource
/// than is free then.
pub proof fn lemma_outcome_is_final(available: Seq<int>, allocation: Seq<Vec<usize>>, need: Seq<Vec<usize>>)
    ensures
        outcome(available, allocation, need).finish.len() == allocation.len(),
        outcome(available, allocation, need).available.len() == available.len(),
        stuck(outcome(available, allocation, need), need),
{
    let start = initial(available, allocation.len());
    let end = outcome(available, allocation, need);
    lemma_settle(start, allocation, need, allocation.len());
    if !stuck(end, need) {
        lemma_count_full(start.finish, allocation.len());
        lemma_count_zero(start.finish, allocation.len());
        lemma_count_full(end.finish, allocation.len());
    }
}

proof fn lemma_count_zero(finish: Seq<bool>, n: nat)
    requires
        n <= finish.len(),
        forall|t: int| 0 <= t < n ==> !finish[t],
    ensures
        finished_count(finish, n) == 0,
    decreases n,
{
    if n > 0 {
        lemma_count_zero(finish, (n - 1) as nat);
    }
}

/// Whether `waiters` can be the wait list of a primitive: each task on it
/// is blocked, and none is on it twice.
pub open spec fn waiting(tm: TaskManager, waiters: Seq<usize>) -> bool {
    &&& forall|k: int|
        0 <= k < waiters.len() ==> tm.live(#[trigger] waiters[k] as int) && tm.tcb(waiters[k] as int).task_status
            == TaskStatus::Blocked
    &&& forall|a: int, b: int| 0 <= a < b < waiters.len() ==> waiters[a] != waiters[b]
}

/// Whether `after` is `before` once the blocked task `pid` has been made
/// ready and queued, and nothing else has changed.
pub open spec fn is_wakeup(before: TaskManager, pid: usize, after: TaskManager) -> bool {
    &&& after.current() == before.current()
    &&& after.tasks() == before.tasks().update(
        pid as int,
        Some((TaskControlBlock { task_status: TaskStatus::Ready, ..before.tcb(pid as int) })),
    )
    &&& is_enqueue(after.tasks(), before.ready(), pid, after.ready())
}

/// Puts the running task at the end of a wait list, blocks it and dispatches
/// the next ready task, of which there must be one. Returns the id of the
/// task that runs now.
pub(crate) fn park_current(tm: &mut TaskManager, waiters: &mut Vec<usize>, now_ms: usize) -> (next: usize)
    requires
        old(tm).wf(),
        old(tm).current() is Some,
        old(tm).ready().len() > 0,
        waiting(*old(tm), old(waiters)@),
    ensures
        final(tm).wf(),
        final(tm).evolves_from(old(tm)),
        final(tm).current() == Some(next),
        is_switch(*old(tm), TaskStatus::Blocked, 0, now_ms, *final(tm)),
        final(waiters)@ == old(waiters)@.push(old(tm).current().unwrap()),
        waiting(*final(tm), final(waiters)@),
{
    let cur = match tm.current_pid() {
        Some(c) => c,
        None => 0,
    };
    waiters.push(cur);
    let next = tm.block_current_and_run_next(now_ms);
    proof {
        let before = *old(tm);
        let queue = choose|queue: Seq<usize>| #[trigger]
            switch_through(before, TaskStatus::Blocked, 0, now_ms, queue, *tm);
        assert(queue == before.ready());
        assert forall|k: int| 0 <= k < waiters@.len() implies tm.live(#[trigger] waiters@[k] as int) && tm.tcb(
            waiters@[k] as int,
        ).task_status == TaskStatus::Blocked by {
            if k < old(waiters)@.len() {
                let w = old(waiters)@[k];
                assert(before.live(w as int));
                assert(before.live(queue[0] as int));
            }
        }
        assert forall|a: int, b: int| 0 <= a < b < waiters@.len() implies waiters@[a] != waiters@[b] by {
            if b == old(waiters)@.len() {
                assert(before.live(old(waiters)@[a] as int));
            }
        }
    }
    next
}

/// Takes the first task off a wait list, makes it ready and queues it.
/// Returns its id, or `None` where the list is empty.
pub(crate) fn wake_first(tm: &mut TaskManager, waiters: &mut Vec<usize>) -> (woken: Option<usize>)
    requires
        old(tm).wf(),
        waiting(*old(tm), old(waiters)@),
    ensures
        final(tm).wf(),
        final(tm).evolves_from(old(tm)),
        waiting(*final(tm), final(waiters)@),
        old(waiters)@.len() == 0 ==> woken is None && final(waiters)@ == old(waiters)@ && final(tm).tasks() == old(tm).tasks() && final(tm).ready() == old(tm).ready() && final(tm).current() == old(tm).current(),
        old(waiters)@.len() > 0 ==> woken == Some(old(waiters)@[0]) && final(waiters)@ == old(waiters)@.drop_first()
            && is_wakeup(*old(tm), old(waiters)@[0], *final(tm)),
{
    if waiters.len() == 0 {
        return None;
    }
    let pid = waiters.remove(0);
    assert(old(tm).live(old(waiters)@[0] as int));
    let woken = tm.wakeup_task(pid);
    proof {
        assert(woken);
        assert(waiters@ =~= old(waiters)@.drop_first());
        assert forall|k: int| 0 <= k < waiters@.len() implies tm.live(#[trigger] waiters@[k] as int) && tm.tcb(
            waiters@[k] as int,
        ).task_status == TaskStatus::Blocked && waiters@[k] != pid by {
            assert(waiters@[k] == old(waiters)@[k + 1]);
            assert(old(tm).live(old(waiters)@[k + 1] as int));
        }
        assert forall|a: int, b: int| 0 <= a < b < waiters@.len() implies waiters@[a] != waiters@[b] by {
            assert(waiters@[a] == old(waiters)@[a + 1]);
            assert(waiters@[b] == old(waiters)@[b + 1]);
        }
    }
    Some(pid)
}

} // verus!
