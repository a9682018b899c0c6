//! The task control block and the task manager: the process table, the
//! ready queue and the slot of the running task.
use vstd::prelude::*;
use std::collections::BTreeMap;
use crate::config::{MAX_SYSCALL_NUM, MAX_TASKS};
use crate::mm::{MemorySet, MapArea, first_at, room_for, later, page_floor, page_ceil, spec_page_floor, spec_page_ceil};

verus! {

broadcast use vstd::std_specs::btree::group_btree_axioms;

/// The smallest scheduling key a task can have.
pub const MIN_PRIORITY: isize = 2;

/// The scheduling key of a freshly created task.
pub const DEFAULT_PRIORITY: isize = 16;

/// The status of a task in its life cycle.
#[derive(Copy, Clone, Debug, PartialEq, Eq, Structural)]
pub enum TaskStatus {
    /// not yet set up
    UnInit,
    /// ready to run
    Ready,
    /// running on the core
    Running,
    /// waiting on a synchronisation primitive
    Blocked,
    /// exited, exit code not yet collected by the parent
    Zombie,
}

/// The time at which a task was first dispatched.
#[derive(Copy, Clone, Debug, PartialEq, Eq, Structural)]
pub enum FirstScheduleTime {
    /// the task has never run
    Undefined,
    /// milliseconds since boot
    Ms(usize),
}

/// What a task's trap frame holds of interest to the core: where it resumes,
/// its stack pointer, and the register through which a system call returns.
#[derive(Copy, Clone, Debug, PartialEq, Eq, Structural)]
pub struct TrapContext {
    pub sepc: usize,
    pub sp: usize,
    pub a0: usize,
}

/// An executable image once loaded: its address space, its entry point and
/// the top of its initial stack, above which the heap starts.
pub struct ProgramImage {
    pub memory_set: MemorySet,
    pub entry_point: usize,
    pub user_sp: usize,
}

impl ProgramImage {
    /// A valid image: a valid address space, and a stack top that a signed
    /// machine word can hold, as every program break must be.
    pub open spec fn wf(&self) -> bool {
        self.memory_set.wf() && self.user_sp <= isize::MAX
    }
}

/// The task control block (TCB) of a task.
pub struct TaskControlBlock {
    /// The process id, fixed at creation
    pub pid: usize,
    /// The task status in its life cycle
    pub task_status: TaskStatus,
    /// The trap frame
    pub trap_cx: TrapContext,
    /// The address space
    pub memory_set: MemorySet,
    /// The parent, by id; it may be gone
    pub parent: Option<usize>,
    /// The children that have not been reaped, by id
    pub children: Vec<usize>,
    /// The exit code, meaningful once the task is a zombie
    pub exit_code: i32,
    /// The time when the first schedule occurs
    pub first_schedule_time: FirstScheduleTime,
    /// The number of calls of each system call that was called, by id
    pub syscall_count: BTreeMap<usize, u32>,
    /// The scheduling key: a lower one is dispatched first
    pub priority: isize,
    /// The address at which the heap starts
    pub heap_bottom: usize,
    /// The program break: the address at which the heap ends
    pub program_brk: usize,
}

impl TaskControlBlock {
    /// The invariant of one control block.
    pub open spec fn wf(&self) -> bool {
        &&& self.memory_set.wf()
        &&& self.heap_bottom <= self.program_brk <= isize::MAX
        &&& self.priority >= MIN_PRIORITY
        &&& self.task_status != TaskStatus::UnInit
        &&& (self.task_status == TaskStatus::Running ==> self.first_schedule_time != FirstScheduleTime::Undefined)
        &&& forall|a: int, b: int| 0 <= a < b < self.children@.len() ==> self.children@[a] != self.children@[b]
    }
}

/// Whether a task may pass from status `from` to status `to` in one step of
/// the kernel: it stays as it is, is dispatched, is preempted or yields,
/// blocks, is woken, or exits.
pub open spec fn legal_transition(from: TaskStatus, to: TaskStatus) -> bool {
    ||| from == to
    ||| from == TaskStatus::Ready && to == TaskStatus::Running
    ||| from == TaskStatus::Running && to == TaskStatus::Ready
    ||| from == TaskStatus::Running && to == TaskStatus::Zombie
    ||| from == TaskStatus::Running && to == TaskStatus::Blocked
    ||| from == TaskStatus::Blocked && to == TaskStatus::Ready
}

/// Whether `pid` names a task of the table that has not been reaped.
pub open spec fn live_in(tasks: Seq<Option<TaskControlBlock>>, pid: int) -> bool {
    0 <= pid < tasks.len() && tasks[pid] is Some
}

/// Every control block is valid and sits in the slot of its id.
pub open spec fn table_wf(tasks: Seq<Option<TaskControlBlock>>) -> bool {
    &&& tasks.len() <= MAX_TASKS
    &&& forall|pid: int|
        0 <= pid < tasks.len() && (#[trigger] tasks[pid]) is Some ==> tasks[pid].unwrap().pid == pid
            && tasks[pid].unwrap().wf()
}

/// The ready queue holds ready tasks, each once, lowest key first.
pub open spec fn queue_wf(tasks: Seq<Option<TaskControlBlock>>, ready: Seq<usize>) -> bool {
    &&& forall|k: int|
        0 <= k < ready.len() ==> live_in(tasks, #[trigger] ready[k] as int) && tasks[ready[k] as int].unwrap().task_status
            == TaskStatus::Ready
    &&& forall|a: int, b: int| 0 <= a < b < ready.len() ==> ready[a] != ready[b]
    &&& forall|a: int, b: int|
        0 <= a < b < ready.len() ==> tasks[ready[a] as int].unwrap().priority <= tasks[ready[b] as int].unwrap().priority
}

/// The running task, and no other, has status `Running`.
pub open spec fn current_wf(tasks: Seq<Option<TaskControlBlock>>, current: Option<usize>) -> bool {
    &&& current is Some ==> live_in(tasks, current.unwrap() as int) && tasks[current.unwrap() as int].unwrap().task_status
        == TaskStatus::Running
    &&& forall|pid: int|
        0 <= pid < tasks.len() && (#[trigger] tasks[pid]) is Some && tasks[pid].unwrap().task_status
            == TaskStatus::Running ==> current == Some(pid as usize)
}

/// Every child listed by a task is live and names that task as its parent.
pub open spec fn family_wf(tasks: Seq<Option<TaskControlBlock>>) -> bool {
    forall|pid: int, k: int|
        0 <= pid < tasks.len() && tasks[pid] is Some && 0 <= k < tasks[pid].unwrap().children@.len() ==> live_in(
            tasks,
            #[trigger] tasks[pid].unwrap().children@[k] as int,
        ) && tasks[tasks[pid].unwrap().children@[k] as int].unwrap().parent == Some(pid as usize)
}

/// Whether `after` is the ready queue `before` with task `pid` put behind
/// every task whose key is lower or the same and before every task whose key
/// is higher.
pub open spec fn is_enqueue(
    tasks: Seq<Option<TaskControlBlock>>,
    before: Seq<usize>,
    pid: usize,
    after: Seq<usize>,
) -> bool {
    exists|pos: int|
        {
            &&& 0 <= pos <= before.len()
            &&& #[trigger] before.insert(pos, pid) == after
            &&& forall|k: int|
                0 <= k < pos ==> tasks[#[trigger] before[k] as int].unwrap().priority <= tasks[pid as int].unwrap().priority
            &&& forall|k: int|
                pos <= k < before.len() ==> tasks[#[trigger] before[k] as int].unwrap().priority
                    > tasks[pid as int].unwrap().priority
        }
}

/// Whether the table `after` can follow the table `before`: process ids are
/// never reused, no task but a zombie disappears, every task that stays
/// changes its status by a legal transition only, and every new task is
/// ready.
pub open spec fn evolves(
    before: Seq<Option<TaskControlBlock>>,
    after: Seq<Option<TaskControlBlock>>,
) -> bool {
    &&& before.len() <= after.len()
    &&& forall|pid: int|
        0 <= pid < before.len() && (#[trigger] before[pid]) is Some ==> if after[pid] is Some {
            legal_transition(before[pid].unwrap().task_status, after[pid].unwrap().task_status)
        } else {
            before[pid].unwrap().task_status == TaskStatus::Zombie
        }
    &&& forall|pid: int| 0 <= pid < before.len() && (#[trigger] before[pid]) is None ==> after[pid] is None
    &&& forall|pid: int|
        before.len() <= pid < after.len() && (#[trigger] after[pid]) is Some ==> after[pid].unwrap().task_status
            == TaskStatus::Ready
}

/// All tasks of the kernel: the process table, the ready queue and the slot
/// of the task that runs on the core.
pub struct TaskManager {
    /// slot `i` holds the task with process id `i` until it is reaped
    tasks: Vec<Option<TaskControlBlock>>,
    /// ids of the tasks that wait for the core, lowest scheduling key first
    ready_queue: Vec<usize>,
    /// id of the running task
    current_task: Option<usize>,
}

impl TaskManager {
    /// The process table.
    pub closed spec fn tasks(&self) -> Seq<Option<TaskControlBlock>> {
        self.tasks@
    }

    /// The ready queue, in the order in which it will be dispatched.
    pub closed spec fn ready(&self) -> Seq<usize> {
        self.ready_queue@
    }

    /// The running task.
    pub closed spec fn current(&self) -> Option<usize> {
        self.current_task
    }

    /// Whether `pid` names a task that has not been reaped.
    pub open spec fn live(&self, pid: int) -> bool {
        live_in(self.tasks(), pid)
    }

    /// The control block of task `pid`.
    pub open spec fn tcb(&self, pid: int) -> TaskControlBlock {
        self.tasks()[pid].unwrap()
    }

    /// The invariant of the task manager.
    pub open spec fn wf(&self) -> bool {
        &&& table_wf(self.tasks())
        &&& queue_wf(self.tasks(), self.ready())
        &&& current_wf(self.tasks(), self.current())
        &&& family_wf(self.tasks())
    }

    /// Whether `pid` waits in the ready queue.
    pub open spec fn queued(&self, pid: int) -> bool {
        self.ready().contains(pid as usize)
    }

    /// Whether this state can follow `before`.
    pub open spec fn evolves_from(&self, before: &TaskManager) -> bool {
        evolves(before.tasks(), self.tasks())
    }

    /// Creates a task manager without tasks.
    pub fn new() -> (tm: TaskManager)
        ensures
            tm.wf(),
            tm.tasks().len() == 0,
            tm.ready().len() == 0,
            tm.current() is None,
    {
        TaskManager { tasks: Vec::new(), ready_queue: Vec::new(), current_task: None }
    }

    /// The number of process ids handed out so far.
    pub fn task_count(&self) -> (n: usize)
        ensures
            n == self.tasks().len(),
    {
        self.tasks.len()
    }

    /// The control block of task `pid`, unless it was reaped or never existed.
    pub fn task(&self, pid: usize) -> (t: Option<&TaskControlBlock>)
        ensures
            self.live(pid as int) ==> t == Some(&self.tcb(pid as int)),
            !self.live(pid as int) ==> t is None,
    {
        if pid < self.tasks.len() {
            self.tasks[pid].as_ref()
        } else {
            None
        }
    }

    /// The id of the running task.
    pub fn current_pid(&self) -> (pid: Option<usize>)
        ensures
            pid == self.current(),
    {
        self.current_task
    }

    /// The number of tasks in the ready queue.
    pub fn ready_count(&self) -> (n: usize)
        ensures
            n == self.ready().len(),
    {
        self.ready_queue.len()
    }

    /// Whether task `pid` waits in the ready queue.
    pub fn is_queued(&self, pid: usize) -> (yes: bool)
        ensures
            yes == self.queued(pid as int),
    {
        let mut k: usize = 0;
        while k < self.ready_queue.len()
            invariant
                k <= self.ready_queue.len(),
                forall|j: int| 0 <= j < k ==> self.ready_queue[j] != pid,
            decreases self.ready_queue.len() - k,
        {
            if self.ready_queue[k] == pid {
                return true;
            }
            k += 1;
        }
        false
    }

    /// The scheduling key of a live task.
    fn priority_of(&self, pid: usize) -> (p: isize)
        requires
            self.live(pid as int),
        ensures
            p == self.tcb(pid as int).priority,
    {
        match &self.tasks[pid] {
            Some(t) => t.priority,
            None => 0,
        }
    }

    /// Puts a ready task into the ready queue: behind every task whose key
    /// is lower or the same, before every task whose key is higher. The
    /// place is found by halving the queue.
    pub fn add(&mut self, pid: usize)
        requires
            old(self).wf(),
            old(self).live(pid as int),
            old(self).tcb(pid as int).task_status == TaskStatus::Ready,
            !old(self).queued(pid as int),
        ensures
            final(self).wf(),
            final(self).tasks() == old(self).tasks(),
            final(self).current() == old(self).current(),
            is_enqueue(old(self).tasks(), old(self).ready(), pid, final(self).ready()),
    {
        let key = self.priority_of(pid);
        let mut pos: usize = 0;
        let mut end: usize = self.ready_queue.len();
        while pos < end
            invariant
                *self == *old(self),
                self.wf(),
                pos <= end <= self.ready_queue.len(),
                forall|k: int| 0 <= k < pos ==> self.tcb(#[trigger] self.ready()[k] as int).priority <= key,
                forall|k: int|
                    end <= k < self.ready().len() ==> self.tcb(#[trigger] self.ready()[k] as int).priority > key,
            decreases end - pos,
        {
            let mid: usize = pos + (end - pos) / 2;
            assert(self.live(self.ready()[mid as int] as int));
            if self.priority_of(self.ready_queue[mid]) <= key {
                pos = mid + 1;
            } else {
                end = mid;
            }
        }
        self.ready_queue.insert(pos, pid);
        proof {
            let before = old(self).ready();
            let after = self.ready();
            assert(after == before.insert(pos as int, pid));
            assert forall|k: int| 0 <= k < after.len() implies self.live(#[trigger] after[k] as int) && self.tcb(
                after[k] as int,
            ).task_status == TaskStatus::Ready by {
                if k < pos {
                    assert(after[k] == before[k]);
                } else if k > pos {
                    assert(after[k] == before[k - 1]);
                }
            }
            assert forall|a: int, b: int| 0 <= a < b < after.len() implies after[a] != after[b] && self.tcb(
                after[a] as int,
            ).priority <= self.tcb(after[b] as int).priority by {
                let a0 = if a < pos { a } else { a - 1 };
                let b0 = if b < pos { b } else { b - 1 };
                if a != pos {
                    assert(after[a] == before[a0]);
                }
                if b != pos {
                    assert(after[b] == before[b0]);
                }
            }
        }
    }

    /// Takes the task with the lowest scheduling key out of the ready queue.
    pub fn fetch(&mut self) -> (next: Option<usize>)
        requires
            old(self).wf(),
        ensures
            final(self).wf(),
            final(self).tasks() == old(self).tasks(),
            final(self).current() == old(self).current(),
            old(self).ready().len() == 0 ==> next is None && final(self).ready() == old(self).ready(),
            old(self).ready().len() > 0 ==> next == Some(old(self).ready()[0]) && final(self).ready() == old(
                self,
            ).ready().drop_first(),
            next is Some ==> !final(self).queued(next.unwrap() as int) && final(self).current() != next,
            next is Some ==> forall|k: int|
                0 <= k < final(self).ready().len() ==> old(self).tcb(next.unwrap() as int).priority <= old(
                    self,
                ).tcb(#[trigger] final(self).ready()[k] as int).priority,
    {
        if self.ready_queue.len() == 0 {
            return None;
        }
        let pid = self.ready_queue.remove(0);
        proof {
            let before = old(self).ready();
            let after = self.ready();
            assert(after =~= before.drop_first());
            assert forall|k: int| 0 <= k < after.len() implies after[k] == before[k + 1] by {}
            assert(before[0] == pid);
            assert(old(self).live(before[0] as int));
            assert forall|k: int| 0 <= k < after.len() implies self.live(#[trigger] after[k] as int) && self.tcb(
                after[k] as int,
            ).task_status == TaskStatus::Ready && after[k] != pid && old(self).tcb(pid as int).priority
                <= old(self).tcb(after[k] as int).priority by {
                assert(after[k] == before[k + 1]);
            }
            assert forall|a: int, b: int| 0 <= a < b < after.len() implies after[a] != after[b] && self.tcb(
                after[a] as int,
            ).priority <= self.tcb(after[b] as int).priority by {
                assert(after[a] == before[a + 1]);
                assert(after[b] == before[b + 1]);
            }
        }
        Some(pid)
    }

    /// The task that `fetch` would take, left in the ready queue.
    pub fn peek(&self) -> (next: Option<usize>)
        ensures
            self.ready().len() == 0 ==> next is None,
            self.ready().len() > 0 ==> next == Some(self.ready()[0]),
    {
        if self.ready_queue.len() == 0 {
            None
        } else {
            Some(self.ready_queue[0])
        }
    }

    /// Changes the status of a live task.
    fn set_status(&mut self, pid: usize, status: TaskStatus)
        requires
            old(self).live(pid as int),
        ensures
            final(self).tasks() == old(self).tasks().update(
                pid as int,
                Some((TaskControlBlock { task_status: status, ..old(self).tcb(pid as int) })),
            ),
            final(self).ready() == old(self).ready(),
            final(self).current() == old(self).current(),
    {
        match &mut self.tasks[pid] {
            Some(t) => {
                t.task_status = status;
            },
            None => {},
        }
    }

    /// Dispatches the head of the ready queue onto the idle core: marks it
    /// `Running`, records the time of its first dispatch where it has none,
    /// and makes it the running task; no other task changes. Returns its id.
    /// To find no task ready is fatal: some task must be ready.
    pub fn run_next_task(&mut self, now_ms: usize) -> (next: usize)
        requires
            old(self).wf(),
            old(self).current() is None,
            old(self).ready().len() > 0,
        ensures
            final(self).wf(),
            final(self).evolves_from(old(self)),
            final(self).current() == Some(next),
            next == old(self).ready()[0],
            final(self).ready() == old(self).ready().drop_first(),
            final(self).tasks() == old(self).tasks().update(
                next as int,
                Some(dispatched(old(self).tcb(next as int), now_ms)),
            ),
    {
        let pid = match self.fetch() {
            Some(pid) => pid,
            None => vstd::pervasive::unreached(),
        };
        match &mut self.tasks[pid] {
            Some(t) => {
                t.task_status = TaskStatus::Running;
                if t.first_schedule_time == FirstScheduleTime::Undefined {
                    t.first_schedule_time = FirstScheduleTime::Ms(now_ms);
                }
            },
            None => {},
        }
        self.current_task = Some(pid);
        proof {
            let before = old(self).tasks();
            let after = self.tasks();
            assert(old(self).ready()[0] == pid);
            assert(after == before.update(pid as int, Some(dispatched(before[pid as int].unwrap(), now_ms))));
            assert forall|k: int| 0 <= k < self.ready().len() implies #[trigger] self.ready()[k] != pid by {
                assert(self.ready().contains(self.ready()[k]));
            }
        }
        pid
    }

    /// Takes the running task off the core with the given status and
    /// dispatches the head of the ready queue. A task that leaves as `Ready`
    /// is queued again first; one that leaves as `Zombie` or `Blocked` is not,
    /// and then some other task must be ready.
    fn switch(&mut self, status: TaskStatus, exit_code: i32, now_ms: usize) -> (next: usize)
        requires
            old(self).wf(),
            old(self).current() is Some,
            status == TaskStatus::Ready || status == TaskStatus::Zombie || status == TaskStatus::Blocked,
            status != TaskStatus::Ready ==> old(self).ready().len() > 0,
        ensures
            final(self).wf(),
            final(self).evolves_from(old(self)),
            final(self).current() == Some(next),
            is_switch(*old(self), status, exit_code, now_ms, *final(self)),
    {
        let cur = match self.current_task {
            Some(c) => c,
            None => 0,
        };
        match &mut self.tasks[cur] {
            Some(t) => {
                t.task_status = status;
                if status == TaskStatus::Zombie {
                    t.exit_code = exit_code;
                }
            },
            None => {},
        }
        self.current_task = None;
        proof {
            assert(self.tasks() == old(self).tasks().update(
                cur as int,
                Some(parked(old(self).tcb(cur as int), status, exit_code)),
            ));
            assert forall|k: int| 0 <= k < self.ready().len() implies #[trigger] self.ready()[k] != cur by {}
            assert(!self.ready().contains(cur));
            assert(self.wf());
        }
        if status == TaskStatus::Ready {
            self.add(cur);
        }
        let ghost mid = *self;
        let next = self.run_next_task(now_ms);
        proof {
            assert(switch_through(*old(self), status, exit_code, now_ms, mid.ready(), *self));
        }
        next
    }



    /// Blocks the running task, which leaves the ready queue altogether, and
    /// dispatches the head of the ready queue. Returns the id of the task
    /// that runs now. To find no task ready is fatal: some task must be
    /// ready.
    pub fn block_current_and_run_next(&mut self, now_ms: usize) -> (next: usize)
        requires
            old(self).wf(),
            old(self).current() is Some,
            old(self).ready().len() > 0,
        ensures
            final(self).wf(),
            final(self).evolves_from(old(self)),
            final(self).current() == Some(next),
            is_switch(*old(self), TaskStatus::Blocked, 0, now_ms, *final(self)),
    {
        self.switch(TaskStatus::Blocked, 0, now_ms)
    }

    /// Makes a blocked task ready and queues it. Tells whether `pid` named a
    /// blocked task; nothing changes where it did not.
    pub fn wakeup_task(&mut self, pid: usize) -> (woken: bool)
        requires
            old(self).wf(),
        ensures
            final(self).wf(),
            final(self).evolves_from(old(self)),
            final(self).current() == old(self).current(),
            woken == (old(self).live(pid as int) && old(self).tcb(pid as int).task_status == TaskStatus::Blocked),
            !woken ==> final(self).tasks() == old(self).tasks() && final(self).ready() == old(self).ready(),
            woken ==> final(self).tasks() == old(self).tasks().update(
                pid as int,
                Some((TaskControlBlock { task_status: TaskStatus::Ready, ..old(self).tcb(pid as int) })),
            ) && is_enqueue(final(self).tasks(), old(self).ready(), pid, final(self).ready()),
    {
        let blocked = match self.task(pid) {
            Some(t) => t.task_status == TaskStatus::Blocked,
            None => false,
        };
        if !blocked {
            return false;
        }
        self.set_status(pid, TaskStatus::Ready);
        proof {
            assert forall|k: int| 0 <= k < self.ready().len() implies #[trigger] self.ready()[k] != pid by {}
            assert(!self.ready().contains(pid));
        }
        self.add(pid);
        true
    }

    /// Enters a new ready task into the table under the next free id, lists
    /// it among the children of its parent and queues it.
    fn create(&mut self, task: TaskControlBlock) -> (pid: usize)
        requires
            old(self).wf(),
            old(self).tasks().len() < MAX_TASKS,
            task.wf(),
            task.pid == old(self).tasks().len(),
            task.task_status == TaskStatus::Ready,
            task.children@.len() == 0,
            task.parent is Some ==> old(self).live(task.parent.unwrap() as int),
        ensures
            final(self).wf(),
            pid == old(self).tasks().len(),
            final(self).tasks()[pid as int] == Some(task),
            is_birth(*old(self), task.parent, *final(self)),
    {
        let pid = self.tasks.len();
        let parent = task.parent;
        self.tasks.push(Some(task));
        if let Some(p) = parent {
            match &mut self.tasks[p] {
                Some(t) => {
                    t.children.push(pid);
                },
                None => {},
            }
        }
        proof {
            let before = old(self).tasks();
            let after = self.tasks();
            assert(after.len() == pid + 1);
            assert(after[pid as int] == Some(task));
            assert forall|q: int| 0 <= q < pid && Some(q as usize) != parent implies after[q] == before[q] by {}
            if parent is Some {
                let p = parent.unwrap() as int;
                let kids = before[p].unwrap().children@;
                assert(after[p].unwrap().children@ == kids.push(pid));
                assert forall|k: int| 0 <= k < kids.len() implies kids[k] != pid by {
                    assert(live_in(before, before[p].unwrap().children@[k] as int));
                }
                assert(after[p].unwrap().wf());
            }
            assert(table_wf(after));
            assert forall|k: int| 0 <= k < self.ready().len() implies live_in(after, #[trigger] self.ready()[k] as int)
                && after[self.ready()[k] as int].unwrap().task_status == TaskStatus::Ready && self.ready()[k]
                != pid by {
                assert(live_in(before, old(self).ready()[k] as int));
            }
            assert forall|a: int, b: int| 0 <= a < b < self.ready().len() implies after[self.ready()[a] as int].unwrap().priority
                <= after[self.ready()[b] as int].unwrap().priority by {
                assert(live_in(before, old(self).ready()[a] as int));
                assert(live_in(before, old(self).ready()[b] as int));
            }
            assert(queue_wf(after, self.ready()));
            assert(current_wf(after, self.current()));
            assert forall|q: int, k: int|
                0 <= q < after.len() && after[q] is Some && 0 <= k < after[q].unwrap().children@.len() implies live_in(
                after,
                #[trigger] after[q].unwrap().children@[k] as int,
            ) && after[after[q].unwrap().children@[k] as int].unwrap().parent == Some(q as usize) by {
                if q < pid {
                    if k < before[q].unwrap().children@.len() {
                        let c = before[q].unwrap().children@[k];
                        assert(after[q].unwrap().children@[k] == c);
                        assert(live_in(before, c as int));
                    }
                }
            }
            assert(!self.ready().contains(pid));
        }
        let ghost mid = *self;
        self.add(pid);
        proof {
            assert(birth_through(*old(self), task.parent, mid.tasks(), *self));
        }
        pid
    }

    /// Creates a task from a loaded image that has no parent, and queues it.
    /// Returns its id, or `None` where all process ids are used up.
    pub fn add_initproc(&mut self, image: ProgramImage) -> (pid: Option<usize>)
        requires
            old(self).wf(),
            image.wf(),
        ensures
            final(self).wf(),
            final(self).evolves_from(old(self)),
            old(self).tasks().len() >= MAX_TASKS ==> pid is None && final(self).tasks() == old(self).tasks()
                && final(self).ready() == old(self).ready() && final(self).current() == old(self).current(),
            old(self).tasks().len() < MAX_TASKS ==> pid == Some(old(self).tasks().len() as usize) && is_birth(
                *old(self),
                None,
                *final(self),
            ) && is_fresh(final(self).tcb(old(self).tasks().len() as int), old(self).tasks().len() as usize, image, None),
    {
        if self.tasks.len() >= MAX_TASKS {
            return None;
        }
        let task = TaskControlBlock::new(self.tasks.len(), image, None);
        Some(self.create(task))
    }

    /// Creates a child of the running task from a loaded image, and queues
    /// it. Returns its id, or `None` where all process ids are used up.
    pub fn spawn(&mut self, image: ProgramImage) -> (pid: Option<usize>)
        requires
            old(self).wf(),
            old(self).current() is Some,
            image.wf(),
        ensures
            final(self).wf(),
            final(self).evolves_from(old(self)),
            old(self).tasks().len() >= MAX_TASKS ==> pid is None && final(self).tasks() == old(self).tasks()
                && final(self).ready() == old(self).ready() && final(self).current() == old(self).current(),
            old(self).tasks().len() < MAX_TASKS ==> pid == Some(old(self).tasks().len() as usize) && is_birth(
                *old(self),
                old(self).current(),
                *final(self),
            ) && is_fresh(
                final(self).tcb(old(self).tasks().len() as int),
                old(self).tasks().len() as usize,
                image,
                old(self).current(),
            ),
    {
        if self.tasks.len() >= MAX_TASKS {
            return None;
        }
        let task = TaskControlBlock::new(self.tasks.len(), image, self.current_task);
        Some(self.create(task))
    }

    /// Creates a child of the running task that is a copy of it: the same
    /// address space contents, priority and heap, the same trap frame but
    /// for the return register, which holds 0. Returns the child's id, or
    /// `None` where all process ids are used up.
    pub fn fork(&mut self) -> (pid: Option<usize>)
        requires
            old(self).wf(),
            old(self).current() is Some,
        ensures
            final(self).wf(),
            final(self).evolves_from(old(self)),
            old(self).tasks().len() >= MAX_TASKS ==> pid is None && final(self).tasks() == old(self).tasks()
                && final(self).ready() == old(self).ready() && final(self).current() == old(self).current(),
            old(self).tasks().len() < MAX_TASKS ==> pid == Some(old(self).tasks().len() as usize) && is_birth(
                *old(self),
                old(self).current(),
                *final(self),
            ) && is_fork_child(
                final(self).tcb(old(self).tasks().len() as int),
                old(self).tcb(old(self).current().unwrap() as int),
                old(self).tasks().len() as usize,
            ),
    {
        if self.tasks.len() >= MAX_TASKS {
            return None;
        }
        let cur = match self.current_task {
            Some(c) => c,
            None => 0,
        };
        let pid = self.tasks.len();
        let child = match &self.tasks[cur] {
            Some(t) => TaskControlBlock {
                pid,
                task_status: TaskStatus::Ready,
                trap_cx: TrapContext { sepc: t.trap_cx.sepc, sp: t.trap_cx.sp, a0: 0 },
                memory_set: t.memory_set.duplicate(),
                parent: Some(cur),
                children: Vec::new(),
                exit_code: 0,
                first_schedule_time: FirstScheduleTime::Undefined,
                syscall_count: BTreeMap::new(),
                priority: t.priority,
                heap_bottom: t.heap_bottom,
                program_brk: t.program_brk,
            },
            None => {
                return None;
            },
        };
        Some(self.create(child))
    }

    /// Replaces the program of the running task by a loaded image: its
    /// address space, its trap frame and its heap start afresh. Its id, its
    /// parent, its children and everything else stay.
    pub fn exec(&mut self, image: ProgramImage)
        requires
            old(self).wf(),
            old(self).current() is Some,
            image.wf(),
        ensures
            final(self).wf(),
            final(self).evolves_from(old(self)),
            final(self).ready() == old(self).ready(),
            final(self).current() == old(self).current(),
            final(self).tasks() == old(self).tasks().update(
                old(self).current().unwrap() as int,
                Some(
                    (TaskControlBlock {
                        memory_set: image.memory_set,
                        trap_cx: TrapContext { sepc: image.entry_point, sp: image.user_sp, a0: 0 },
                        heap_bottom: image.user_sp,
                        program_brk: image.user_sp,
                        ..old(self).tcb(old(self).current().unwrap() as int)
                    }),
                ),
            ),
    {
        let cur = match self.current_task {
            Some(c) => c,
            None => 0,
        };
        match &mut self.tasks[cur] {
            Some(t) => {
                t.trap_cx = TrapContext { sepc: image.entry_point, sp: image.user_sp, a0: 0 };
                t.heap_bottom = image.user_sp;
                t.program_brk = image.user_sp;
                t.memory_set = image.memory_set;
            },
            None => {},
        }
    }

    /// Whether child `idx` of the running task is a zombie that `pid` asks for.
    fn child_reapable(&self, cur: usize, idx: usize, pid: isize) -> (yes: bool)
        requires
            self.wf(),
            self.live(cur as int),
            idx < self.tcb(cur as int).children@.len(),
        ensures
            yes == reapable(self.tasks(), pid, self.tcb(cur as int).children@[idx as int]),
    {
        let child = match &self.tasks[cur] {
            Some(t) => t.children[idx],
            None => 0,
        };
        assert(live_in(self.tasks(), self.tasks()[cur as int].unwrap().children@[idx as int] as int));
        let zombie = match &self.tasks[child] {
            Some(c) => c.task_status == TaskStatus::Zombie,
            None => false,
        };
        zombie && (pid == -1 || (pid >= 0 && pid as usize == child))
    }

    /// Waits for a child of the running task: any child where `pid` is -1,
    /// else the child with id `pid`.
    ///
    /// Where no child is asked for, the answer is -1. Where none of those
    /// asked for is a zombie, it is -2. Otherwise the first such zombie in the
    /// list of children is reaped: it leaves that list and the process table,
    /// and the answer is its id together with its exit code.
    pub fn waitpid(&mut self, pid: isize) -> (answer: (isize, Option<i32>))
        requires
            old(self).wf(),
            old(self).current() is Some,
        ensures
            final(self).wf(),
            final(self).evolves_from(old(self)),
            final(self).ready() == old(self).ready(),
            final(self).current() == old(self).current(),
            is_wait(*old(self), pid, answer, *final(self)),
    {
        let cur = match self.current_task {
            Some(c) => c,
            None => 0,
        };
        let count = match &self.tasks[cur] {
            Some(t) => t.children.len(),
            None => 0,
        };
        let ghost kids = self.tcb(cur as int).children@;
        let mut asked: bool = false;
        let mut k: usize = 0;
        while k < count
            invariant
                *self == *old(self),
                self.wf(),
                self.live(cur as int),
                kids == self.tcb(cur as int).children@,
                count == kids.len(),
                k <= count,
                asked == exists|j: int| 0 <= j < k && wanted(pid, #[trigger] kids[j]),
            decreases count - k,
        {
            let child = match &self.tasks[cur] {
                Some(t) => t.children[k],
                None => 0,
            };
            if pid == -1 || (pid >= 0 && pid as usize == child) {
                asked = true;
            }
            k += 1;
        }
        if !asked {
            return (-1, None);
        }
        let mut idx: usize = 0;
        while idx < count && !self.child_reapable(cur, idx, pid)
            invariant
                *self == *old(self),
                self.wf(),
                self.live(cur as int),
                kids == self.tcb(cur as int).children@,
                count == kids.len(),
                idx <= count,
                forall|j: int| 0 <= j < idx ==> !reapable(self.tasks(), pid, #[trigger] kids[j]),
            decreases count - idx,
        {
            idx += 1;
        }
        if idx >= count {
            return (-2, None);
        }
        assert(first_reapable(self.tasks(), kids, pid, idx as int));
        assert(live_in(self.tasks(), self.tasks()[cur as int].unwrap().children@[idx as int] as int));
        let child = match &mut self.tasks[cur] {
            Some(t) => t.children.remove(idx),
            None => 0,
        };
        let exit_code = match &self.tasks[child] {
            Some(c) => c.exit_code,
            None => 0,
        };
        self.tasks[child] = None;
        proof {
            let before = old(self).tasks();
            let after = self.tasks();
            assert(child == kids[idx as int]);
            assert(child != cur);
            assert(after[cur as int].unwrap().children@ == kids.remove(idx as int));
            let left = after[cur as int].unwrap().children@;
            assert forall|j: int| 0 <= j < left.len() implies left[j] != child && exists|i: int|
                0 <= i < kids.len() && kids[i] == #[trigger] left[j] by {
                if j < idx {
                    assert(left[j] == kids[j]);
                } else {
                    assert(left[j] == kids[j + 1]);
                }
            }
            assert forall|a: int, b: int| 0 <= a < b < left.len() implies left[a] != left[b] by {
                let a0 = if a < idx { a } else { a + 1 };
                let b0 = if b < idx { b } else { b + 1 };
                assert(left[a] == kids[a0] && left[b] == kids[b0]);
            }
            assert(table_wf(after));
            assert forall|j: int| 0 <= j < self.ready().len() implies live_in(after, #[trigger] self.ready()[j] as int)
                && after[self.ready()[j] as int].unwrap().task_status == TaskStatus::Ready by {
                assert(live_in(before, old(self).ready()[j] as int));
            }
            assert forall|a: int, b: int| 0 <= a < b < self.ready().len() implies after[self.ready()[a] as int].unwrap().priority
                <= after[self.ready()[b] as int].unwrap().priority by {
                assert(live_in(before, old(self).ready()[a] as int));
                assert(live_in(before, old(self).ready()[b] as int));
            }
            assert(queue_wf(after, self.ready()));
            assert(current_wf(after, self.current()));
            assert forall|q: int, j: int|
                0 <= q < after.len() && after[q] is Some && 0 <= j < after[q].unwrap().children@.len() implies live_in(
                after,
                #[trigger] after[q].unwrap().children@[j] as int,
            ) && after[after[q].unwrap().children@[j] as int].unwrap().parent == Some(q as usize) by {
                if q == cur {
                    let i = choose|i: int| 0 <= i < kids.len() && kids[i] == left[j];
                    assert(live_in(before, before[cur as int].unwrap().children@[i] as int));
                } else {
                    let c = before[q].unwrap().children@[j];
                    assert(live_in(before, c as int));
                    assert(before[c as int].unwrap().parent == Some(q as usize));
                }
            }
            assert(family_wf(after));
            assert(evolves(before, after));
        }
        (child as isize, Some(exit_code))
    }

    /// Moves the program break of the running task by `size` bytes and
    /// returns the old break. Nothing changes, and `None` is returned, where
    /// the new break would lie below the start of the heap or beyond what a
    /// signed machine word holds, where no area starts at the page of the heap's start,
    /// or where the heap would run into another mapped area.
    pub fn change_current_program_brk(&mut self, size: i32) -> (old_brk: Option<usize>)
        requires
            old(self).wf(),
            old(self).current() is Some,
        ensures
            final(self).wf(),
            final(self).evolves_from(old(self)),
            final(self).ready() == old(self).ready(),
            final(self).current() == old(self).current(),
            is_brk_change(*old(self), size, old_brk, *final(self)),
    {
        let cur = match self.current_task {
            Some(c) => c,
            None => 0,
        };
        let (brk, bottom) = match &self.tasks[cur] {
            Some(t) => (t.program_brk, t.heap_bottom),
            None => (0, 0),
        };
        let new_brk: usize = if size < 0 {
            let back: usize = (-(size as i64)) as usize;
            if brk - bottom < back {
                return None;
            }
            brk - back
        } else {
            let more: usize = size as usize;
            if isize::MAX as usize - brk < more {
                return None;
            }
            brk + more
        };
        let moved = match &mut self.tasks[cur] {
            Some(t) => {
                let resized = t.memory_set.resize_area(page_floor(bottom), page_ceil(new_brk));
                if resized.is_some() {
                    t.program_brk = new_brk;
                }
                resized
            },
            None => None,
        };
        proof {
            let t = old(self).tcb(cur as int);
            let start = spec_page_floor(t.heap_bottom as int);
            let end = spec_page_ceil(new_brk as int);
            assert(start <= end);
            if moved is Some {
                let at = moved.unwrap() as int;
                assert(heap_fits(t.memory_set@, start, end, at));
                assert forall|idx: int| #[trigger] heap_fits(t.memory_set@, start, end, idx) implies idx == at by {
                    assert(t.memory_set@[idx].start_vpn == start);
                    assert(t.memory_set@[at].start_vpn == start);
                }
            } else {
                assert(self.tasks() =~= old(self).tasks());
                assert forall|idx: int| !#[trigger] heap_fits(t.memory_set@, start, end, idx) by {
                    if first_at(t.memory_set@, start, idx) {
                    }
                }
            }
        }
        if moved.is_some() {
            Some(brk)
        } else {
            None
        }
    }

    /// Sets the scheduling key of the running task and returns the old one.
    /// A key below the smallest one is refused: nothing changes, and `None`
    /// is returned.
    pub fn set_current_priority(&mut self, prio: isize) -> (old_prio: Option<isize>)
        requires
            old(self).wf(),
            old(self).current() is Some,
        ensures
            final(self).wf(),
            final(self).evolves_from(old(self)),
            final(self).ready() == old(self).ready(),
            final(self).current() == old(self).current(),
            prio < MIN_PRIORITY ==> old_prio is None && final(self).tasks() == old(self).tasks(),
            prio >= MIN_PRIORITY ==> old_prio == Some(old(self).tcb(old(self).current().unwrap() as int).priority)
                && final(self).tasks() == old(self).tasks().update(
                old(self).current().unwrap() as int,
                Some((TaskControlBlock { priority: prio, ..old(self).tcb(old(self).current().unwrap() as int) })),
            ),
    {
        if prio < MIN_PRIORITY {
            return None;
        }
        let cur = match self.current_task {
            Some(c) => c,
            None => 0,
        };
        proof {
            assert forall|k: int| 0 <= k < self.ready().len() implies #[trigger] self.ready()[k] != cur by {}
        }
        match &mut self.tasks[cur] {
            Some(t) => {
                let old_prio = t.priority;
                t.priority = prio;
                Some(old_prio)
            },
            None => None,
        }
    }


    /// The address space of the running task.
    pub fn current_memory_set(&self) -> (ms: &MemorySet)
        requires
            self.wf(),
            self.current() is Some,
        ensures
            *ms == self.tcb(self.current().unwrap() as int).memory_set,
    {
        match &self.tasks[self.current_task.unwrap()] {
            Some(t) => &t.memory_set,
            None => vstd::pervasive::unreached(),
        }
    }
}

/// Whether a wait for `pid` asks for the child with id `child`.
pub open spec fn wanted(pid: isize, child: usize) -> bool {
    pid == -1 || pid == child as int
}

/// Whether a wait for `pid` can reap the child with id `child`.
pub open spec fn reapable(tasks: Seq<Option<TaskControlBlock>>, pid: isize, child: usize) -> bool {
    wanted(pid, child) && tasks[child as int].unwrap().task_status == TaskStatus::Zombie
}

/// Whether `idx` is the first of the children `kids` that a wait for `pid`
/// can reap.
pub open spec fn first_reapable(tasks: Seq<Option<TaskControlBlock>>, kids: Seq<usize>, pid: isize, idx: int) -> bool {
    &&& 0 <= idx < kids.len()
    &&& reapable(tasks, pid, kids[idx])
    &&& forall|j: int| 0 <= j < idx ==> !reapable(tasks, pid, #[trigger] kids[j])
}

/// Whether `after` and `answer` are what a wait for `pid` by the running task
/// of `before` gives.
pub open spec fn is_wait(before: TaskManager, pid: isize, answer: (isize, Option<i32>), after: TaskManager) -> bool {
    let cur = before.current().unwrap() as int;
    let kids = before.tcb(cur).children@;
    if forall|k: int| 0 <= k < kids.len() ==> !wanted(pid, #[trigger] kids[k]) {
        answer == (-1isize, None::<i32>) && after.tasks() == before.tasks()
    } else if forall|k: int| 0 <= k < kids.len() ==> !reapable(before.tasks(), pid, #[trigger] kids[k]) {
        answer == (-2isize, None::<i32>) && after.tasks() == before.tasks()
    } else {
        forall|idx: int| #[trigger]
            first_reapable(before.tasks(), kids, pid, idx) ==> {
                &&& answer == (kids[idx] as isize, Some(before.tcb(kids[idx] as int).exit_code))
                &&& after.tasks() == before.tasks().update(
                    cur,
                    Some(with_children(before.tcb(cur), after.tcb(cur).children)),
                ).update(kids[idx] as int, None)
                &&& after.tcb(cur).children@ == kids.remove(idx)
            }
    }
}

/// Whether `after` differs from `before` at most in the address space of
/// the running task.
pub open spec fn is_remap(before: TaskManager, after: TaskManager) -> bool {
    let cur = before.current().unwrap() as int;
    after.tasks() == before.tasks().update(
        cur,
        Some((TaskControlBlock { memory_set: after.tcb(cur).memory_set, ..before.tcb(cur) })),
    )
}

/// Whether area `idx` is the heap, the first area that starts at page
/// `start`, and can end at page `end` without meeting another area.
pub open spec fn heap_fits(areas: Seq<MapArea>, start: int, end: int, idx: int) -> bool {
    first_at(areas, start, idx) && room_for(areas, idx, start, later(areas[idx].end_vpn as int, end))
}

/// Whether `after` and `old_brk` are what moving the program break of the
/// running task of `before` by `size` bytes gives.
pub open spec fn is_brk_change(before: TaskManager, size: i32, old_brk: Option<usize>, after: TaskManager) -> bool {
    let cur = before.current().unwrap() as int;
    let t = before.tcb(cur);
    let new_brk = t.program_brk + size;
    let start = spec_page_floor(t.heap_bottom as int);
    let end = spec_page_ceil(new_brk);
    if t.heap_bottom <= new_brk <= isize::MAX && exists|idx: int| #[trigger] heap_fits(t.memory_set@, start, end, idx) {
        &&& old_brk == Some(t.program_brk)
        &&& after.tasks() == before.tasks().update(
            cur,
            Some(
                (TaskControlBlock {
                    memory_set: after.tcb(cur).memory_set,
                    program_brk: new_brk as usize,
                    ..t
                }),
            ),
        )
        &&& forall|idx: int| #[trigger]
            heap_fits(t.memory_set@, start, end, idx) ==> after.tcb(cur).memory_set@ == t.memory_set@.update(
                idx,
                (MapArea { start_vpn: start as usize, end_vpn: end as usize, perm: t.memory_set@[idx].perm }),
            )
    } else {
        old_brk is None && after.tasks() == before.tasks()
    }
}

/// The number of calls counted for system call `id`: none where the map
/// has no entry for it.
pub open spec fn calls(counts: Map<usize, u32>, id: usize) -> u32 {
    if counts.contains_key(id) {
        counts[id]
    } else {
        0
    }
}

/// Whether `after` is `before` with one more call of system call
/// `syscall_id` counted for the running task.
pub open spec fn is_count(before: TaskManager, syscall_id: usize, after: TaskManager) -> bool {
    let cur = before.current().unwrap() as int;
    let t = before.tcb(cur);
    if syscall_id < MAX_SYSCALL_NUM && calls(t.syscall_count@, syscall_id) < u32::MAX {
        &&& after.tasks() == before.tasks().update(
            cur,
            Some((TaskControlBlock { syscall_count: after.tcb(cur).syscall_count, ..t })),
        )
        &&& after.tcb(cur).syscall_count@ == t.syscall_count@.insert(
            syscall_id,
            (calls(t.syscall_count@, syscall_id) + 1) as u32,
        )
    } else {
        after.tasks() == before.tasks()
    }
}

impl TaskControlBlock {
    /// The control block of a new task that runs a loaded image.
    pub fn new(pid: usize, image: ProgramImage, parent: Option<usize>) -> (task: TaskControlBlock)
        ensures
            is_fresh(task, pid, image, parent),
    {
        TaskControlBlock {
            pid,
            task_status: TaskStatus::Ready,
            trap_cx: TrapContext { sepc: image.entry_point, sp: image.user_sp, a0: 0 },
            heap_bottom: image.user_sp,
            program_brk: image.user_sp,
            memory_set: image.memory_set,
            parent,
            children: Vec::new(),
            exit_code: 0,
            first_schedule_time: FirstScheduleTime::Undefined,
            syscall_count: BTreeMap::new(),
            priority: DEFAULT_PRIORITY,
        }
    }
}

/// Whether `task` is the control block of a new task with id `pid` and the
/// given parent that runs `image`: ready, never dispatched, without
/// children, with the default priority and an empty heap above its stack.
pub open spec fn is_fresh(task: TaskControlBlock, pid: usize, image: ProgramImage, parent: Option<usize>) -> bool {
    &&& task.pid == pid
    &&& task.task_status == TaskStatus::Ready
    &&& task.trap_cx == (TrapContext { sepc: image.entry_point, sp: image.user_sp, a0: 0 })
    &&& task.memory_set == image.memory_set
    &&& task.parent == parent
    &&& task.children@ == Seq::<usize>::empty()
    &&& task.exit_code == 0
    &&& task.first_schedule_time == FirstScheduleTime::Undefined
    &&& task.syscall_count@ == Map::<usize, u32>::empty()
    &&& task.priority == DEFAULT_PRIORITY
    &&& task.heap_bottom == image.user_sp
    &&& task.program_brk == image.user_sp
}

/// Whether `child` is the control block of a task with id `pid` forked from
/// the task with control block `parent`.
pub open spec fn is_fork_child(child: TaskControlBlock, parent: TaskControlBlock, pid: usize) -> bool {
    &&& child.pid == pid
    &&& child.task_status == TaskStatus::Ready
    &&& child.trap_cx == (TrapContext { a0: 0, ..parent.trap_cx })
    &&& child.memory_set@ == parent.memory_set@
    &&& child.parent == Some(parent.pid)
    &&& child.children@ == Seq::<usize>::empty()
    &&& child.exit_code == 0
    &&& child.first_schedule_time == FirstScheduleTime::Undefined
    &&& child.syscall_count@ == Map::<usize, u32>::empty()
    &&& child.priority == parent.priority
    &&& child.heap_bottom == parent.heap_bottom
    &&& child.program_brk == parent.program_brk
}

/// A control block with another list of children.
pub open spec fn with_children(t: TaskControlBlock, children: Vec<usize>) -> TaskControlBlock {
    TaskControlBlock { children, ..t }
}

/// Whether `after` is `before` with one new task, `table` being the process
/// table once the task is entered and before it is queued.
pub open spec fn birth_through(
    before: TaskManager,
    parent: Option<usize>,
    table: Seq<Option<TaskControlBlock>>,
    after: TaskManager,
) -> bool {
    let pid = before.tasks().len() as int;
    &&& after.tasks() == table
    &&& table.len() == pid + 1
    &&& table[pid] is Some
    &&& forall|q: int| 0 <= q < pid && Some(q as usize) != parent ==> #[trigger] table[q] == before.tasks()[q]
    &&& parent is Some ==> {
        let p = parent.unwrap() as int;
        &&& table[p] is Some
        &&& table[p].unwrap() == with_children(before.tcb(p), table[p].unwrap().children)
        &&& table[p].unwrap().children@ == before.tcb(p).children@.push(pid as usize)
    }
    &&& after.current() == before.current()
    &&& is_enqueue(table, before.ready(), pid as usize, after.ready())
}

/// Whether `after` is `before` with one new task: it has the next free id,
/// its parent lists it as its last child, it is queued, and nothing else
/// has changed.
pub open spec fn is_birth(before: TaskManager, parent: Option<usize>, after: TaskManager) -> bool {
    birth_through(before, parent, after.tasks(), after)
}

/// A control block once its task has been dispatched at time `now_ms`.
pub open spec fn dispatched(t: TaskControlBlock, now_ms: usize) -> TaskControlBlock {
    TaskControlBlock {
        task_status: TaskStatus::Running,
        first_schedule_time: if t.first_schedule_time == FirstScheduleTime::Undefined {
            FirstScheduleTime::Ms(now_ms)
        } else {
            t.first_schedule_time
        },
        ..t
    }
}

/// A control block once its task has left the core with status `status`.
pub open spec fn parked(t: TaskControlBlock, status: TaskStatus, exit_code: i32) -> TaskControlBlock {
    TaskControlBlock {
        task_status: status,
        exit_code: if status == TaskStatus::Zombie {
            exit_code
        } else {
            t.exit_code
        },
        ..t
    }
}

/// Whether `after` is `before` once the running task has left the core with
/// status `status`, `queue` being the ready queue at the moment between its
/// leaving and the dispatch of the next task.
pub open spec fn switch_through(
    before: TaskManager,
    status: TaskStatus,
    exit_code: i32,
    now_ms: usize,
    queue: Seq<usize>,
    after: TaskManager,
) -> bool {
    let cur = before.current().unwrap();
    let parked_tasks = before.tasks().update(cur as int, Some(parked(before.tcb(cur as int), status, exit_code)));
    &&& if status == TaskStatus::Ready {
        is_enqueue(parked_tasks, before.ready(), cur, queue)
    } else {
        queue == before.ready()
    }
    &&& queue.len() > 0
    &&& after.current() == Some(queue[0])
    &&& after.ready() == queue.drop_first()
    &&& after.tasks() == parked_tasks.update(
        queue[0] as int,
        Some(dispatched(parked_tasks[queue[0] as int].unwrap(), now_ms)),
    )
}

/// Whether `after` is `before` once the running task has left the core with
/// status `status` and the head of the ready queue has been dispatched.
pub open spec fn is_switch(
    before: TaskManager,
    status: TaskStatus,
    exit_code: i32,
    now_ms: usize,
    after: TaskManager,
) -> bool {
    exists|queue: Seq<usize>| #[trigger] switch_through(before, status, exit_code, now_ms, queue, after)
}

/// Dispatches the first task: takes the head of the ready queue, marks it
/// `Running`, records the time of its first dispatch and makes it the
/// running task. Returns its id. To find no task ready is fatal: some task
/// must be ready.
pub fn run_first_task(tm: &mut TaskManager, now_ms: usize) -> (next: usize)
    requires
        old(tm).wf(),
        old(tm).current() is None,
        old(tm).ready().len() > 0,
    ensures
        final(tm).wf(),
        final(tm).evolves_from(old(tm)),
        final(tm).current() == Some(next),
        next == old(tm).ready()[0],
        final(tm).ready() == old(tm).ready().drop_first(),
        final(tm).tasks() == old(tm).tasks().update(
            next as int,
            Some(dispatched(old(tm).tcb(next as int), now_ms)),
        ),
{
    tm.run_next_task(now_ms)
}

/// Takes the running task off the core, queues it again as `Ready` and
/// dispatches the head of the ready queue, which may be the same task.
/// Returns the id of the task that runs now.
pub fn suspend_current_and_run_next(tm: &mut TaskManager, now_ms: usize) -> (next: usize)
    requires
        old(tm).wf(),
        old(tm).current() is Some,
    ensures
        final(tm).wf(),
        final(tm).evolves_from(old(tm)),
        final(tm).current() == Some(next),
        is_switch(*old(tm), TaskStatus::Ready, 0, now_ms, *final(tm)),
{
    tm.switch(TaskStatus::Ready, 0, now_ms)
}

/// Makes the running task a zombie with the given exit code and
/// dispatches the head of the ready queue. Returns the id of the task
/// that runs now. To find no task ready is fatal: some task must be ready.
pub fn exit_current_and_run_next(tm: &mut TaskManager, exit_code: i32, now_ms: usize) -> (next: usize)
    requires
        old(tm).wf(),
        old(tm).current() is Some,
        old(tm).ready().len() > 0,
    ensures
        final(tm).wf(),
        final(tm).evolves_from(old(tm)),
        final(tm).current() == Some(next),
        is_switch(*old(tm), TaskStatus::Zombie, exit_code, now_ms, *final(tm)),
{
    tm.switch(TaskStatus::Zombie, exit_code, now_ms)
}

/// Counts one more call of system call `syscall_id` by the running task.
/// An id that is not below the number of system calls is not counted, and
/// a count that has reached the largest `u32` stays there.
pub fn inc_syscall_count(tm: &mut TaskManager, syscall_id: usize)
    requires
        old(tm).wf(),
        old(tm).current() is Some,
    ensures
        final(tm).wf(),
        final(tm).evolves_from(old(tm)),
        final(tm).ready() == old(tm).ready(),
        final(tm).current() == old(tm).current(),
        is_count(*old(tm), syscall_id, *final(tm)),
{
    let cur = match tm.current_task {
        Some(c) => c,
        None => 0,
    };
    if syscall_id < MAX_SYSCALL_NUM {
        let n: u32 = match &tm.tasks[cur] {
            Some(t) => match t.syscall_count.get(&syscall_id) {
                Some(n) => *n,
                None => 0,
            },
            None => u32::MAX,
        };
        if n < u32::MAX {
            match &mut tm.tasks[cur] {
                Some(t) => {
                    t.syscall_count.insert(syscall_id, n + 1);
                },
                None => {},
            }
        }
    }
}

/// The trap frame of the running task.
pub fn current_trap_cx(tm: &TaskManager) -> (cx: TrapContext)
    requires
        tm.wf(),
        tm.current() is Some,
    ensures
        cx == tm.tcb(tm.current().unwrap() as int).trap_cx,
{
    match tm.current_task {
        Some(c) => match &tm.tasks[c] {
            Some(t) => t.trap_cx,
            None => TrapContext { sepc: 0, sp: 0, a0: 0 },
        },
        None => TrapContext { sepc: 0, sp: 0, a0: 0 },
    }
}

/// The address space of the running task, to be changed in place. The
/// manager stays valid as long as the address space does.
pub fn current_memory_set_mut(tm: &mut TaskManager) -> (ms: &mut MemorySet)
    requires
        old(tm).wf(),
        old(tm).current() is Some,
    ensures
        *ms == old(tm).tcb(old(tm).current().unwrap() as int).memory_set,
        final(tm).ready() == old(tm).ready(),
        final(tm).current() == old(tm).current(),
        final(tm).tasks() == old(tm).tasks().update(
            old(tm).current().unwrap() as int,
            Some(
                (TaskControlBlock { memory_set: *final(ms), ..old(tm).tcb(old(tm).current().unwrap() as int) }),
            ),
        ),
        final(ms).wf() ==> final(tm).wf() && final(tm).evolves_from(old(tm)),
{
    let cur = tm.current_task.unwrap();
    match &mut tm.tasks[cur] {
        Some(t) => &mut t.memory_set,
        None => vstd::pervasive::unreached(),
    }
}

/// What a task learns about itself.
pub struct TaskInfo {
    /// Task status in its life cycle
    pub status: TaskStatus,
    /// The number of calls of each system call, by id
    pub syscall_times: [u32; MAX_SYSCALL_NUM],
    /// Milliseconds since the task was first dispatched
    pub time: usize,
}

/// The status, the system-call counts and the running time of the running
/// task at time `now_ms`, which is not before its first dispatch.
pub fn get_task_info(tm: &TaskManager, now_ms: usize) -> (info: TaskInfo)
    requires
        tm.wf(),
        tm.current() is Some,
        match tm.tcb(tm.current().unwrap() as int).first_schedule_time {
            FirstScheduleTime::Ms(first) => first <= now_ms,
            FirstScheduleTime::Undefined => true,
        },
    ensures
        info.status == TaskStatus::Running,
        info.syscall_times@ == Seq::new(
            MAX_SYSCALL_NUM as nat,
            |id: int| calls(tm.tcb(tm.current().unwrap() as int).syscall_count@, id as usize),
        ),
        tm.tcb(tm.current().unwrap() as int).first_schedule_time == FirstScheduleTime::Ms(
            (now_ms - info.time) as usize,
        ),
        info.time <= now_ms,
{
    let cur = match tm.current_task {
        Some(c) => c,
        None => 0,
    };
    match &tm.tasks[cur] {
        Some(t) => {
            let mut counts: [u32; MAX_SYSCALL_NUM] = [0u32; MAX_SYSCALL_NUM];
            let mut id: usize = 0;
            while id < MAX_SYSCALL_NUM
                invariant
                    id <= MAX_SYSCALL_NUM,
                    forall|i: int| 0 <= i < id ==> counts@[i] == calls(t.syscall_count@, i as usize),
                decreases MAX_SYSCALL_NUM - id,
            {
                let n: u32 = match t.syscall_count.get(&id) {
                    Some(n) => *n,
                    None => 0,
                };
                counts[id] = n;
                id += 1;
            }
            assert(counts@ =~= Seq::new(MAX_SYSCALL_NUM as nat, |i: int| calls(t.syscall_count@, i as usize)));
            let time: usize = match t.first_schedule_time {
                FirstScheduleTime::Ms(first) => now_ms - first,
                FirstScheduleTime::Undefined => 0,
            };
            TaskInfo { status: TaskStatus::Running, syscall_times: counts, time }
        },
        None => vstd::pervasive::unreached(),
    }
}

/// Puts a ready task into the ready queue.
pub fn add_task(tm: &mut TaskManager, pid: usize)
    requires
        old(tm).wf(),
        old(tm).live(pid as int),
        old(tm).tcb(pid as int).task_status == TaskStatus::Ready,
        !old(tm).queued(pid as int),
    ensures
        final(tm).wf(),
        final(tm).tasks() == old(tm).tasks(),
        final(tm).current() == old(tm).current(),
        is_enqueue(old(tm).tasks(), old(tm).ready(), pid, final(tm).ready()),
{
    tm.add(pid)
}

/// Takes the task with the lowest scheduling key out of the ready queue.
pub fn fetch_task(tm: &mut TaskManager) -> (next: Option<usize>)
    requires
        old(tm).wf(),
    ensures
        final(tm).wf(),
        final(tm).tasks() == old(tm).tasks(),
        final(tm).current() == old(tm).current(),
        old(tm).ready().len() == 0 ==> next is None && final(tm).ready() == old(tm).ready(),
        old(tm).ready().len() > 0 ==> next == Some(old(tm).ready()[0]) && final(tm).ready() == old(tm).ready().drop_first(),
        next is Some ==> !final(tm).queued(next.unwrap() as int) && final(tm).current() != next,
{
    tm.fetch()
}

/// The task that `fetch_task` would take, left in the ready queue.
pub fn peek_task(tm: &TaskManager) -> (next: Option<usize>)
    ensures
        tm.ready().len() == 0 ==> next is None,
        tm.ready().len() > 0 ==> next == Some(tm.ready()[0]),
{
    tm.peek()
}

/// Moves the program break of the running task by `size` bytes and returns
/// the old break, or `None` where the break cannot move so.
pub fn change_program_brk(tm: &mut TaskManager, size: i32) -> (old_brk: Option<usize>)
    requires
        old(tm).wf(),
        old(tm).current() is Some,
    ensures
        final(tm).wf(),
        final(tm).evolves_from(old(tm)),
        final(tm).ready() == old(tm).ready(),
        final(tm).current() == old(tm).current(),
        is_brk_change(*old(tm), size, old_brk, *final(tm)),
{
    tm.change_current_program_brk(size)
}

/// The tasks that `n` calls of `fetch` in a row return from the ready queue
/// `ready`, in that order: each call returns the head, and leaves the rest.
pub open spec fn fetched(ready: Seq<usize>, n: nat) -> Seq<usize>
    decreases n,
{
    if n == 0 || ready.len() == 0 {
        Seq::empty()
    } else {
        seq![ready[0]] + fetched(ready.drop_first(), (n - 1) as nat)
    }
}

/// Repeated fetching returns the ready queue from its head.
pub proof fn lemma_fetched_is_prefix(ready: Seq<usize>, n: nat)
    ensures
        fetched(ready, n) == ready.take(if n <= ready.len() { n as int } else { ready.len() as int }),
    decreases n,
{
    let m: int = if n <= ready.len() { n as int } else { ready.len() as int };
    if n == 0 || ready.len() == 0 {
        assert(fetched(ready, n) =~= ready.take(m));
    } else {
        lemma_fetched_is_prefix(ready.drop_first(), (n - 1) as nat);
        assert(fetched(ready, n) =~= ready.take(m));
    }
}

/// Tasks come out of the ready queue by rising scheduling key: whatever the
/// order in which the tasks were queued, of any two tasks that repeated
/// fetching returns the earlier one has the lower key or the same, and no
/// task is returned twice.
pub proof fn lemma_fetch_order(tm: TaskManager, n: nat, i: int, j: int)
    requires
        tm.wf(),
        0 <= i < j < fetched(tm.ready(), n).len(),
    ensures
        tm.tcb(fetched(tm.ready(), n)[i] as int).priority <= tm.tcb(fetched(tm.ready(), n)[j] as int).priority,
        fetched(tm.ready(), n)[i] != fetched(tm.ready(), n)[j],
{
    lemma_fetched_is_prefix(tm.ready(), n);
}

/// At most one task runs: a task with status `Running` is the running task
/// of the manager, and it does not wait in the ready queue.
pub proof fn lemma_single_running(tm: TaskManager, a: int, b: int)
    requires
        tm.wf(),
        tm.live(a),
        tm.live(b),
        tm.tcb(a).task_status == TaskStatus::Running,
        tm.tcb(b).task_status == TaskStatus::Running,
    ensures
        a == b,
        tm.current() == Some(a as usize),
        !tm.queued(a),
{
    if tm.queued(a) {
        let k = choose|k: int| 0 <= k < tm.ready().len() && tm.ready()[k] == a as usize;
        assert(tm.live(tm.ready()[k] as int));
    }
}

/// A zombie stays a zombie until it is reaped: no step of the kernel gives
/// it another status.
pub proof fn lemma_zombie_is_final(before: TaskManager, after: TaskManager, pid: int)
    requires
        after.evolves_from(&before),
        before.live(pid),
        before.tcb(pid).task_status == TaskStatus::Zombie,
    ensures
        after.live(pid) ==> after.tcb(pid).task_status == TaskStatus::Zombie,
{
}

} // verus!
