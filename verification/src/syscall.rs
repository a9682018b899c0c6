//! Process management system calls.
//!
//! Every call acts on the running task of the task manager it is given. A
//! result that the kernel writes through a pointer of the caller is returned
//! beside the call's answer, for the caller to copy out.
use vstd::prelude::*;
use crate::config::PAGE_SIZE;
use crate::mm::{page_ceil, page_floor, spec_page_ceil, spec_page_floor, PERM_R, PERM_U, PERM_W, PERM_X};
use crate::task::{
    calls, current_memory_set_mut, exit_current_and_run_next, get_task_info, is_birth, is_brk_change, is_fork_child, is_fresh, is_remap,
    is_switch, is_wait, suspend_current_and_run_next, FirstScheduleTime, ProgramImage, TaskControlBlock,
    TaskInfo, TaskManager, TaskStatus, TrapContext, MIN_PRIORITY,
};
use crate::config::{MAX_SYSCALL_NUM, MAX_TASKS};

verus! {

/// A point in time, as seconds and microseconds.
#[derive(Copy, Clone, Debug, PartialEq, Eq, Structural)]
pub struct TimeVal {
    pub sec: usize,
    pub usec: usize,
}

/// Ends the running task with the given exit code and dispatches the next
/// one. Returns the id of the task that runs now. To find no task ready is
/// fatal: some task must be ready.
pub fn sys_exit(tm: &mut TaskManager, exit_code: i32, now_ms: usize) -> (next: usize)
    requires
        old(tm).wf(),
        old(tm).current() is Some,
        old(tm).ready().len() > 0,
    ensures
        final(tm).wf(),
        final(tm).evolves_from(old(tm)),
        final(tm).current() == Some(next),
        is_switch(*old(tm), TaskStatus::Zombie, exit_code, now_ms, *final(tm)),
{
    exit_current_and_run_next(tm, exit_code, now_ms)
}

/// Gives up the core: the running task is queued again and the next task
/// is dispatched. The answer is 0.
pub fn sys_yield(tm: &mut TaskManager, now_ms: usize) -> (answer: isize)
    requires
        old(tm).wf(),
        old(tm).current() is Some,
    ensures
        answer == 0,
        final(tm).wf(),
        final(tm).evolves_from(old(tm)),
        final(tm).current() is Some,
        is_switch(*old(tm), TaskStatus::Ready, 0, now_ms, *final(tm)),
{
    let _ = suspend_current_and_run_next(tm, now_ms);
    0
}

/// The id of the running task.
pub fn sys_getpid(tm: &TaskManager) -> (pid: isize)
    requires
        tm.wf(),
        tm.current() is Some,
    ensures
        pid == tm.current().unwrap(),
{
    match tm.current_pid() {
        Some(pid) => pid as isize,
        None => -1,
    }
}

/// Forks the running task. The answer, which the parent receives, is the
/// id of the child; the child's return register holds 0. Where all process
/// ids are used up the answer is -1 and nothing changes.
pub fn sys_fork(tm: &mut TaskManager) -> (answer: isize)
    requires
        old(tm).wf(),
        old(tm).current() is Some,
    ensures
        final(tm).wf(),
        final(tm).evolves_from(old(tm)),
        old(tm).tasks().len() >= MAX_TASKS ==> answer == -1 && final(tm).tasks() == old(tm).tasks() && final(tm).ready() == old(tm).ready() && final(tm).current() == old(tm).current(),
        answer != old(tm).current().unwrap(),
        old(tm).tasks().len() < MAX_TASKS ==> answer == old(tm).tasks().len() && is_birth(
            *old(tm),
            old(tm).current(),
            *final(tm),
        ) && is_fork_child(
            final(tm).tcb(answer as int),
            old(tm).tcb(old(tm).current().unwrap() as int),
            answer as usize,
        ),
{
    match tm.fork() {
        Some(pid) => pid as isize,
        None => -1,
    }
}

/// Replaces the program of the running task by the image that was loaded
/// for it. The answer is 0, or -1 where no image could be loaded, in which
/// case nothing changes.
pub fn sys_exec(tm: &mut TaskManager, image: Option<ProgramImage>) -> (answer: isize)
    requires
        old(tm).wf(),
        old(tm).current() is Some,
        image is Some ==> image.unwrap().wf(),
    ensures
        final(tm).wf(),
        final(tm).evolves_from(old(tm)),
        final(tm).ready() == old(tm).ready(),
        final(tm).current() == old(tm).current(),
        image is None ==> answer == -1 && final(tm).tasks() == old(tm).tasks(),
        image is Some ==> answer == 0 && final(tm).tasks() == old(tm).tasks().update(
            old(tm).current().unwrap() as int,
            Some(
                (TaskControlBlock {
                    memory_set: image.unwrap().memory_set,
                    trap_cx: TrapContext { sepc: image.unwrap().entry_point, sp: image.unwrap().user_sp, a0: 0 },
                    heap_bottom: image.unwrap().user_sp,
                    program_brk: image.unwrap().user_sp,
                    ..old(tm).tcb(old(tm).current().unwrap() as int)
                }),
            ),
        ),
{
    match image {
        Some(image) => {
            tm.exec(image);
            0
        },
        None => -1,
    }
}

/// Waits for a child of the running task: any child where `pid` is -1, else
/// the child with id `pid`. The answer is -1 where there is no such child,
/// -2 where none of them has exited yet, and else the id of the first such
/// child that has, which is reaped; its exit code comes with the answer.
pub fn sys_waitpid(tm: &mut TaskManager, pid: isize) -> (answer: (isize, Option<i32>))
    requires
        old(tm).wf(),
        old(tm).current() is Some,
    ensures
        final(tm).wf(),
        final(tm).evolves_from(old(tm)),
        final(tm).ready() == old(tm).ready(),
        final(tm).current() == old(tm).current(),
        is_wait(*old(tm), pid, answer, *final(tm)),
{
    tm.waitpid(pid)
}

/// The time of a clock that shows `us` microseconds, in seconds and
/// microseconds.
pub fn sys_get_time(us: usize) -> (time: TimeVal)
    ensures
        time.sec == us / 1_000_000,
        time.usec == us % 1_000_000,
{
    TimeVal { sec: us / 1_000_000, usec: us % 1_000_000 }
}

/// The status, the system-call counts and the running time of the running
/// task at time `now_ms`, which is not before its first dispatch.
pub fn sys_task_info(tm: &TaskManager, now_ms: usize) -> (info: TaskInfo)
    requires
        tm.wf(),
        tm.current() is Some,
        match tm.tcb(tm.current().unwrap() as int).first_schedule_time {
            FirstScheduleTime::Ms(first) => first <= now_ms,
            FirstScheduleTime::Undefined => true,
        },
    ensures
        info.status == TaskStatus::Running,
        info.syscall_times@ == Seq::new(
            MAX_SYSCALL_NUM as nat,
            |id: int| calls(tm.tcb(tm.current().unwrap() as int).syscall_count@, id as usize),
        ),
        tm.tcb(tm.current().unwrap() as int).first_schedule_time == FirstScheduleTime::Ms(
            (now_ms - info.time) as usize,
        ),
        info.time <= now_ms,
{
    get_task_info(tm, now_ms)
}

/// Whether a mapping may start at address `start` with the permission mask
/// `port`: the address is page-aligned, and the mask has at least one of its
/// three lowest bits set and no other.
pub open spec fn valid_mmap_params(start: usize, port: usize) -> bool {
    start as int % PAGE_SIZE as int == 0 && 1 <= port <= 7
}

/// The permissions of a user mapping asked for with the mask `port`: bit 0
/// asks for reading, bit 1 for writing, bit 2 for executing.
pub open spec fn map_permission(port: usize) -> u8 {
    (PERM_U + if port % 2 == 1 {
        PERM_R as int
    } else {
        0
    } + if (port / 2) % 2 == 1 {
        PERM_W as int
    } else {
        0
    } + if (port / 4) % 2 == 1 {
        PERM_X as int
    } else {
        0
    }) as u8
}

/// Checks the start address and the permission mask of a mapping request.
pub fn validate_mmap_params(start: usize, port: usize) -> (checked: Result<(), isize>)
    ensures
        valid_mmap_params(start, port) ==> checked == Ok::<(), isize>(()),
        !valid_mmap_params(start, port) ==> checked == Err::<(), isize>(-1isize),
{
    if start % PAGE_SIZE != 0 {
        return Err(-1);
    }
    if port > 7 {
        return Err(-1);
    }
    if port == 0 {
        return Err(-1);
    }
    Ok(())
}

/// Whether the running task may map `len` bytes at address `start` with the
/// mask `port` while `free_frames` page frames are free: the parameters are
/// valid, the range ends within the address space, there is a free frame for
/// each of its pages, and none of its pages is mapped.
pub open spec fn can_mmap(tm: TaskManager, start: usize, len: usize, port: usize, free_frames: usize) -> bool {
    &&& valid_mmap_params(start, port)
    &&& start + len <= usize::MAX
    &&& spec_page_ceil(start + len) - spec_page_floor(start as int) <= free_frames
    &&& tm.tcb(tm.current().unwrap() as int).memory_set.none_mapped(
        spec_page_floor(start as int),
        spec_page_ceil(start + len),
    )
}

/// Maps `len` bytes at address `start` into the address space of the
/// running task, for user mode, with the permissions that `port` asks for;
/// `free_frames` is the number of page frames that are free. The answer is
/// 0, or -1 where the request is refused, in which case nothing changes.
/// What has been mapped can be unmapped by the same address and length.
pub fn sys_mmap(tm: &mut TaskManager, start: usize, len: usize, port: usize, free_frames: usize) -> (answer: isize)
    requires
        old(tm).wf(),
        old(tm).current() is Some,
    ensures
        final(tm).wf(),
        final(tm).evolves_from(old(tm)),
        final(tm).ready() == old(tm).ready(),
        final(tm).current() == old(tm).current(),
        is_remap(*old(tm), *final(tm)),
        can_mmap(*old(tm), start, len, port, free_frames) ==> answer == 0 && can_munmap(*final(tm), start, len),
        !can_mmap(*old(tm), start, len, port, free_frames) ==> answer == -1 && final(tm).tasks() == old(tm).tasks(),
        forall|vpn: int|
            final(tm).tcb(old(tm).current().unwrap() as int).memory_set.page(vpn) == if answer == 0
                && spec_page_floor(start as int) <= vpn < spec_page_ceil(start + len) {
                Some(map_permission(port))
            } else {
                old(tm).tcb(old(tm).current().unwrap() as int).memory_set.page(vpn)
            },
{
    proof {
        let cur = tm.current().unwrap() as int;
        assert(tm.tasks() =~= tm.tasks().update(cur, Some(tm.tcb(cur))));
    }
    if let Err(err) = validate_mmap_params(start, port) {
        return err;
    }
    if usize::MAX - start < len {
        return -1;
    }
    let first = page_floor(start);
    let last = page_ceil(start + len);
    if last - first > free_frames {
        return -1;
    }
    let mut permission: u8 = PERM_U;
    if port % 2 == 1 {
        permission = permission + PERM_R;
    }
    if (port / 2) % 2 == 1 {
        permission = permission + PERM_W;
    }
    if (port / 4) % 2 == 1 {
        permission = permission + PERM_X;
    }
    let memory_set = current_memory_set_mut(tm);
    let done = memory_set.insert_framed_area(first, last, permission);
    proof {
        if done {
            let after = tm.tcb(old(tm).current().unwrap() as int).memory_set;
            assert forall|vpn: int| spec_page_floor(start as int) <= vpn < spec_page_ceil(start + len) implies after.is_mapped(
                vpn,
            ) by {
                assert(after.page(vpn) == Some(permission));
            }
        }
    }
    if done {
        0
    } else {
        -1
    }
}

/// Whether the running task may unmap `len` bytes at address `start`: the
/// address is page-aligned, the range ends within the address space, and
/// every one of its pages is mapped.
pub open spec fn can_munmap(tm: TaskManager, start: usize, len: usize) -> bool {
    &&& start as int % PAGE_SIZE as int == 0
    &&& start + len <= usize::MAX
    &&& tm.tcb(tm.current().unwrap() as int).memory_set.all_mapped(
        spec_page_floor(start as int),
        spec_page_ceil(start + len),
    )
}

/// Unmaps `len` bytes at address `start` from the address space of the
/// running task. The answer is 0, or -1 where the request is refused, in
/// which case nothing changes.
pub fn sys_munmap(tm: &mut TaskManager, start: usize, len: usize) -> (answer: isize)
    requires
        old(tm).wf(),
        old(tm).current() is Some,
    ensures
        final(tm).wf(),
        final(tm).evolves_from(old(tm)),
        final(tm).ready() == old(tm).ready(),
        final(tm).current() == old(tm).current(),
        is_remap(*old(tm), *final(tm)),
        can_munmap(*old(tm), start, len) ==> answer == 0,
        !can_munmap(*old(tm), start, len) ==> answer == -1 && final(tm).tasks() == old(tm).tasks(),
        forall|vpn: int|
            final(tm).tcb(old(tm).current().unwrap() as int).memory_set.page(vpn) == if answer == 0
                && spec_page_floor(start as int) <= vpn < spec_page_ceil(start + len) {
                None
            } else {
                old(tm).tcb(old(tm).current().unwrap() as int).memory_set.page(vpn)
            },
{
    proof {
        let cur = tm.current().unwrap() as int;
        assert(tm.tasks() =~= tm.tasks().update(cur, Some(tm.tcb(cur))));
    }
    if start % PAGE_SIZE != 0 {
        return -1;
    }
    if usize::MAX - start < len {
        return -1;
    }
    let memory_set = current_memory_set_mut(tm);
    if memory_set.remove_framed_areas(page_floor(start), page_ceil(start + len)) {
        0
    } else {
        -1
    }
}

/// Moves the program break of the running task by `size` bytes. The answer
/// is the old break, or -1 where the break cannot move so, in which case
/// nothing changes.
pub fn sys_sbrk(tm: &mut TaskManager, size: i32) -> (answer: isize)
    requires
        old(tm).wf(),
        old(tm).current() is Some,
    ensures
        final(tm).wf(),
        final(tm).evolves_from(old(tm)),
        final(tm).ready() == old(tm).ready(),
        final(tm).current() == old(tm).current(),
        exists|old_brk: Option<usize>|
            #[trigger] is_brk_change(*old(tm), size, old_brk, *final(tm)) && answer == match old_brk {
                Some(brk) => brk as int,
                None => -1,
            },
{
    let old_brk = tm.change_current_program_brk(size);
    match old_brk {
        Some(brk) => brk as isize,
        None => -1,
    }
}

/// Creates a child of the running task that runs the image that was loaded
/// for it. The answer is the child's id, or -1 where no image could be loaded
/// or all process ids are used up, in which case nothing changes.
pub fn sys_spawn(tm: &mut TaskManager, image: Option<ProgramImage>) -> (answer: isize)
    requires
        old(tm).wf(),
        old(tm).current() is Some,
        image is Some ==> image.unwrap().wf(),
    ensures
        final(tm).wf(),
        final(tm).evolves_from(old(tm)),
        image is None || old(tm).tasks().len() >= MAX_TASKS ==> answer == -1 && final(tm).tasks() == old(tm).tasks() && final(tm).ready() == old(tm).ready() && final(tm).current() == old(tm).current(),
        image is Some && old(tm).tasks().len() < MAX_TASKS ==> answer == old(tm).tasks().len() && is_birth(
            *old(tm),
            old(tm).current(),
            *final(tm),
        ) && is_fresh(final(tm).tcb(answer as int), answer as usize, image.unwrap(), old(tm).current()),
{
    match image {
        Some(image) => match tm.spawn(image) {
            Some(pid) => pid as isize,
            None => -1,
        },
        None => -1,
    }
}

/// Sets the scheduling key of the running task, where it is not below the
/// smallest key. The answer is the old key, or -1 where the key is refused,
/// in which case nothing changes.
pub fn sys_set_priority(tm: &mut TaskManager, prio: isize) -> (answer: isize)
    requires
        old(tm).wf(),
        old(tm).current() is Some,
    ensures
        final(tm).wf(),
        final(tm).evolves_from(old(tm)),
        final(tm).ready() == old(tm).ready(),
        final(tm).current() == old(tm).current(),
        prio < MIN_PRIORITY ==> answer == -1 && final(tm).tasks() == old(tm).tasks(),
        prio >= MIN_PRIORITY ==> answer == old(tm).tcb(old(tm).current().unwrap() as int).priority && final(tm).tasks() == old(tm).tasks().update(
            old(tm).current().unwrap() as int,
            Some((TaskControlBlock { priority: prio, ..old(tm).tcb(old(tm).current().unwrap() as int) })),
        ),
{
    match tm.set_current_priority(prio) {
        Some(old_prio) => old_prio,
        None => -1,
    }
}

} // verus!
