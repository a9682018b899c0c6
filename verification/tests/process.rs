use taskcore::config::{MAX_SYSCALL_NUM, PAGE_SIZE};
use taskcore::mm::{MemorySet, PERM_R, PERM_U, PERM_W, PERM_X};
use taskcore::syscall::{
    sys_exec, sys_exit, sys_fork, sys_get_time, sys_getpid, sys_mmap, sys_munmap, sys_sbrk, sys_set_priority,
    sys_spawn, sys_task_info, sys_waitpid, sys_yield, validate_mmap_params, TimeVal,
};
use taskcore::task::{
    add_task, change_program_brk, current_trap_cx, exit_current_and_run_next, fetch_task, get_task_info,
    inc_syscall_count, peek_task, run_first_task, suspend_current_and_run_next, FirstScheduleTime, ProgramImage,
    TaskControlBlock, TaskManager, TaskStatus, TrapContext, DEFAULT_PRIORITY,
};

fn image(entry_point: usize) -> ProgramImage {
    // code in pages 0..2, stack in pages 3..5, the empty heap starts at page 5
    let mut memory_set = MemorySet::new();
    assert!(memory_set.insert_framed_area(0, 2, PERM_R | PERM_X | PERM_U));
    assert!(memory_set.insert_framed_area(3, 5, PERM_R | PERM_W | PERM_U));
    assert!(memory_set.insert_framed_area(5, 5, PERM_R | PERM_W | PERM_U));
    ProgramImage { memory_set, entry_point, user_sp: 5 * PAGE_SIZE }
}

fn booted() -> TaskManager {
    let mut tm = TaskManager::new();
    assert_eq!(tm.add_initproc(image(0x100)), Some(0));
    assert_eq!(run_first_task(&mut tm, 10), 0);
    tm
}

fn status(tm: &TaskManager, pid: usize) -> TaskStatus {
    tm.task(pid).unwrap().task_status
}

#[test]
fn a_new_manager_has_nothing_to_run() {
    let mut tm = TaskManager::new();
    assert_eq!(tm.task_count(), 0);
    assert_eq!(tm.ready_count(), 0);
    assert_eq!(tm.current_pid(), None);
    assert_eq!(tm.peek(), None);
    assert_eq!(tm.fetch(), None);
    assert!(tm.task(0).is_none());
}

#[test]
fn a_fresh_task_is_ready_and_runs_at_its_entry() {
    let mut tm = TaskManager::new();
    assert_eq!(tm.add_initproc(image(0x100)), Some(0));
    let t: &TaskControlBlock = tm.task(0).unwrap();
    assert_eq!(t.pid, 0);
    assert_eq!(t.task_status, TaskStatus::Ready);
    assert_eq!(t.trap_cx, TrapContext { sepc: 0x100, sp: 5 * PAGE_SIZE, a0: 0 });
    assert_eq!(t.parent, None);
    assert!(t.children.is_empty());
    assert_eq!(t.first_schedule_time, FirstScheduleTime::Undefined);
    assert!(t.syscall_count.is_empty());
    assert_eq!(t.priority, DEFAULT_PRIORITY);
    assert_eq!(t.heap_bottom, 5 * PAGE_SIZE);
    assert_eq!(t.program_brk, 5 * PAGE_SIZE);
    assert_eq!(tm.ready_count(), 1);
    assert_eq!(peek_task(&tm), Some(0));
    assert_eq!(tm.current_pid(), None);
}

#[test]
fn first_dispatch_marks_running_and_records_the_time() {
    let tm = booted();
    assert_eq!(tm.current_pid(), Some(0));
    assert_eq!(status(&tm, 0), TaskStatus::Running);
    assert_eq!(tm.task(0).unwrap().first_schedule_time, FirstScheduleTime::Ms(10));
    assert_eq!(tm.ready_count(), 0);
    assert_eq!(sys_getpid(&tm), 0);
}

#[test]
fn fork_gives_the_parent_the_child_id_and_the_child_zero() {
    let mut tm = booted();
    assert_eq!(sys_sbrk(&mut tm, 100), (5 * PAGE_SIZE) as isize);
    let child = sys_fork(&mut tm);
    assert_eq!(child, 1);
    assert_eq!(sys_getpid(&tm), 0);
    let c = tm.task(1).unwrap();
    assert_eq!(c.pid, 1);
    assert_eq!(c.trap_cx.a0, 0);
    assert_eq!(c.trap_cx.sepc, 0x100);
    assert_eq!(c.parent, Some(0));
    assert_eq!(c.task_status, TaskStatus::Ready);
    assert_eq!(c.program_brk, 5 * PAGE_SIZE + 100);
    assert_eq!(c.memory_set.area_count(), 3);
    assert_eq!(c.memory_set.translate(5), Some(PERM_R | PERM_W | PERM_U));
    assert_eq!(c.first_schedule_time, FirstScheduleTime::Undefined);
    assert_eq!(tm.task(0).unwrap().children, vec![1]);
    // the child runs next and sees its own id
    assert_eq!(sys_yield(&mut tm, 20), 0);
    assert_eq!(tm.current_pid(), Some(1));
    assert_eq!(sys_getpid(&tm), 1);
    assert_eq!(current_trap_cx(&tm).a0, 0);
    assert_eq!(status(&tm, 0), TaskStatus::Ready);
    assert_eq!(tm.task(1).unwrap().first_schedule_time, FirstScheduleTime::Ms(20));
}

#[test]
fn yield_with_an_empty_queue_runs_the_same_task_again() {
    let mut tm = booted();
    assert_eq!(suspend_current_and_run_next(&mut tm, 50), 0);
    assert_eq!(tm.current_pid(), Some(0));
    assert_eq!(status(&tm, 0), TaskStatus::Running);
    assert_eq!(tm.task(0).unwrap().first_schedule_time, FirstScheduleTime::Ms(10));
}

#[test]
fn tasks_are_fetched_by_rising_key() {
    let mut tm = booted();
    assert_eq!(sys_set_priority(&mut tm, 5), DEFAULT_PRIORITY);
    assert_eq!(sys_fork(&mut tm), 1);
    assert_eq!(sys_set_priority(&mut tm, 3), 5);
    assert_eq!(sys_fork(&mut tm), 2);
    assert_eq!(sys_set_priority(&mut tm, 9), 3);
    assert_eq!(sys_fork(&mut tm), 3);
    assert_eq!(sys_set_priority(&mut tm, 7), 9);
    assert_eq!(tm.ready_count(), 3);
    assert_eq!(peek_task(&tm), Some(2));
    // the running task, with key 7, goes between keys 5 and 9
    assert_eq!(sys_yield(&mut tm, 11), 0);
    assert_eq!(tm.current_pid(), Some(2));
    assert_eq!(sys_exit(&mut tm, 0, 12), 1);
    assert_eq!(sys_exit(&mut tm, 0, 13), 0);
    assert_eq!(sys_exit(&mut tm, 0, 14), 3);
    // task 3 is the last one: nothing is left to dispatch
    assert_eq!(tm.current_pid(), Some(3));
    assert_eq!(tm.ready_count(), 0);
}

#[test]
fn equal_keys_are_served_in_the_order_of_arrival() {
    let mut tm = booted();
    assert_eq!(sys_fork(&mut tm), 1);
    assert_eq!(sys_fork(&mut tm), 2);
    assert_eq!(fetch_task(&mut tm), Some(1));
    assert_eq!(fetch_task(&mut tm), Some(2));
    assert_eq!(fetch_task(&mut tm), None);
    add_task(&mut tm, 2);
    add_task(&mut tm, 1);
    assert_eq!(sys_yield(&mut tm, 11), 0);
    assert_eq!(tm.current_pid(), Some(2));
    assert_eq!(sys_yield(&mut tm, 12), 0);
    assert_eq!(tm.current_pid(), Some(1));
    assert_eq!(sys_yield(&mut tm, 13), 0);
    assert_eq!(tm.current_pid(), Some(0));
}

#[test]
fn a_fetched_task_is_in_no_other_slot() {
    let mut tm = booted();
    assert_eq!(sys_fork(&mut tm), 1);
    assert_eq!(fetch_task(&mut tm), Some(1));
    assert_eq!(tm.ready_count(), 0);
    assert_eq!(tm.current_pid(), Some(0));
    assert_eq!(status(&tm, 1), TaskStatus::Ready);
}

#[test]
fn exit_makes_a_zombie_that_is_not_queued() {
    let mut tm = booted();
    assert_eq!(sys_fork(&mut tm), 1);
    assert_eq!(sys_yield(&mut tm, 11), 0);
    assert_eq!(exit_current_and_run_next(&mut tm, -3, 12), 0);
    assert_eq!(status(&tm, 1), TaskStatus::Zombie);
    assert_eq!(tm.task(1).unwrap().exit_code, -3);
    assert_eq!(tm.ready_count(), 0);
    assert_eq!(status(&tm, 0), TaskStatus::Running);
}

#[test]
fn waitpid_reaps_the_zombie_child_then_reports_the_live_one() {
    let mut tm = booted();
    assert_eq!(sys_fork(&mut tm), 1);
    assert_eq!(sys_fork(&mut tm), 2);
    // child 1 runs, forks nothing, leaves; child 2 exits with code 7
    assert_eq!(sys_yield(&mut tm, 11), 0);
    assert_eq!(sys_getpid(&tm), 1);
    assert_eq!(sys_yield(&mut tm, 12), 0);
    assert_eq!(sys_getpid(&tm), 2);
    assert_eq!(sys_exit(&mut tm, 7, 13), 0);
    assert_eq!(sys_waitpid(&mut tm, -1), (2, Some(7)));
    assert!(tm.task(2).is_none());
    assert_eq!(tm.task(0).unwrap().children, vec![1]);
    assert_eq!(tm.task_count(), 3);
    assert_eq!(sys_waitpid(&mut tm, -1), (-2, None));
    assert_eq!(sys_waitpid(&mut tm, 1), (-2, None));
    assert_eq!(sys_waitpid(&mut tm, 2), (-1, None));
    assert_eq!(sys_waitpid(&mut tm, -7), (-1, None));
}

#[test]
fn waitpid_without_children_is_minus_one() {
    let mut tm = booted();
    assert_eq!(sys_waitpid(&mut tm, -1), (-1, None));
    assert_eq!(sys_waitpid(&mut tm, 0), (-1, None));
}

#[test]
fn waitpid_for_one_child_leaves_another_zombie() {
    let mut tm = booted();
    assert_eq!(sys_fork(&mut tm), 1);
    assert_eq!(sys_fork(&mut tm), 2);
    assert_eq!(sys_yield(&mut tm, 11), 0);
    assert_eq!(sys_exit(&mut tm, 1, 12), 2);
    assert_eq!(sys_exit(&mut tm, 2, 13), 0);
    assert_eq!(sys_waitpid(&mut tm, 2), (2, Some(2)));
    assert_eq!(status(&tm, 1), TaskStatus::Zombie);
    assert_eq!(sys_waitpid(&mut tm, -1), (1, Some(1)));
    assert_eq!(sys_waitpid(&mut tm, -1), (-1, None));
    // ids are not handed out again
    assert_eq!(sys_fork(&mut tm), 3);
}

#[test]
fn mmap_checks_its_arguments() {
    assert_eq!(validate_mmap_params(0, 1), Ok(()));
    assert_eq!(validate_mmap_params(PAGE_SIZE, 7), Ok(()));
    assert_eq!(validate_mmap_params(1, 1), Err(-1));
    assert_eq!(validate_mmap_params(0, 0), Err(-1));
    assert_eq!(validate_mmap_params(0, 8), Err(-1));
    assert_eq!(validate_mmap_params(0, 9), Err(-1));
    let mut tm = booted();
    assert_eq!(sys_mmap(&mut tm, 10 * PAGE_SIZE + 1, PAGE_SIZE, 3, 64), -1);
    assert_eq!(sys_mmap(&mut tm, 10 * PAGE_SIZE, PAGE_SIZE, 0, 64), -1);
    assert_eq!(sys_mmap(&mut tm, 10 * PAGE_SIZE, PAGE_SIZE, 8, 64), -1);
    assert_eq!(sys_mmap(&mut tm, 10 * PAGE_SIZE, usize::MAX, 1, 64), -1);
    assert_eq!(tm.task(0).unwrap().memory_set.area_count(), 3);
}

#[test]
fn mmap_maps_whole_pages_with_the_permissions_asked_for() {
    let mut tm = booted();
    assert_eq!(sys_mmap(&mut tm, 10 * PAGE_SIZE, PAGE_SIZE + 1, 3, 64), 0);
    let ms = tm.current_memory_set();
    assert_eq!(ms.translate(9), None);
    assert_eq!(ms.translate(10), Some(PERM_U | PERM_R | PERM_W));
    assert_eq!(ms.translate(11), Some(PERM_U | PERM_R | PERM_W));
    assert_eq!(ms.translate(12), None);
    assert_eq!(sys_mmap(&mut tm, 20 * PAGE_SIZE, 1, 4, 64), 0);
    assert_eq!(tm.current_memory_set().translate(20), Some(PERM_U | PERM_X));
    assert_eq!(sys_mmap(&mut tm, 30 * PAGE_SIZE, 1, 7, 64), 0);
    assert_eq!(tm.current_memory_set().translate(30), Some(PERM_U | PERM_R | PERM_W | PERM_X));
    assert_eq!(sys_mmap(&mut tm, 40 * PAGE_SIZE, 1, 1, 64), 0);
    assert_eq!(tm.current_memory_set().translate(40), Some(PERM_U | PERM_R));
}

#[test]
fn mmap_needs_a_free_frame_for_each_page() {
    let mut tm = booted();
    assert_eq!(sys_mmap(&mut tm, 10 * PAGE_SIZE, 2 * PAGE_SIZE + 1, 3, 2), -1);
    assert_eq!(sys_mmap(&mut tm, 10 * PAGE_SIZE, PAGE_SIZE, 3, 0), -1);
    assert_eq!(tm.current_memory_set().area_count(), 3);
    assert_eq!(sys_mmap(&mut tm, 10 * PAGE_SIZE, 2 * PAGE_SIZE + 1, 3, 3), 0);
    assert_eq!(tm.current_memory_set().translate(12), Some(PERM_U | PERM_R | PERM_W));
    assert_eq!(sys_mmap(&mut tm, 20 * PAGE_SIZE, 0, 1, 0), 0);
}

#[test]
fn mmap_over_a_mapped_page_changes_nothing() {
    let mut tm = booted();
    assert_eq!(sys_mmap(&mut tm, 10 * PAGE_SIZE, 2 * PAGE_SIZE, 1, 64), 0);
    assert_eq!(sys_mmap(&mut tm, 11 * PAGE_SIZE, 2 * PAGE_SIZE, 2, 64), -1);
    assert_eq!(sys_mmap(&mut tm, 0, PAGE_SIZE, 2, 64), -1);
    let ms = tm.current_memory_set();
    assert_eq!(ms.area_count(), 4);
    assert_eq!(ms.translate(11), Some(PERM_U | PERM_R));
    assert_eq!(ms.translate(12), None);
}

#[test]
fn munmap_of_a_mapped_range_unmaps_it() {
    let mut tm = booted();
    assert_eq!(sys_mmap(&mut tm, 10 * PAGE_SIZE, 2 * PAGE_SIZE, 3, 64), 0);
    assert_eq!(sys_munmap(&mut tm, 10 * PAGE_SIZE + 8, PAGE_SIZE), -1);
    assert_eq!(sys_munmap(&mut tm, 10 * PAGE_SIZE, 3 * PAGE_SIZE), -1);
    assert_eq!(sys_munmap(&mut tm, 10 * PAGE_SIZE, usize::MAX), -1);
    assert_eq!(tm.current_memory_set().translate(10), Some(PERM_U | PERM_R | PERM_W));
    assert_eq!(sys_munmap(&mut tm, 10 * PAGE_SIZE, 2 * PAGE_SIZE), 0);
    assert_eq!(tm.current_memory_set().translate(10), None);
    assert_eq!(tm.current_memory_set().translate(11), None);
    assert_eq!(tm.current_memory_set().translate(4), Some(PERM_U | PERM_R | PERM_W));
    assert_eq!(sys_munmap(&mut tm, 10 * PAGE_SIZE, 2 * PAGE_SIZE), -1);
    assert_eq!(sys_mmap(&mut tm, 10 * PAGE_SIZE, 2 * PAGE_SIZE, 1, 64), 0);
}

#[test]
fn sbrk_moves_the_break_and_returns_the_old_one() {
    let mut tm = booted();
    let bottom = 5 * PAGE_SIZE;
    assert_eq!(sys_sbrk(&mut tm, 0), bottom as isize);
    assert_eq!(sys_sbrk(&mut tm, 10), bottom as isize);
    assert_eq!(tm.task(0).unwrap().program_brk, bottom + 10);
    assert_eq!(tm.current_memory_set().translate(5), Some(PERM_U | PERM_R | PERM_W));
    assert_eq!(tm.current_memory_set().translate(6), None);
    assert_eq!(sys_sbrk(&mut tm, PAGE_SIZE as i32), (bottom + 10) as isize);
    assert_eq!(tm.current_memory_set().translate(6), Some(PERM_U | PERM_R | PERM_W));
    assert_eq!(sys_sbrk(&mut tm, -(PAGE_SIZE as i32) - 11), -1);
    assert_eq!(tm.task(0).unwrap().program_brk, bottom + PAGE_SIZE + 10);
    assert_eq!(change_program_brk(&mut tm, -(PAGE_SIZE as i32) - 10), Some(bottom + PAGE_SIZE + 10));
    assert_eq!(tm.task(0).unwrap().program_brk, bottom);
    assert_eq!(tm.current_memory_set().translate(5), None);
}

#[test]
fn sbrk_stops_at_a_mapped_area() {
    let mut tm = booted();
    assert_eq!(sys_mmap(&mut tm, 7 * PAGE_SIZE, PAGE_SIZE, 1, 64), 0);
    assert_eq!(sys_sbrk(&mut tm, 2 * PAGE_SIZE as i32), (5 * PAGE_SIZE) as isize);
    assert_eq!(sys_sbrk(&mut tm, 1), -1);
    assert_eq!(tm.task(0).unwrap().program_brk, 7 * PAGE_SIZE);
}

#[test]
fn sbrk_fails_without_a_heap_area() {
    let mut tm = TaskManager::new();
    let bare = ProgramImage { memory_set: MemorySet::new(), entry_point: 0, user_sp: PAGE_SIZE };
    assert_eq!(tm.add_initproc(bare), Some(0));
    assert_eq!(run_first_task(&mut tm, 0), 0);
    assert_eq!(sys_sbrk(&mut tm, 8), -1);
    assert_eq!(tm.task(0).unwrap().program_brk, PAGE_SIZE);
}

#[test]
fn exec_replaces_the_program_and_keeps_the_family() {
    let mut tm = booted();
    assert_eq!(sys_fork(&mut tm), 1);
    assert_eq!(sys_set_priority(&mut tm, 4), DEFAULT_PRIORITY);
    assert_eq!(sys_exec(&mut tm, None), -1);
    assert_eq!(tm.task(0).unwrap().trap_cx.sepc, 0x100);
    let mut memory_set = MemorySet::new();
    assert!(memory_set.insert_framed_area(1, 2, PERM_R | PERM_U));
    let other = ProgramImage { memory_set, entry_point: 0x2000, user_sp: 3 * PAGE_SIZE };
    assert_eq!(sys_exec(&mut tm, Some(other)), 0);
    let t = tm.task(0).unwrap();
    assert_eq!(t.pid, 0);
    assert_eq!(t.children, vec![1]);
    assert_eq!(t.parent, None);
    assert_eq!(t.priority, 4);
    assert_eq!(t.task_status, TaskStatus::Running);
    assert_eq!(t.trap_cx, TrapContext { sepc: 0x2000, sp: 3 * PAGE_SIZE, a0: 0 });
    assert_eq!(t.heap_bottom, 3 * PAGE_SIZE);
    assert_eq!(t.program_brk, 3 * PAGE_SIZE);
    assert_eq!(t.memory_set.area_count(), 1);
    assert_eq!(t.memory_set.translate(0), None);
    assert_eq!(t.memory_set.translate(1), Some(PERM_R | PERM_U));
}

#[test]
fn spawn_creates_a_child_from_the_image_alone() {
    let mut tm = booted();
    assert_eq!(sys_mmap(&mut tm, 10 * PAGE_SIZE, PAGE_SIZE, 1, 64), 0);
    assert_eq!(sys_spawn(&mut tm, None), -1);
    assert_eq!(tm.task_count(), 1);
    assert_eq!(sys_spawn(&mut tm, Some(image(0x300))), 1);
    let c = tm.task(1).unwrap();
    assert_eq!(c.parent, Some(0));
    assert_eq!(c.trap_cx.sepc, 0x300);
    assert_eq!(c.memory_set.translate(10), None);
    assert_eq!(c.priority, DEFAULT_PRIORITY);
    assert_eq!(c.task_status, TaskStatus::Ready);
    assert_eq!(tm.task(0).unwrap().children, vec![1]);
    assert_eq!(peek_task(&tm), Some(1));
}

#[test]
fn set_priority_refuses_keys_below_two() {
    let mut tm = booted();
    assert_eq!(sys_set_priority(&mut tm, 1), -1);
    assert_eq!(sys_set_priority(&mut tm, 0), -1);
    assert_eq!(sys_set_priority(&mut tm, -5), -1);
    assert_eq!(tm.task(0).unwrap().priority, DEFAULT_PRIORITY);
    assert_eq!(sys_set_priority(&mut tm, 2), DEFAULT_PRIORITY);
    assert_eq!(sys_set_priority(&mut tm, isize::MAX), 2);
    assert_eq!(tm.task(0).unwrap().priority, isize::MAX);
}

#[test]
fn get_time_splits_microseconds() {
    assert_eq!(sys_get_time(0), TimeVal { sec: 0, usec: 0 });
    assert_eq!(sys_get_time(999_999), TimeVal { sec: 0, usec: 999_999 });
    assert_eq!(sys_get_time(3_000_042), TimeVal { sec: 3, usec: 42 });
}

#[test]
fn task_info_counts_calls_and_time() {
    let mut tm = booted();
    inc_syscall_count(&mut tm, 64);
    inc_syscall_count(&mut tm, 64);
    inc_syscall_count(&mut tm, 0);
    inc_syscall_count(&mut tm, MAX_SYSCALL_NUM - 1);
    inc_syscall_count(&mut tm, MAX_SYSCALL_NUM);
    let info = sys_task_info(&tm, 25);
    assert!(info.status == TaskStatus::Running);
    assert_eq!(info.time, 15);
    assert_eq!(info.syscall_times.len(), MAX_SYSCALL_NUM);
    assert_eq!(info.syscall_times[64], 2);
    assert_eq!(info.syscall_times[0], 1);
    assert_eq!(info.syscall_times[MAX_SYSCALL_NUM - 1], 1);
    assert_eq!(info.syscall_times.iter().map(|n| *n as usize).sum::<usize>(), 4);
    assert_eq!(get_task_info(&tm, 10).time, 0);
    // a forked child starts counting afresh
    assert_eq!(sys_fork(&mut tm), 1);
    assert_eq!(tm.task(0).unwrap().syscall_count.get(&64), Some(&2));
    assert_eq!(tm.task(0).unwrap().syscall_count.len(), 3);
    assert!(tm.task(1).unwrap().syscall_count.is_empty());
}

#[test]
fn a_blocked_task_runs_only_after_it_is_woken() {
    let mut tm = booted();
    assert_eq!(sys_fork(&mut tm), 1);
    assert_eq!(tm.block_current_and_run_next(11), 1);
    assert_eq!(status(&tm, 0), TaskStatus::Blocked);
    assert_eq!(sys_yield(&mut tm, 12), 0);
    assert_eq!(tm.current_pid(), Some(1));
    assert!(!tm.wakeup_task(1));
    assert!(!tm.wakeup_task(9));
    assert!(tm.wakeup_task(0));
    assert!(!tm.wakeup_task(0));
    assert_eq!(status(&tm, 0), TaskStatus::Ready);
    assert_eq!(sys_yield(&mut tm, 13), 0);
    assert_eq!(tm.current_pid(), Some(0));
}

#[test]
fn dispatch_makes_the_head_of_the_queue_the_only_running_task() {
    let mut tm = TaskManager::new();
    assert_eq!(tm.add_initproc(image(0x100)), Some(0));
    assert_eq!(tm.add_initproc(image(0x200)), Some(1));
    assert_eq!(tm.run_next_task(7), 0);
    assert_eq!(tm.current_pid(), Some(0));
    assert_eq!(status(&tm, 0), TaskStatus::Running);
    assert_eq!(status(&tm, 1), TaskStatus::Ready);
    assert_eq!(tm.task(0).unwrap().first_schedule_time, FirstScheduleTime::Ms(7));
    assert_eq!(tm.task(1).unwrap().first_schedule_time, FirstScheduleTime::Undefined);
    assert_eq!(peek_task(&tm), Some(1));
    assert_eq!(tm.ready_count(), 1);
}
