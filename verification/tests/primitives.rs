use taskcore::config::PAGE_SIZE;
use taskcore::mm::MemorySet;
use taskcore::sync::{Condvar, MutexBlocking, MutexSpin, Semaphore, UPSafeCell};
use taskcore::syscall::{sys_fork, sys_yield};
use taskcore::task::{run_first_task, ProgramImage, TaskManager, TaskStatus};

// task 0 runs, tasks 1 and 2 are ready
fn three_tasks() -> TaskManager {
    let mut tm = TaskManager::new();
    let image = ProgramImage { memory_set: MemorySet::new(), entry_point: 0, user_sp: PAGE_SIZE };
    assert_eq!(tm.add_initproc(image), Some(0));
    assert_eq!(run_first_task(&mut tm, 0), 0);
    assert_eq!(sys_fork(&mut tm), 1);
    assert_eq!(sys_fork(&mut tm), 2);
    tm
}

fn status(tm: &TaskManager, pid: usize) -> TaskStatus {
    tm.task(pid).unwrap().task_status
}

#[test]
fn the_cell_grants_one_access_at_a_time() {
    let mut cell = UPSafeCell::new(5u32);
    assert!(!cell.is_borrowed());
    assert_eq!(cell.exclusive_access(), Some(5));
    assert!(cell.is_borrowed());
    assert_eq!(cell.exclusive_access(), None);
    assert_eq!(cell.release(6), None);
    assert!(!cell.is_borrowed());
    assert_eq!(cell.release(7), Some(7));
    assert_eq!(cell.exclusive_access(), Some(6));
}

#[test]
fn the_spin_lock_is_got_by_one_try_only() {
    let mut m = MutexSpin::new();
    assert!(m.lock());
    assert!(!m.lock());
    assert!(!m.lock());
    m.unlock();
    assert!(m.lock());
}

#[test]
fn a_contended_mutex_has_one_holder_and_wakes_in_order() {
    let mut tm = three_tasks();
    let mut m = MutexBlocking::new();
    assert_eq!(m.held_by(), None);
    assert!(m.lock(&mut tm, 1));
    assert_eq!(m.held_by(), Some(0));
    assert_eq!(tm.current_pid(), Some(0));
    // task 1 and task 2 find the lock taken
    assert_eq!(sys_yield(&mut tm, 2), 0);
    assert_eq!(tm.current_pid(), Some(1));
    assert!(!m.lock(&mut tm, 3));
    assert_eq!(status(&tm, 1), TaskStatus::Blocked);
    assert_eq!(m.held_by(), Some(0));
    assert_eq!(tm.current_pid(), Some(2));
    assert!(!m.lock(&mut tm, 4));
    assert_eq!(status(&tm, 2), TaskStatus::Blocked);
    assert_eq!(tm.current_pid(), Some(0));
    assert_eq!(m.waiter_count(), 2);
    assert_eq!(tm.ready_count(), 0);
    // each release wakes one waiter, first come first
    assert_eq!(m.unlock(&mut tm), Some(1));
    assert_eq!(m.held_by(), Some(1));
    assert_eq!(status(&tm, 1), TaskStatus::Ready);
    assert_eq!(status(&tm, 2), TaskStatus::Blocked);
    assert_eq!(tm.ready_count(), 1);
    assert_eq!(m.unlock(&mut tm), Some(2));
    assert_eq!(m.held_by(), Some(2));
    assert_eq!(status(&tm, 2), TaskStatus::Ready);
    assert_eq!(m.unlock(&mut tm), None);
    assert_eq!(m.held_by(), None);
    assert_eq!(m.waiter_count(), 0);
    assert_eq!(tm.ready_count(), 2);
}

#[test]
fn a_semaphore_blocks_below_zero_and_wakes_one_per_up() {
    let mut tm = three_tasks();
    let mut s = Semaphore::new(1);
    assert!(s.down(&mut tm, 1));
    assert_eq!(s.value(), 0);
    assert_eq!(tm.current_pid(), Some(0));
    assert!(!s.down(&mut tm, 2));
    assert_eq!(s.value(), -1);
    assert_eq!(status(&tm, 0), TaskStatus::Blocked);
    assert_eq!(tm.current_pid(), Some(1));
    assert!(!s.down(&mut tm, 3));
    assert_eq!(s.value(), -2);
    assert_eq!(tm.current_pid(), Some(2));
    assert_eq!(s.up(&mut tm), Some(0));
    assert_eq!(s.value(), -1);
    assert_eq!(status(&tm, 0), TaskStatus::Ready);
    assert_eq!(status(&tm, 1), TaskStatus::Blocked);
    assert_eq!(s.up(&mut tm), Some(1));
    assert_eq!(s.up(&mut tm), None);
    assert_eq!(s.value(), 1);
}

#[test]
fn a_condition_wait_gives_up_the_mutex_and_blocks() {
    let mut tm = three_tasks();
    let mut m = MutexBlocking::new();
    let mut c = Condvar::new();
    assert_eq!(c.notify_one(&mut tm), None);
    assert!(m.lock(&mut tm, 1));
    assert_eq!(c.wait(&mut m, &mut tm, 2), None);
    assert_eq!(m.held_by(), None);
    assert_eq!(c.waiter_count(), 1);
    assert_eq!(status(&tm, 0), TaskStatus::Blocked);
    assert_eq!(tm.current_pid(), Some(1));
    // task 1 takes the mutex, signals, and releases
    assert!(m.lock(&mut tm, 3));
    assert_eq!(c.notify_one(&mut tm), Some(0));
    assert_eq!(c.waiter_count(), 0);
    assert_eq!(status(&tm, 0), TaskStatus::Ready);
    assert_eq!(m.unlock(&mut tm), None);
    // task 0 runs again once the others have yielded, and asks for the mutex
    assert_eq!(sys_yield(&mut tm, 4), 0);
    assert_eq!(tm.current_pid(), Some(2));
    assert_eq!(sys_yield(&mut tm, 5), 0);
    assert_eq!(tm.current_pid(), Some(0));
    assert!(m.lock(&mut tm, 6));
    assert_eq!(m.held_by(), Some(0));
}

#[test]
fn notify_all_wakes_every_waiter_in_order() {
    let mut tm = three_tasks();
    let mut m = MutexBlocking::new();
    let mut c = Condvar::new();
    assert!(m.lock(&mut tm, 1));
    assert_eq!(c.wait(&mut m, &mut tm, 2), None);
    assert_eq!(tm.current_pid(), Some(1));
    assert!(m.lock(&mut tm, 3));
    assert_eq!(c.wait(&mut m, &mut tm, 4), None);
    assert_eq!(tm.current_pid(), Some(2));
    assert_eq!(c.waiter_count(), 2);
    assert_eq!(tm.ready_count(), 0);
    c.notify_all(&mut tm);
    assert_eq!(c.waiter_count(), 0);
    assert_eq!(status(&tm, 0), TaskStatus::Ready);
    assert_eq!(status(&tm, 1), TaskStatus::Ready);
    assert_eq!(tm.peek(), Some(0));
    assert_eq!(tm.ready_count(), 2);
    c.notify_all(&mut tm);
    assert_eq!(tm.ready_count(), 2);
    assert_eq!(m.held_by(), None);
}
