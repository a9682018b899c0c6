use taskcore::sync::deadlock_detect;

#[test]
fn no_free_unit_and_both_tasks_need_one_is_unsafe() {
    let mut available: Vec<isize> = vec![0];
    let allocation: Vec<Vec<usize>> = vec![vec![0], vec![0]];
    let need: Vec<Vec<usize>> = vec![vec![1], vec![1]];
    assert!(deadlock_detect(&mut available, &allocation, &need));
    assert_eq!(available, vec![0]);
}

#[test]
fn one_free_unit_lets_both_tasks_finish() {
    let mut available: Vec<isize> = vec![1];
    let allocation: Vec<Vec<usize>> = vec![vec![0], vec![0]];
    let need: Vec<Vec<usize>> = vec![vec![1], vec![1]];
    assert!(!deadlock_detect(&mut available, &allocation, &need));
    assert_eq!(available, vec![1]);
}

#[test]
fn no_task_is_safe() {
    let mut available: Vec<isize> = vec![3, 4];
    let allocation: Vec<Vec<usize>> = Vec::new();
    let need: Vec<Vec<usize>> = Vec::new();
    assert!(!deadlock_detect(&mut available, &allocation, &need));
    assert_eq!(available, vec![3, 4]);
}

#[test]
fn released_units_let_later_tasks_finish() {
    // task 2 can finish first, then task 0 with what it returned, then task 1
    let mut available: Vec<isize> = vec![1, 0];
    let allocation: Vec<Vec<usize>> = vec![vec![0, 2], vec![3, 0], vec![1, 1]];
    let need: Vec<Vec<usize>> = vec![vec![2, 1], vec![0, 3], vec![1, 0]];
    assert!(!deadlock_detect(&mut available, &allocation, &need));
    assert_eq!(available, vec![1, 0]);
}

#[test]
fn stuck_tasks_keep_their_units() {
    // task 0 finishes and returns one unit; tasks 1 and 2 wait for each other
    let mut available: Vec<isize> = vec![0, 0];
    let allocation: Vec<Vec<usize>> = vec![vec![1, 0], vec![0, 1], vec![1, 0]];
    let need: Vec<Vec<usize>> = vec![vec![0, 0], vec![2, 0], vec![0, 2]];
    assert!(deadlock_detect(&mut available, &allocation, &need));
    assert_eq!(available, vec![0, 0]);
}

#[test]
fn short_rows_hold_and_need_nothing_of_the_rest() {
    let mut available: Vec<isize> = vec![0, 5];
    let allocation: Vec<Vec<usize>> = vec![vec![2], vec![]];
    let need: Vec<Vec<usize>> = vec![vec![0], vec![2, 5]];
    assert!(!deadlock_detect(&mut available, &allocation, &need));
    assert_eq!(available, vec![0, 5]);
}

#[test]
fn negative_free_units_cover_no_need() {
    let mut available: Vec<isize> = vec![-1];
    let allocation: Vec<Vec<usize>> = vec![vec![0]];
    let need: Vec<Vec<usize>> = vec![vec![0]];
    assert!(deadlock_detect(&mut available, &allocation, &need));
    assert_eq!(available, vec![-1]);
}

#[test]
fn the_snapshot_is_left_as_it_was() {
    let mut available: Vec<isize> = vec![0];
    let allocation: Vec<Vec<usize>> = vec![vec![1]];
    let need: Vec<Vec<usize>> = vec![vec![0]];
    assert!(!deadlock_detect(&mut available, &allocation, &need));
    assert_eq!(available, vec![0]);
    assert_eq!(allocation, vec![vec![1]]);
    assert_eq!(need, vec![vec![0]]);
}
