use kernel::common::ErrKind;
use kernel::sched::{TaskState, TaskTable};

#[test]
fn creating_one_task_too_many_fails() {
    // A table of 3 slots takes 3 tasks; the 4th fails TooManyTasks.
    let mut tt = TaskTable::new(3);
    for _ in 0..3 {
        assert!(tt.create_task(1, None, None, None).is_ok());
    }
    let r = tt.create_task(1, None, None, None);
    assert_eq!(r.unwrap_err().e_kind, ErrKind::TooManyTasks);
}

#[test]
fn scheduler_picks_strict_priority_order() {
    let mut tt = TaskTable::new(8);
    let low = tt.create_task(1, None, None, None).unwrap();
    let high = tt.create_task(9, None, None, None).unwrap();
    let mid = tt.create_task(5, None, None, None).unwrap();
    assert_eq!(tt.schedule(), Some(high));
    assert_eq!(tt.tasks[high].unwrap().state, TaskState::Running);
    tt.preempt();
    assert_eq!(tt.tasks[high].unwrap().state, TaskState::Ready);
    // `high` went back to the queue and, being the highest priority,
    // runs again at once.
    assert_eq!(tt.schedule(), Some(high));
    tt.block_running();
    assert_eq!(tt.tasks[high].unwrap().state, TaskState::Blocked);
    assert_eq!(tt.schedule(), Some(mid));
    tt.block_running();
    assert_eq!(tt.schedule(), Some(low));
}

#[test]
fn equal_priorities_rotate_round_robin() {
    let mut tt = TaskTable::new(8);
    let a = tt.create_task(5, None, None, None).unwrap();
    let b = tt.create_task(5, None, None, None).unwrap();
    assert_eq!(tt.schedule(), Some(a));
    tt.preempt();
    // After preemption `a` requeues at the tail of its class, so `b`
    // runs next.
    assert_eq!(tt.schedule(), Some(b));
    tt.preempt();
    assert_eq!(tt.schedule(), Some(a));
}

#[test]
fn terminate_removes_the_task_everywhere() {
    let mut tt = TaskTable::new(4);
    let a = tt.create_task(5, None, None, None).unwrap();
    let b = tt.create_task(4, None, None, None).unwrap();
    assert!(tt.terminate(a).is_ok());
    assert_eq!(tt.tasks[a].unwrap().state, TaskState::Zombie);
    assert_eq!(tt.schedule(), Some(b));
    // Terminating the running task frees the processor.
    assert!(tt.terminate(b).is_ok());
    assert!(tt.running.is_none());
    assert_eq!(tt.schedule(), None);
}

#[test]
fn a_zombie_slot_can_be_reclaimed_and_reused() {
    let mut tt = TaskTable::new(1);
    let a = tt.create_task(5, None, None, None).unwrap();
    // A live task's slot is not reclaimable.
    assert_eq!(tt.reclaim(a).unwrap_err().e_kind, ErrKind::InvalidOperation);
    assert!(tt.terminate(a).is_ok());
    assert!(tt.reclaim(a).is_ok());
    assert_eq!(tt.reclaim(a).unwrap_err().e_kind, ErrKind::ProcessNotFound);
    // The freed slot takes a new task where the full table would not.
    assert!(tt.create_task(3, None, None, None).is_ok());
}

#[test]
fn terminate_of_an_absent_task_fails_process_not_found() {
    let mut tt = TaskTable::new(2);
    assert_eq!(
        tt.terminate(0).unwrap_err().e_kind,
        ErrKind::ProcessNotFound
    );
    assert_eq!(
        tt.terminate(9).unwrap_err().e_kind,
        ErrKind::ProcessNotFound
    );
}
