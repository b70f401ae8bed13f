use pomotask::model::{Session, StoreError, Task};
use pomotask::store::{
    add, archive_all_done, compute_due_notifications, find_index, max_id, set_archived, set_done,
    start_session, finish_session, store_valid, track_manual,
};
use pomotask::time::POMODORO_SECONDS;

fn desc(s: &str) -> Vec<char> {
    s.chars().collect()
}

#[test]
fn add_allocates_sequential_ids_never_reused() {
    let mut tasks: Vec<Task> = Vec::new();
    assert_eq!(add(&mut tasks, desc("one")), 1);
    assert_eq!(add(&mut tasks, desc("two")), 2);
    assert_eq!(add(&mut tasks, desc("three")), 3);
    assert_eq!(set_archived(&mut tasks, 2, true), Ok(()));
    assert_eq!(add(&mut tasks, desc("four")), 4);
    assert_eq!(max_id(&tasks), 4);
}

#[test]
fn add_to_empty_store_scenario() {
    let mut tasks: Vec<Task> = Vec::new();
    let id = add(&mut tasks, desc("Write report"));
    assert_eq!(id, 1);
    assert_eq!(tasks.len(), 1);
    assert_eq!(tasks[0].id, 1);
    assert!(!tasks[0].done);
    assert!(!tasks[0].archived);
    assert_eq!(tasks[0].sessions.len(), 0);
    assert_eq!(tasks[0].time_spent(12345), 0);
}

#[test]
fn find_index_matches_ids() {
    let mut tasks: Vec<Task> = Vec::new();
    add(&mut tasks, desc("a"));
    add(&mut tasks, desc("b"));
    assert_eq!(find_index(&tasks, 2), Some(1));
    assert_eq!(find_index(&tasks, 7), None);
}

#[test]
fn set_done_and_not_found() {
    let mut tasks: Vec<Task> = Vec::new();
    add(&mut tasks, desc("a"));
    assert_eq!(set_done(&mut tasks, 1, true), Ok(()));
    assert!(tasks[0].done);
    assert_eq!(set_done(&mut tasks, 1, false), Ok(()));
    assert!(!tasks[0].done);
    assert_eq!(set_done(&mut tasks, 9, true), Err(StoreError::TaskNotFound));
    assert_eq!(set_archived(&mut tasks, 9, true), Err(StoreError::TaskNotFound));
}

#[test]
fn archive_all_done_archives_exactly_done_tasks() {
    let mut tasks: Vec<Task> = Vec::new();
    add(&mut tasks, desc("a"));
    add(&mut tasks, desc("b"));
    add(&mut tasks, desc("c"));
    set_done(&mut tasks, 1, true).unwrap();
    set_done(&mut tasks, 3, true).unwrap();
    archive_all_done(&mut tasks);
    assert!(tasks[0].archived);
    assert!(!tasks[1].archived);
    assert!(tasks[2].archived);
    // idempotent
    archive_all_done(&mut tasks);
    assert!(tasks[0].archived);
    assert!(!tasks[1].archived);
    assert!(tasks[2].archived);
}

#[test]
fn store_session_commands_report_domain_errors() {
    let mut tasks: Vec<Task> = Vec::new();
    add(&mut tasks, desc("a"));
    assert_eq!(start_session(&mut tasks, 5, 100), Err(StoreError::TaskNotFound));
    assert_eq!(finish_session(&mut tasks, 5, 100), Err(StoreError::TaskNotFound));
    assert_eq!(finish_session(&mut tasks, 1, 100), Err(StoreError::NoActiveSession));
    assert_eq!(start_session(&mut tasks, 1, 100), Ok(()));
    assert_eq!(start_session(&mut tasks, 1, 150), Err(StoreError::SessionAlreadyActive));
    assert_eq!(finish_session(&mut tasks, 1, 200), Ok(()));
    assert_eq!(tasks[0].sessions[0].end, Some(200));
}

#[test]
fn track_manual_by_id() {
    let mut tasks: Vec<Task> = Vec::new();
    add(&mut tasks, desc("a"));
    assert_eq!(track_manual(&mut tasks, 1, 6000, 10), Ok(()));
    assert_eq!(tasks[0].sessions.len(), 1);
    assert_eq!(tasks[0].time_spent(7000), 600);
    assert_eq!(track_manual(&mut tasks, 3, 6000, 10), Err(StoreError::TaskNotFound));
}

#[test]
fn due_scan_closes_and_notifies() {
    let mut tasks: Vec<Task> = Vec::new();
    add(&mut tasks, desc("overdue work"));
    add(&mut tasks, desc("fresh work"));
    let start = 100_000;
    start_session(&mut tasks, 1, start).unwrap();
    let now = start + 30 * 60;
    start_session(&mut tasks, 2, now - 10).unwrap();
    let notices = compute_due_notifications(&mut tasks, now);
    assert_eq!(notices.len(), 1);
    assert_eq!(notices[0].id, 1);
    let body: String = notices[0].description.iter().collect();
    assert_eq!(body, "overdue work");
    assert_eq!(tasks[0].sessions[0].end, Some(start + POMODORO_SECONDS));
    assert_eq!(tasks[1].sessions[0].end, None);
}

#[test]
fn store_validity_checks_unique_ids() {
    let mut tasks: Vec<Task> = Vec::new();
    add(&mut tasks, desc("a"));
    add(&mut tasks, desc("b"));
    assert!(store_valid(&tasks));
    let dup = Task::new(1, desc("c"));
    tasks.push(dup);
    assert!(!store_valid(&tasks));
    tasks.pop();
    tasks.push(Task {
        id: 3,
        description: desc("d"),
        done: false,
        archived: false,
        sessions: vec![Session { start: 500, end: Some(100) }],
    });
    assert!(!store_valid(&tasks));
}
