use pomotask::model::{Session, StoreError, Task};
use pomotask::time::POMODORO_SECONDS;

fn desc(s: &str) -> Vec<char> {
    s.chars().collect()
}

#[test]
fn new_task_is_clean() {
    let t = Task::new(1, desc("Write report"));
    assert_eq!(t.id, 1);
    assert!(!t.done);
    assert!(!t.archived);
    assert_eq!(t.sessions.len(), 0);
    assert_eq!(t.time_spent(1000), 0);
    assert!(!t.has_open_session());
}

#[test]
fn time_spent_sums_closed_and_open() {
    let mut t = Task::new(1, desc("a"));
    t.sessions.push(Session { start: 100, end: Some(400) });
    t.sessions.push(Session { start: 1000, end: None });
    // 300 seconds closed, 500 seconds open so far
    assert_eq!(t.time_spent(1500), 800);
}

#[test]
fn time_spent_monotone_while_open_frozen_when_closed() {
    let mut t = Task::new(1, desc("a"));
    t.sessions.push(Session { start: 100, end: None });
    let a = t.time_spent(200);
    let b = t.time_spent(500);
    assert!(a <= b);
    assert_eq!(b - a, 300);
    let mut c = Task::new(2, desc("b"));
    c.sessions.push(Session { start: 100, end: Some(400) });
    assert_eq!(c.time_spent(1000), c.time_spent(99999));
}

#[test]
fn start_session_on_open_fails_unchanged() {
    let mut t = Task::new(1, desc("a"));
    assert_eq!(t.start_session(100), Ok(()));
    assert_eq!(t.sessions.len(), 1);
    let before = t.clone();
    assert_eq!(t.start_session(200), Err(StoreError::SessionAlreadyActive));
    assert_eq!(t, before);
}

#[test]
fn finish_session_without_open_fails_unchanged() {
    let mut t = Task::new(1, desc("a"));
    let before = t.clone();
    assert_eq!(t.finish_session(200), Err(StoreError::NoActiveSession));
    assert_eq!(t, before);
    t.sessions.push(Session { start: 100, end: Some(150) });
    let before = t.clone();
    assert_eq!(t.finish_session(200), Err(StoreError::NoActiveSession));
    assert_eq!(t, before);
}

#[test]
fn start_then_finish_closes_last() {
    let mut t = Task::new(1, desc("a"));
    assert_eq!(t.start_session(100), Ok(()));
    assert!(t.has_open_session());
    assert_eq!(t.finish_session(250), Ok(()));
    assert!(!t.has_open_session());
    assert_eq!(t.sessions.len(), 1);
    assert_eq!(t.sessions[0].start, 100);
    assert_eq!(t.sessions[0].end, Some(250));
}

#[test]
fn remaining_none_iff_no_open_session() {
    let mut t = Task::new(1, desc("a"));
    assert!(t.remaining(100).is_none());
    t.sessions.push(Session { start: 100, end: Some(200) });
    assert!(t.remaining(300).is_none());
    assert!(!t.has_open_session());
    t.sessions.push(Session { start: 1000, end: None });
    assert!(t.has_open_session());
    assert_eq!(t.remaining(1100), Some(POMODORO_SECONDS - 100));
}

#[test]
fn remaining_goes_negative_when_overdue() {
    let mut t = Task::new(1, desc("a"));
    let start = 10_000;
    t.sessions.push(Session { start, end: None });
    // 30 minutes later the 25-minute pomodoro is 5 minutes overdue
    let now = start + 30 * 60;
    assert_eq!(t.remaining(now), Some(-300));
}

#[test]
fn mark_due_and_close_uses_exact_end() {
    let mut t = Task::new(1, desc("a"));
    let start = 10_000;
    t.sessions.push(Session { start, end: None });
    let now = start + 30 * 60;
    assert!(t.mark_due_and_close(now));
    assert_eq!(t.sessions[0].end, Some(start + POMODORO_SECONDS));
    // a second scan does nothing
    assert!(!t.mark_due_and_close(now + 10));
}

#[test]
fn mark_due_leaves_fresh_session_alone() {
    let mut t = Task::new(1, desc("a"));
    t.sessions.push(Session { start: 10_000, end: None });
    assert!(!t.mark_due_and_close(10_060));
    assert_eq!(t.sessions[0].end, None);
}

#[test]
fn track_manual_inserts_before_open_session() {
    let mut t = Task::new(1, desc("a"));
    t.sessions.push(Session { start: 5_000, end: None });
    let now = 6_000;
    t.track_manual(now, 10);
    assert_eq!(t.sessions.len(), 2);
    assert_eq!(t.sessions[0].start, now - 600);
    assert_eq!(t.sessions[0].end, Some(now));
    assert_eq!(t.sessions[1].start, 5_000);
    assert_eq!(t.sessions[1].end, None);
    assert!(t.has_open_session());
}

#[test]
fn track_manual_appends_when_idle() {
    let mut t = Task::new(1, desc("a"));
    t.track_manual(6_000, 10);
    assert_eq!(t.sessions.len(), 1);
    assert_eq!(t.sessions[0].start, 5_400);
    assert_eq!(t.sessions[0].end, Some(6_000));
    assert!(!t.has_open_session());
    assert_eq!(t.time_spent(7_000), 600);
}

#[test]
fn session_elapsed_and_validity() {
    let s = Session { start: 100, end: Some(400) };
    assert_eq!(s.elapsed(9999), 300);
    assert!(s.valid());
    assert!(!s.is_open());
    let o = Session { start: 100, end: None };
    assert_eq!(o.elapsed(150), 50);
    assert!(o.is_open());
    let bad = Session { start: 400, end: Some(100) };
    assert!(!bad.valid());
}

#[test]
fn task_validity_rejects_open_session_before_last() {
    let mut t = Task::new(1, desc("a"));
    t.sessions.push(Session { start: 100, end: None });
    t.sessions.push(Session { start: 200, end: Some(300) });
    assert!(!t.valid());
    let mut ok = Task::new(1, desc("a"));
    ok.sessions.push(Session { start: 100, end: Some(150) });
    ok.sessions.push(Session { start: 200, end: None });
    assert!(ok.valid());
}
