//! Tasks and their work sessions.
//!
//! A session is one timed work interval: a start instant and an
//! optional end instant. A task owns an ordered sequence of sessions
//! of which at most one — always the last — may still be open.

use vstd::prelude::*;
use crate::time::{valid_ts, POMODORO_SECONDS, TS_MAX};

verus! {

/// One timed work interval. `end` is `None` while the session is open.
#[derive(Clone, PartialEq, Eq, Debug)]
pub struct Session {
    pub start: i64,
    pub end: Option<i64>,
}

/// An identified unit of work owning its sessions.
#[derive(Clone, PartialEq, Eq, Debug)]
pub struct Task {
    pub id: u32,
    pub description: Vec<char>,
    pub done: bool,
    pub archived: bool,
    pub sessions: Vec<Session>,
}

#[verifier::ext_equal]
pub struct SessionV {
    pub start: int,
    pub end: Option<int>,
}

#[verifier::ext_equal]
pub struct TaskV {
    pub id: int,
    pub description: Seq<char>,
    pub done: bool,
    pub archived: bool,
    pub sessions: Seq<SessionV>,
}

impl View for Session {
    type V = SessionV;

    open spec fn view(&self) -> SessionV {
        SessionV {
            start: self.start as int,
            end: match self.end {
                Some(e) => Some(e as int),
                None => None,
            },
        }
    }
}

impl View for Task {
    type V = TaskV;

    open spec fn view(&self) -> TaskV {
        TaskV {
            id: self.id as int,
            description: self.description@,
            done: self.done,
            archived: self.archived,
            sessions: self.sessions@.map_values(|s: Session| s@),
        }
    }
}

/// Domain errors reported by the command operations.
#[derive(Clone, Copy, PartialEq, Eq, Structural, Debug)]
pub enum StoreError {
    TaskNotFound,
    SessionAlreadyActive,
    NoActiveSession,
}

pub open spec fn session_wf(s: SessionV) -> bool {
    &&& valid_ts(s.start)
    &&& match s.end {
        Some(e) => s.start <= e && valid_ts(e),
        None => true,
    }
}

pub open spec fn task_wf(t: TaskV) -> bool {
    &&& 1 <= t.id <= u32::MAX
    &&& t.description.len() > 0
    &&& forall|i: int| 0 <= i < t.sessions.len() ==> session_wf(#[trigger] t.sessions[i])
    &&& forall|i: int| 0 <= i < t.sessions.len() - 1 ==> (#[trigger] t.sessions[i]).end is Some
}

pub open spec fn elapsed_spec(s: SessionV, now: int) -> int {
    (match s.end {
        Some(e) => e,
        None => now,
    }) - s.start
}

pub open spec fn time_spent_spec(ss: Seq<SessionV>, now: int) -> int
    decreases ss.len(),
{
    if ss.len() == 0 {
        0
    } else {
        time_spent_spec(ss.drop_last(), now) + elapsed_spec(ss.last(), now)
    }
}

pub open spec fn has_open_spec(t: TaskV) -> bool {
    t.sessions.len() > 0 && t.sessions.last().end is None
}

pub open spec fn remaining_spec(t: TaskV, now: int) -> Option<int> {
    if has_open_spec(t) {
        Some(POMODORO_SECONDS - (now - t.sessions.last().start))
    } else {
        None
    }
}

/// A task is due when its open session has run for the whole pomodoro
/// duration or longer.
pub open spec fn is_due_spec(t: TaskV, now: int) -> bool {
    has_open_spec(t) && remaining_spec(t, now).unwrap() <= 0
}

/// The task after a due-scan: a due task has its open session closed
/// at exactly `start + POMODORO_SECONDS`; any other task is untouched.
pub open spec fn mark_due_spec(t: TaskV, now: int) -> TaskV {
    if is_due_spec(t, now) {
        let last = t.sessions.last();
        TaskV {
            sessions: t.sessions.update(
                t.sessions.len() - 1,
                SessionV { start: last.start, end: Some(last.start + POMODORO_SECONDS) },
            ),
            ..t
        }
    } else {
        t
    }
}

impl Session {
    pub open spec fn is_open_spec(&self) -> bool {
        self.end is None
    }

    /// True iff the session has no recorded end yet.
    pub fn is_open(&self) -> (r: bool)
        ensures
            r == self.is_open_spec(),
    {
        self.end.is_none()
    }

    /// Duration of the session, taking `now` as the provisional end of
    /// an open session. Negative only under clock skew.
    pub fn elapsed(&self, now: i64) -> (r: i64)
        requires
            session_wf(self@),
            valid_ts(now as int),
        ensures
            r == elapsed_spec(self@, now as int),
    {
        match self.end {
            Some(e) => e - self.start,
            None => now - self.start,
        }
    }
}

impl Task {
    /// A fresh task: no sessions, not done, not archived.
    pub fn new(id: u32, description: Vec<char>) -> (r: Task)
        requires
            1 <= id,
            description@.len() > 0,
        ensures
            r@ =~~= (TaskV {
                id: id as int,
                description: description@,
                done: false,
                archived: false,
                sessions: Seq::empty(),
            }),
            task_wf(r@),
    {
        Task { id, description, done: false, archived: false, sessions: Vec::new() }
    }

    /// True iff the last session exists and is still open.
    pub fn has_open_session(&self) -> (r: bool)
        ensures
            r == has_open_spec(self@),
    {
        let n = self.sessions.len();
        if n == 0 {
            false
        } else {
            self.sessions[n - 1].is_open()
        }
    }

    /// Start instant of the open session, if one exists.
    pub fn open_session_start(&self) -> (r: Option<i64>)
        ensures
            match r {
                Some(st) => has_open_spec(self@) && st as int == self@.sessions.last().start,
                None => !has_open_spec(self@),
            },
    {
        let n = self.sessions.len();
        if n > 0 && self.sessions[n - 1].is_open() {
            Some(self.sessions[n - 1].start)
        } else {
            None
        }
    }

    /// Total time spent on the task: the sum of every session's
    /// elapsed time, with `now` standing in for the end of an open one.
    pub fn time_spent(&self, now: i64) -> (r: i128)
        requires
            task_wf(self@),
            valid_ts(now as int),
        ensures
            r == time_spent_spec(self@.sessions, now as int),
    {
        let ghost sv = self@.sessions;
        let mut total: i128 = 0;
        let mut i: usize = 0;
        proof {
            assert(sv.take(0) =~= Seq::<SessionV>::empty());
        }
        while i < self.sessions.len()
            invariant
                task_wf(self@),
                valid_ts(now as int),
                sv == self@.sessions,
                0 <= i <= self.sessions.len(),
                sv.len() == self.sessions.len(),
                total == time_spent_spec(sv.take(i as int), now as int),
                -(i as int) * (TS_MAX as int) <= total <= (i as int) * (TS_MAX as int),
            decreases self.sessions.len() - i,
        {
            proof {
                assert(sv[i as int] == self.sessions@[i as int]@);
            }
            let e = self.sessions[i].elapsed(now);
            proof {
                assert(sv.take(i + 1).drop_last() =~= sv.take(i as int));
                assert(sv.take(i + 1).last() == sv[i as int]);
            }
            total = total + e as i128;
            i = i + 1;
        }
        proof {
            assert(sv.take(sv.len() as int) =~= sv);
        }
        total
    }

    /// Time left in the open session, if any: the pomodoro duration
    /// minus the time elapsed since its start. May be negative once
    /// the session is overdue.
    pub fn remaining(&self, now: i64) -> (r: Option<i64>)
        requires
            task_wf(self@),
            valid_ts(now as int),
        ensures
            r matches Some(v) ==> remaining_spec(self@, now as int) == Some(v as int),
            r is Some <==> has_open_spec(self@),
            r is None <==> remaining_spec(self@, now as int) is None,
    {
        let n = self.sessions.len();
        if n > 0 && self.sessions[n - 1].is_open() {
            Some(POMODORO_SECONDS - (now - self.sessions[n - 1].start))
        } else {
            None
        }
    }

    /// Open a new session starting at `now`. Fails with
    /// `SessionAlreadyActive`, leaving the task unchanged, iff a
    /// session is already open.
    pub fn start_session(&mut self, now: i64) -> (r: Result<(), StoreError>)
        requires
            task_wf(old(self)@),
            valid_ts(now as int),
        ensures
            task_wf(final(self)@),
            r is Ok <==> !has_open_spec(old(self)@),
            r is Err ==> r == Err::<(), StoreError>(StoreError::SessionAlreadyActive) && final(self)@
                == old(self)@,
            r is Ok ==> final(self)@ =~~= (TaskV {
                sessions: old(self)@.sessions.push(SessionV { start: now as int, end: None }),
                ..old(self)@
            }),
    {
        if self.has_open_session() {
            Err(StoreError::SessionAlreadyActive)
        } else {
            self.sessions.push(Session { start: now, end: None });
            proof {
                assert(final(self)@.sessions =~= old(self)@.sessions.push(
                    SessionV { start: now as int, end: None },
                ));
            }
            Ok(())
        }
    }

    /// Close the open session at `now`. Fails with `NoActiveSession`,
    /// leaving the task unchanged, iff no session is open.
    pub fn finish_session(&mut self, now: i64) -> (r: Result<(), StoreError>)
        requires
            task_wf(old(self)@),
            valid_ts(now as int),
            has_open_spec(old(self)@) ==> old(self)@.sessions.last().start <= now,
        ensures
            task_wf(final(self)@),
            r is Ok <==> has_open_spec(old(self)@),
            r is Err ==> r == Err::<(), StoreError>(StoreError::NoActiveSession) && final(self)@
                == old(self)@,
            r is Ok ==> final(self)@ =~~= (TaskV {
                sessions: old(self)@.sessions.update(
                    old(self)@.sessions.len() - 1,
                    SessionV { start: old(self)@.sessions.last().start, end: Some(now as int) },
                ),
                ..old(self)@
            }),
    {
        let n = self.sessions.len();
        if n > 0 && self.sessions[n - 1].is_open() {
            let st = self.sessions[n - 1].start;
            self.sessions.set(n - 1, Session { start: st, end: Some(now) });
            proof {
                assert(final(self)@.sessions =~= old(self)@.sessions.update(
                    old(self)@.sessions.len() - 1,
                    SessionV { start: st as int, end: Some(now as int) },
                ));
            }
            Ok(())
        } else {
            Err(StoreError::NoActiveSession)
        }
    }

    /// Record a completed interval of `minutes` minutes ending at
    /// `now`. If a session is open, the interval is inserted just
    /// before it, so the open session stays last; otherwise it is
    /// appended.
    pub fn track_manual(&mut self, now: i64, minutes: i64)
        requires
            task_wf(old(self)@),
            valid_ts(now as int),
            0 <= minutes,
            minutes * 60 <= now,
        ensures
            task_wf(final(self)@),
            final(self)@ =~~= (TaskV {
                sessions: if has_open_spec(old(self)@) {
                    old(self)@.sessions.insert(
                        old(self)@.sessions.len() - 1,
                        SessionV { start: now - minutes * 60, end: Some(now as int) },
                    )
                } else {
                    old(self)@.sessions.push(
                        SessionV { start: now - minutes * 60, end: Some(now as int) },
                    )
                },
                ..old(self)@
            }),
            final(self)@.sessions.len() == old(self)@.sessions.len() + 1,
            has_open_spec(final(self)@) == has_open_spec(old(self)@),
    {
        let interval = Session { start: now - minutes * 60, end: Some(now) };
        let n = self.sessions.len();
        if n > 0 && self.sessions[n - 1].is_open() {
            self.sessions.insert(n - 1, interval);
            proof {
                assert(final(self)@.sessions =~= old(self)@.sessions.insert(
                    n - 1,
                    SessionV { start: now - minutes * 60, end: Some(now as int) },
                ));
                assert(final(self)@.sessions.last() == old(self)@.sessions.last());
            }
        } else {
            self.sessions.push(interval);
            proof {
                assert(final(self)@.sessions =~= old(self)@.sessions.push(
                    SessionV { start: now - minutes * 60, end: Some(now as int) },
                ));
            }
        }
    }

    /// Due-scan step: if the open session is overdue, close it at
    /// exactly `start + POMODORO_SECONDS` and report true.
    pub fn mark_due_and_close(&mut self, now: i64) -> (r: bool)
        requires
            task_wf(old(self)@),
            valid_ts(now as int),
        ensures
            task_wf(final(self)@),
            r == is_due_spec(old(self)@, now as int),
            final(self)@ =~~= mark_due_spec(old(self)@, now as int),
    {
        let n = self.sessions.len();
        if n > 0 && self.sessions[n - 1].is_open() {
            let st = self.sessions[n - 1].start;
            if POMODORO_SECONDS - (now - st) <= 0 {
                self.sessions.set(n - 1, Session { start: st, end: Some(st + POMODORO_SECONDS) });
                proof {
                    assert(final(self)@.sessions =~= mark_due_spec(old(self)@, now as int).sessions);
                }
                true
            } else {
                false
            }
        } else {
            false
        }
    }
}

impl Session {
    /// Check the session invariant: timestamps in range, and a
    /// recorded end no earlier than the start.
    pub fn valid(&self) -> (r: bool)
        ensures
            r == session_wf(self@),
    {
        0 <= self.start && self.start <= TS_MAX && match self.end {
            Some(e) => self.start <= e && e <= TS_MAX,
            None => true,
        }
    }
}

impl Task {
    /// Check the task invariant: positive id, non-empty description,
    /// well-formed sessions, closed sessions everywhere but last.
    pub fn valid(&self) -> (r: bool)
        ensures
            r == task_wf(self@),
    {
        if self.id < 1 {
            return false;
        }
        if self.description.len() == 0 {
            return false;
        }
        let n = self.sessions.len();
        let mut i: usize = 0;
        while i < n
            invariant
                0 <= i <= n,
                n == self.sessions@.len(),
                self.id >= 1,
                self.description@.len() > 0,
                forall|j: int| 0 <= j < i ==> session_wf(#[trigger] self@.sessions[j]),
                forall|j: int| 0 <= j < i && j < n - 1 ==> (#[trigger] self@.sessions[j]).end
                    is Some,
            decreases n - i,
        {
            proof {
                assert(self@.sessions[i as int] == self.sessions@[i as int]@);
            }
            if !self.sessions[i].valid() {
                proof {
                    assert(!session_wf(self@.sessions[i as int]));
                }
                return false;
            }
            if i < n - 1 && self.sessions[i].is_open() {
                proof {
                    assert(!((self@.sessions[i as int]).end is Some));
                }
                return false;
            }
            i = i + 1;
        }
        true
    }
}

/// Time spent never decreases as `now` advances, and is frozen once
/// every session is closed.
pub proof fn lemma_time_spent_monotonic(ss: Seq<SessionV>, n1: int, n2: int)
    requires
        n1 <= n2,
    ensures
        time_spent_spec(ss, n1) <= time_spent_spec(ss, n2),
        (forall|i: int| 0 <= i < ss.len() ==> (#[trigger] ss[i]).end is Some) ==> time_spent_spec(
            ss,
            n1,
        ) == time_spent_spec(ss, n2),
    decreases ss.len(),
{
    if ss.len() > 0 {
        lemma_time_spent_monotonic(ss.drop_last(), n1, n2);
        assert(forall|i: int| 0 <= i < ss.len() - 1 ==> ss.drop_last()[i] == ss[i]);
    }
}

/// A well-formed task's time spent is frozen once no session is open:
/// only the last session could be open, so `has_open_spec` being false
/// means every session is closed.
pub proof fn lemma_time_spent_frozen(t: TaskV, n1: int, n2: int)
    requires
        task_wf(t),
        !has_open_spec(t),
    ensures
        time_spent_spec(t.sessions, n1) == time_spent_spec(t.sessions, n2),
{
    if n1 <= n2 {
        lemma_time_spent_monotonic(t.sessions, n1, n2);
    } else {
        lemma_time_spent_monotonic(t.sessions, n2, n1);
    }
    assert(forall|i: int| 0 <= i < t.sessions.len() ==> (#[trigger] t.sessions[i]).end is Some);
}

/// `remaining` is `None` exactly when no session is open; otherwise it
/// is the pomodoro duration minus the open session's elapsed time.
pub proof fn lemma_remaining_iff_open(t: TaskV, now: int)
    ensures
        remaining_spec(t, now) is None <==> !has_open_spec(t),
        has_open_spec(t) ==> remaining_spec(t, now) == Some(
            POMODORO_SECONDS - elapsed_spec(t.sessions.last(), now),
        ),
{
}

} // verus!
