//! The task store: an ordered collection of tasks with unique ids,
//! and the command operations the CLI dispatches into.

use vstd::prelude::*;
use crate::model::{
    has_open_spec, is_due_spec, mark_due_spec, task_wf, Session, SessionV, StoreError, Task, TaskV,
};
use crate::time::valid_ts;

verus! {

pub open spec fn store_view(s: Seq<Task>) -> Seq<TaskV> {
    s.map_values(|t: Task| t@)
}

pub open spec fn store_wf(s: Seq<TaskV>) -> bool {
    &&& forall|i: int| 0 <= i < s.len() ==> task_wf(#[trigger] s[i])
    &&& forall|i: int, j: int| 0 <= i < j < s.len() ==> s[i].id != s[j].id
}

/// Largest id present in the store, 0 when it is empty.
pub open spec fn max_id_spec(s: Seq<TaskV>) -> int
    decreases s.len(),
{
    if s.len() == 0 {
        0
    } else if max_id_spec(s.drop_last()) >= s.last().id {
        max_id_spec(s.drop_last())
    } else {
        s.last().id
    }
}

pub proof fn lemma_max_id_bound(s: Seq<TaskV>)
    ensures
        forall|i: int| 0 <= i < s.len() ==> (#[trigger] s[i]).id <= max_id_spec(s),
        max_id_spec(s) >= 0,
    decreases s.len(),
{
    if s.len() > 0 {
        lemma_max_id_bound(s.drop_last());
        assert(forall|i: int| 0 <= i < s.len() - 1 ==> s.drop_last()[i] == s[i]);
    }
}

/// Payload for one due-notification: the task it concerns and its
/// description, handed to the notification collaborators.
pub struct DueNotice {
    pub id: u32,
    pub description: Vec<char>,
}

#[verifier::ext_equal]
pub struct NoticeV {
    pub id: int,
    pub description: Seq<char>,
}

impl View for DueNotice {
    type V = NoticeV;

    open spec fn view(&self) -> NoticeV {
        NoticeV { id: self.id as int, description: self.description@ }
    }
}

/// The notifications a due-scan at `now` emits: one per due task, in
/// store order.
pub open spec fn due_notices_spec(s: Seq<TaskV>, now: int) -> Seq<NoticeV>
    decreases s.len(),
{
    if s.len() == 0 {
        Seq::empty()
    } else {
        due_notices_spec(s.drop_last(), now) + (if is_due_spec(s.last(), now) {
            seq![NoticeV { id: s.last().id, description: s.last().description }]
        } else {
            Seq::empty()
        })
    }
}

/// Check the store invariant: every task well-formed, ids unique.
pub fn store_valid(tasks: &Vec<Task>) -> (r: bool)
    ensures
        r == store_wf(store_view(tasks@)),
{
    let ghost sv = store_view(tasks@);
    let mut i: usize = 0;
    while i < tasks.len()
        invariant
            0 <= i <= tasks@.len(),
            sv == store_view(tasks@),
            sv.len() == tasks@.len(),
            forall|a: int| 0 <= a < i ==> task_wf(#[trigger] sv[a]),
            forall|a: int, b: int| 0 <= a < b < i ==> sv[a].id != sv[b].id,
        decreases tasks@.len() - i,
    {
        proof {
            assert(sv[i as int] == tasks@[i as int]@);
        }
        if !tasks[i].valid() {
            proof {
                assert(!task_wf(sv[i as int]));
            }
            return false;
        }
        let mut j: usize = 0;
        while j < i
            invariant
                0 <= j <= i < tasks@.len(),
                sv == store_view(tasks@),
                sv.len() == tasks@.len(),
                forall|a: int| 0 <= a < j ==> (#[trigger] sv[a]).id != sv[i as int].id,
            decreases i - j,
        {
            proof {
                assert(sv[j as int] == tasks@[j as int]@);
            }
            if tasks[j].id == tasks[i].id {
                proof {
                    assert(sv[j as int].id == sv[i as int].id);
                }
                return false;
            }
            j = j + 1;
        }
        i = i + 1;
    }
    true
}

/// Index of the task with the given id, if present.
pub fn find_index(tasks: &Vec<Task>, id: u32) -> (r: Option<usize>)
    ensures
        match r {
            Some(i) => i < tasks@.len() && store_view(tasks@)[i as int].id == id,
            None => forall|i: int|
                0 <= i < tasks@.len() ==> store_view(tasks@)[i].id != id,
        },
{
    let mut i: usize = 0;
    while i < tasks.len()
        invariant
            0 <= i <= tasks@.len(),
            forall|j: int| 0 <= j < i ==> store_view(tasks@)[j].id != id,
        decreases tasks@.len() - i,
    {
        if tasks[i].id == id {
            return Some(i);
        }
        i = i + 1;
    }
    None
}

/// Largest id in the store, 0 when empty. `add` allocates this plus one.
pub fn max_id(tasks: &Vec<Task>) -> (r: u32)
    ensures
        r == max_id_spec(store_view(tasks@)),
{
    let ghost sv = store_view(tasks@);
    let mut m: u32 = 0;
    let mut i: usize = 0;
    proof {
        assert(sv.take(0) =~= Seq::<TaskV>::empty());
    }
    while i < tasks.len()
        invariant
            0 <= i <= tasks@.len(),
            sv == store_view(tasks@),
            sv.len() == tasks@.len(),
            m == max_id_spec(sv.take(i as int)),
        decreases tasks@.len() - i,
    {
        proof {
            assert(sv.take(i + 1).drop_last() =~= sv.take(i as int));
            assert(sv.take(i + 1).last() == sv[i as int]);
        }
        if tasks[i].id > m {
            m = tasks[i].id;
        }
        i = i + 1;
    }
    proof {
        assert(sv.take(sv.len() as int) =~= sv);
    }
    m
}

/// Add a new task: the next id is the largest existing id plus one
/// (ids of archived tasks are never reused), the task starts not done,
/// not archived, with no sessions, and is appended at the end.
pub fn add(tasks: &mut Vec<Task>, description: Vec<char>) -> (id: u32)
    requires
        store_wf(store_view(old(tasks)@)),
        description@.len() > 0,
        max_id_spec(store_view(old(tasks)@)) < u32::MAX,
    ensures
        id == max_id_spec(store_view(old(tasks)@)) + 1,
        store_view(final(tasks)@) == store_view(old(tasks)@).push(
            TaskV {
                id: id as int,
                description: description@,
                done: false,
                archived: false,
                sessions: Seq::empty(),
            },
        ),
        store_wf(store_view(final(tasks)@)),
{
    let ghost oldv = store_view(old(tasks)@);
    proof {
        lemma_max_id_bound(oldv);
    }
    let next = max_id(tasks) + 1;
    let t = Task::new(next, description);
    let ghost tv = t@;
    tasks.push(t);
    proof {
        assert(store_view(final(tasks)@) =~~= oldv.push(tv));
        assert(forall|i: int| 0 <= i < oldv.len() ==> oldv.push(tv)[i] == oldv[i]);
    }
    next
}

/// Set the done flag of the task with the given id; `TaskNotFound`,
/// with the store unchanged, iff no task has that id.
pub fn set_done(tasks: &mut Vec<Task>, id: u32, value: bool) -> (r: Result<(), StoreError>)
    requires
        store_wf(store_view(old(tasks)@)),
    ensures
        store_wf(store_view(final(tasks)@)),
        r is Ok <==> exists|i: int|
            0 <= i < old(tasks)@.len() && (#[trigger] store_view(old(tasks)@)[i]).id == id,
        r is Err ==> r == Err::<(), StoreError>(StoreError::TaskNotFound) && final(tasks)@ == old(
            tasks,
        )@,
        r is Ok ==> exists|i: int|
            0 <= i < old(tasks)@.len() && (#[trigger] store_view(old(tasks)@)[i]).id == id
                && store_view(final(tasks)@) == store_view(old(tasks)@).update(
                i,
                TaskV { done: value, ..store_view(old(tasks)@)[i] },
            ),
{
    let ghost oldv = store_view(old(tasks)@);
    match find_index(tasks, id) {
        Some(i) => {
            let t = &mut tasks[i];
            t.done = value;
            proof {
                assert(store_view(final(tasks)@) =~~= oldv.update(
                    i as int,
                    TaskV { done: value, ..oldv[i as int] },
                ));
            }
            Ok(())
        },
        None => Err(StoreError::TaskNotFound),
    }
}

/// Set the archived flag of the task with the given id; `TaskNotFound`,
/// with the store unchanged, iff no task has that id.
pub fn set_archived(tasks: &mut Vec<Task>, id: u32, value: bool) -> (r: Result<(), StoreError>)
    requires
        store_wf(store_view(old(tasks)@)),
    ensures
        store_wf(store_view(final(tasks)@)),
        r is Ok <==> exists|i: int|
            0 <= i < old(tasks)@.len() && (#[trigger] store_view(old(tasks)@)[i]).id == id,
        r is Err ==> r == Err::<(), StoreError>(StoreError::TaskNotFound) && final(tasks)@ == old(
            tasks,
        )@,
        r is Ok ==> exists|i: int|
            0 <= i < old(tasks)@.len() && (#[trigger] store_view(old(tasks)@)[i]).id == id
                && store_view(final(tasks)@) == store_view(old(tasks)@).update(
                i,
                TaskV { archived: value, ..store_view(old(tasks)@)[i] },
            ),
{
    let ghost oldv = store_view(old(tasks)@);
    match find_index(tasks, id) {
        Some(i) => {
            let t = &mut tasks[i];
            t.archived = value;
            proof {
                assert(store_view(final(tasks)@) =~~= oldv.update(
                    i as int,
                    TaskV { archived: value, ..oldv[i as int] },
                ));
            }
            Ok(())
        },
        None => Err(StoreError::TaskNotFound),
    }
}

/// Archive every task that is done; every other task is untouched.
/// Idempotent.
pub fn archive_all_done(tasks: &mut Vec<Task>)
    requires
        store_wf(store_view(old(tasks)@)),
    ensures
        store_wf(store_view(final(tasks)@)),
        final(tasks)@.len() == old(tasks)@.len(),
        forall|i: int|
            0 <= i < old(tasks)@.len() ==> store_view(final(tasks)@)[i] == (TaskV {
                archived: store_view(old(tasks)@)[i].archived || store_view(old(tasks)@)[i].done,
                ..store_view(old(tasks)@)[i]
            }),
{
    let ghost oldv = store_view(old(tasks)@);
    let mut i: usize = 0;
    while i < tasks.len()
        invariant
            0 <= i <= tasks@.len(),
            tasks@.len() == oldv.len(),
            oldv == store_view(old(tasks)@),
            forall|j: int|
                0 <= j < i ==> store_view(tasks@)[j] == (TaskV {
                    archived: oldv[j].archived || oldv[j].done,
                    ..oldv[j]
                }),
            forall|j: int| i <= j < tasks@.len() ==> store_view(tasks@)[j] == oldv[j],
        decreases tasks@.len() - i,
    {
        let ghost before = tasks@;
        if tasks[i].done {
            let t = &mut tasks[i];
            t.archived = true;
        }
        proof {
            assert(store_view(tasks@)[i as int] =~~= (TaskV {
                archived: oldv[i as int].archived || oldv[i as int].done,
                ..oldv[i as int]
            }));
            assert forall|j: int| 0 <= j < i + 1 implies store_view(tasks@)[j] == (TaskV {
                archived: oldv[j].archived || oldv[j].done,
                ..oldv[j]
            }) by {
                if j < i {
                    assert(tasks@[j] == before[j]);
                    assert(store_view(tasks@)[j] == store_view(before)[j]);
                    assert(store_view(before)[j] == (TaskV {
                        archived: oldv[j].archived || oldv[j].done,
                        ..oldv[j]
                    }));
                }
            }
            assert forall|j: int| i + 1 <= j < tasks@.len() implies store_view(tasks@)[j]
                == oldv[j] by {
                assert(tasks@[j] == before[j]);
                assert(store_view(tasks@)[j] == store_view(before)[j]);
            }
        }
        i = i + 1;
    }
    proof {
        assert(forall|j: int|
            0 <= j < oldv.len() ==> store_view(final(tasks)@)[j] == (TaskV {
                archived: oldv[j].archived || oldv[j].done,
                ..oldv[j]
            }));
        assert(forall|j: int| 0 <= j < oldv.len() ==> task_wf(oldv[j]) && task_wf(
            #[trigger] store_view(final(tasks)@)[j],
        ));
    }
}

/// Start a session at `now` on the task with the given id.
pub fn start_session(tasks: &mut Vec<Task>, id: u32, now: i64) -> (r: Result<(), StoreError>)
    requires
        store_wf(store_view(old(tasks)@)),
        valid_ts(now as int),
    ensures
        store_wf(store_view(final(tasks)@)),
        r is Err ==> store_view(final(tasks)@) == store_view(old(tasks)@),
        r == Err::<(), StoreError>(StoreError::TaskNotFound) <==> (forall|i: int|
            0 <= i < old(tasks)@.len() ==> (#[trigger] store_view(old(tasks)@)[i]).id != id),
        r is Ok <==> exists|i: int|
            0 <= i < old(tasks)@.len() && (#[trigger] store_view(old(tasks)@)[i]).id == id
                && !has_open_spec(store_view(old(tasks)@)[i]),
        r is Ok ==> exists|i: int|
            0 <= i < old(tasks)@.len() && (#[trigger] store_view(old(tasks)@)[i]).id == id
                && store_view(final(tasks)@) == store_view(old(tasks)@).update(
                i,
                TaskV {
                    sessions: store_view(old(tasks)@)[i].sessions.push(
                        SessionV { start: now as int, end: None },
                    ),
                    ..store_view(old(tasks)@)[i]
                },
            ),
    {
    let ghost oldv = store_view(old(tasks)@);
    match find_index(tasks, id) {
        Some(i) => {
            let t = &mut tasks[i];
            let res = t.start_session(now);
            proof {
                if res is Ok {
                    assert(store_view(final(tasks)@) =~~= oldv.update(
                        i as int,
                        TaskV {
                            sessions: oldv[i as int].sessions.push(
                                SessionV { start: now as int, end: None },
                            ),
                            ..oldv[i as int]
                        },
                    ));
                } else {
                    assert(store_view(final(tasks)@) =~~= store_view(old(tasks)@));
                }
            }
            res
        },
        None => Err(StoreError::TaskNotFound),
    }
}

/// Finish the open session at `now` on the task with the given id.
pub fn finish_session(tasks: &mut Vec<Task>, id: u32, now: i64) -> (r: Result<(), StoreError>)
    requires
        store_wf(store_view(old(tasks)@)),
        valid_ts(now as int),
        forall|i: int|
            0 <= i < old(tasks)@.len() && (#[trigger] store_view(old(tasks)@)[i]).id == id
                && has_open_spec(store_view(old(tasks)@)[i]) ==> store_view(old(tasks)@)[
                i
            ].sessions.last().start <= now,
    ensures
        store_wf(store_view(final(tasks)@)),
        r is Err ==> store_view(final(tasks)@) == store_view(old(tasks)@),
        r == Err::<(), StoreError>(StoreError::TaskNotFound) <==> (forall|i: int|
            0 <= i < old(tasks)@.len() ==> (#[trigger] store_view(old(tasks)@)[i]).id != id),
        r is Ok <==> exists|i: int|
            0 <= i < old(tasks)@.len() && (#[trigger] store_view(old(tasks)@)[i]).id == id
                && has_open_spec(store_view(old(tasks)@)[i]),
        r is Ok ==> exists|i: int|
            {
                let tv = store_view(old(tasks)@)[i];
                0 <= i < old(tasks)@.len() && (#[trigger] store_view(old(tasks)@)[i]).id == id
                    && store_view(final(tasks)@) == store_view(old(tasks)@).update(
                    i,
                    TaskV {
                        sessions: tv.sessions.update(
                            tv.sessions.len() - 1,
                            SessionV { start: tv.sessions.last().start, end: Some(now as int) },
                        ),
                        ..tv
                    },
                )
            },
    {
    let ghost oldv = store_view(old(tasks)@);
    match find_index(tasks, id) {
        Some(i) => {
            let t = &mut tasks[i];
            let res = t.finish_session(now);
            proof {
                if res is Ok {
                    let tv = oldv[i as int];
                    assert(store_view(final(tasks)@) =~~= oldv.update(
                        i as int,
                        TaskV {
                            sessions: tv.sessions.update(
                                tv.sessions.len() - 1,
                                SessionV { start: tv.sessions.last().start, end: Some(now as int) },
                            ),
                            ..tv
                        },
                    ));
                } else {
                    assert(store_view(final(tasks)@) =~~= store_view(old(tasks)@));
                }
            }
            res
        },
        None => Err(StoreError::TaskNotFound),
    }
}

/// Record `minutes` minutes of manual work ending at `now` on the task
/// with the given id; `TaskNotFound` iff no task has that id.
pub fn track_manual(tasks: &mut Vec<Task>, id: u32, now: i64, minutes: i64) -> (r: Result<
    (),
    StoreError,
>)
    requires
        store_wf(store_view(old(tasks)@)),
        valid_ts(now as int),
        0 <= minutes,
        minutes * 60 <= now,
    ensures
        store_wf(store_view(final(tasks)@)),
        r is Err ==> r == Err::<(), StoreError>(StoreError::TaskNotFound) && final(tasks)@ == old(
            tasks,
        )@,
        r is Ok <==> exists|i: int|
            0 <= i < old(tasks)@.len() && (#[trigger] store_view(old(tasks)@)[i]).id == id,
        r is Ok ==> exists|i: int|
            {
                let tv = store_view(old(tasks)@)[i];
                let s = SessionV { start: now - minutes * 60, end: Some(now as int) };
                0 <= i < old(tasks)@.len() && (#[trigger] store_view(old(tasks)@)[i]).id == id
                    && store_view(final(tasks)@) == store_view(old(tasks)@).update(
                    i,
                    TaskV {
                        sessions: if has_open_spec(tv) {
                            tv.sessions.insert(tv.sessions.len() - 1, s)
                        } else {
                            tv.sessions.push(s)
                        },
                        ..tv
                    },
                )
            },
    {
    let ghost oldv = store_view(old(tasks)@);
    match find_index(tasks, id) {
        Some(i) => {
            let t = &mut tasks[i];
            t.track_manual(now, minutes);
            proof {
                let tv = oldv[i as int];
                let s = SessionV { start: now - minutes * 60, end: Some(now as int) };
                assert(store_view(final(tasks)@) =~~= oldv.update(
                    i as int,
                    TaskV {
                        sessions: if has_open_spec(tv) {
                            tv.sessions.insert(tv.sessions.len() - 1, s)
                        } else {
                            tv.sessions.push(s)
                        },
                        ..tv
                    },
                ));
            }
            Ok(())
        },
        None => Err(StoreError::TaskNotFound),
    }
}

/// Run the due-scan over every task: close each overdue session at
/// exactly its start plus the pomodoro duration, and collect one
/// notification payload per task that just became due, in store order.
pub fn compute_due_notifications(tasks: &mut Vec<Task>, now: i64) -> (r: Vec<DueNotice>)
    requires
        store_wf(store_view(old(tasks)@)),
        valid_ts(now as int),
    ensures
        store_wf(store_view(final(tasks)@)),
        final(tasks)@.len() == old(tasks)@.len(),
        forall|i: int|
            0 <= i < old(tasks)@.len() ==> store_view(final(tasks)@)[i] == mark_due_spec(
                store_view(old(tasks)@)[i],
                now as int,
            ),
        r@.map_values(|n: DueNotice| n@) == due_notices_spec(store_view(old(tasks)@), now as int),
{
    let ghost oldv = store_view(old(tasks)@);
    let mut notices: Vec<DueNotice> = Vec::new();
    let mut i: usize = 0;
    proof {
        assert(oldv.take(0) =~= Seq::<TaskV>::empty());
        assert(notices@.map_values(|n: DueNotice| n@) =~= due_notices_spec(
            oldv.take(0),
            now as int,
        ));
    }
    while i < tasks.len()
        invariant
            0 <= i <= tasks@.len(),
            tasks@.len() == oldv.len(),
            oldv == store_view(old(tasks)@),
            store_wf(oldv),
            valid_ts(now as int),
            forall|j: int|
                0 <= j < i ==> store_view(tasks@)[j] == mark_due_spec(oldv[j], now as int),
            forall|j: int| i <= j < tasks@.len() ==> store_view(tasks@)[j] == oldv[j],
            notices@.map_values(|n: DueNotice| n@) == due_notices_spec(
                oldv.take(i as int),
                now as int,
            ),
        decreases tasks@.len() - i,
    {
        let ghost pre = notices@.map_values(|n: DueNotice| n@);
        let ghost before = tasks@;
        proof {
            assert(tasks@[i as int]@ == oldv[i as int]);
            assert(task_wf(oldv[i as int]));
        }
        let t = &mut tasks[i];
        let due = t.mark_due_and_close(now);
        proof {
            assert(store_view(tasks@)[i as int] == mark_due_spec(oldv[i as int], now as int));
            assert forall|j: int| 0 <= j < i + 1 implies store_view(tasks@)[j] == mark_due_spec(
                oldv[j],
                now as int,
            ) by {
                if j < i {
                    assert(tasks@[j] == before[j]);
                    assert(store_view(tasks@)[j] == store_view(before)[j]);
                    assert(store_view(before)[j] == mark_due_spec(oldv[j], now as int));
                }
            }
            assert forall|j: int| i + 1 <= j < tasks@.len() implies store_view(tasks@)[j]
                == oldv[j] by {
                assert(tasks@[j] == before[j]);
                assert(store_view(tasks@)[j] == store_view(before)[j]);
            }
        }
        if due {
            let notice = DueNotice { id: tasks[i].id, description: tasks[i].description.clone() };
            proof {
                assert(notice@.description =~= oldv[i as int].description);
            }
            notices.push(notice);
        }
        proof {
            assert(oldv.take(i + 1).drop_last() =~= oldv.take(i as int));
            assert(oldv.take(i + 1).last() == oldv[i as int]);
            assert(notices@.map_values(|n: DueNotice| n@) =~= due_notices_spec(
                oldv.take(i + 1),
                now as int,
            ));
        }
        i = i + 1;
    }
    proof {
        assert(oldv.take(oldv.len() as int) =~= oldv);
        assert(forall|j: int|
            0 <= j < oldv.len() ==> task_wf(#[trigger] store_view(final(tasks)@)[j])
                && store_view(final(tasks)@)[j].id == oldv[j].id);
    }
    notices
}

} // verus!
