//! Encoding a task store into the persisted character sequence.
//!
//! Every function appends to an output buffer exactly what the
//! corresponding `enc_*` function of the format specification says.

use vstd::prelude::*;
use crate::codec::{
    dec_digits, digit_char, enc_bool, enc_session, enc_sessions_from, enc_store, enc_string,
    enc_task, enc_tasks_from, enc_ts, esc_char, fixed_digits, hex_char, key_archived,
    key_description, key_done, key_end_time, key_id, key_pomodoros, key_start_time, lit_false,
    lit_null, lit_true,
};
use crate::model::{session_wf, task_wf, Session, Task};
use crate::store::{store_view, store_wf};
use crate::time::{civil_from_secs, valid_ts};

verus! {

fn digit_char_exec(d: u64) -> (r: char)
    requires
        d < 10,
    ensures
        r == digit_char(d as int),
{
    if d == 0 {
        '0'
    } else if d == 1 {
        '1'
    } else if d == 2 {
        '2'
    } else if d == 3 {
        '3'
    } else if d == 4 {
        '4'
    } else if d == 5 {
        '5'
    } else if d == 6 {
        '6'
    } else if d == 7 {
        '7'
    } else if d == 8 {
        '8'
    } else {
        '9'
    }
}

fn hex_char_exec(d: u32) -> (r: char)
    requires
        d < 16,
    ensures
        r == hex_char(d as int),
{
    if d < 10 {
        digit_char_exec(d as u64)
    } else if d == 10 {
        'a'
    } else if d == 11 {
        'b'
    } else if d == 12 {
        'c'
    } else if d == 13 {
        'd'
    } else if d == 14 {
        'e'
    } else {
        'f'
    }
}

fn push_key_id(out: &mut Vec<char>)
    ensures
        final(out)@ == old(out)@ + key_id(),
{
    out.push('"');
    out.push('i');
    out.push('d');
    out.push('"');
    proof {
        assert(final(out)@ =~= old(out)@ + key_id());
    }
}

fn push_key_description(out: &mut Vec<char>)
    ensures
        final(out)@ == old(out)@ + key_description(),
{
    out.push('"');
    out.push('d');
    out.push('e');
    out.push('s');
    out.push('c');
    out.push('r');
    out.push('i');
    out.push('p');
    out.push('t');
    out.push('i');
    out.push('o');
    out.push('n');
    out.push('"');
    proof {
        assert(final(out)@ =~= old(out)@ + key_description());
    }
}

fn push_key_done(out: &mut Vec<char>)
    ensures
        final(out)@ == old(out)@ + key_done(),
{
    out.push('"');
    out.push('d');
    out.push('o');
    out.push('n');
    out.push('e');
    out.push('"');
    proof {
        assert(final(out)@ =~= old(out)@ + key_done());
    }
}

fn push_key_archived(out: &mut Vec<char>)
    ensures
        final(out)@ == old(out)@ + key_archived(),
{
    out.push('"');
    out.push('a');
    out.push('r');
    out.push('c');
    out.push('h');
    out.push('i');
    out.push('v');
    out.push('e');
    out.push('d');
    out.push('"');
    proof {
        assert(final(out)@ =~= old(out)@ + key_archived());
    }
}

fn push_key_pomodoros(out: &mut Vec<char>)
    ensures
        final(out)@ == old(out)@ + key_pomodoros(),
{
    out.push('"');
    out.push('p');
    out.push('o');
    out.push('m');
    out.push('o');
    out.push('d');
    out.push('o');
    out.push('r');
    out.push('o');
    out.push('s');
    out.push('"');
    proof {
        assert(final(out)@ =~= old(out)@ + key_pomodoros());
    }
}

fn push_key_start_time(out: &mut Vec<char>)
    ensures
        final(out)@ == old(out)@ + key_start_time(),
{
    out.push('"');
    out.push('s');
    out.push('t');
    out.push('a');
    out.push('r');
    out.push('t');
    out.push('_');
    out.push('t');
    out.push('i');
    out.push('m');
    out.push('e');
    out.push('"');
    proof {
        assert(final(out)@ =~= old(out)@ + key_start_time());
    }
}

fn push_key_end_time(out: &mut Vec<char>)
    ensures
        final(out)@ == old(out)@ + key_end_time(),
{
    out.push('"');
    out.push('e');
    out.push('n');
    out.push('d');
    out.push('_');
    out.push('t');
    out.push('i');
    out.push('m');
    out.push('e');
    out.push('"');
    proof {
        assert(final(out)@ =~= old(out)@ + key_end_time());
    }
}

fn push_bool(out: &mut Vec<char>, b: bool)
    ensures
        final(out)@ == old(out)@ + enc_bool(b),
{
    if b {
        out.push('t');
        out.push('r');
        out.push('u');
        out.push('e');
        proof {
            assert(final(out)@ =~= old(out)@ + lit_true());
        }
    } else {
        out.push('f');
        out.push('a');
        out.push('l');
        out.push('s');
        out.push('e');
        proof {
            assert(final(out)@ =~= old(out)@ + lit_false());
        }
    }
}

fn push_null(out: &mut Vec<char>)
    ensures
        final(out)@ == old(out)@ + lit_null(),
{
    out.push('n');
    out.push('u');
    out.push('l');
    out.push('l');
    proof {
        assert(final(out)@ =~= old(out)@ + lit_null());
    }
}

fn push_dec_digits(out: &mut Vec<char>, n: u64)
    ensures
        final(out)@ == old(out)@ + dec_digits(n as int),
    decreases n,
{
    if n < 10 {
        out.push(digit_char_exec(n));
        proof {
            assert(final(out)@ =~= old(out)@ + dec_digits(n as int));
        }
    } else {
        push_dec_digits(out, n / 10);
        out.push(digit_char_exec(n % 10));
        proof {
            assert(final(out)@ =~= old(out)@ + dec_digits(n as int));
        }
    }
}

fn push_fixed(out: &mut Vec<char>, n: u64, k: usize)
    ensures
        final(out)@ == old(out)@ + fixed_digits(n as int, k as nat),
    decreases k,
{
    if k == 0 {
        proof {
            assert(final(out)@ =~= old(out)@ + fixed_digits(n as int, 0));
        }
    } else {
        push_fixed(out, n / 10, k - 1);
        out.push(digit_char_exec(n % 10));
        proof {
            assert(final(out)@ =~= old(out)@ + fixed_digits(n as int, k as nat));
        }
    }
}

fn push_ts(out: &mut Vec<char>, t: i64)
    requires
        valid_ts(t as int),
    ensures
        final(out)@ == old(out)@ + enc_ts(t as int),
{
    let (y, m, d, h, mi, s) = civil_from_secs(t);
    push_fixed(out, y as u64, 4);
    out.push('-');
    push_fixed(out, m as u64, 2);
    out.push('-');
    push_fixed(out, d as u64, 2);
    out.push('T');
    push_fixed(out, h as u64, 2);
    out.push(':');
    push_fixed(out, mi as u64, 2);
    out.push(':');
    push_fixed(out, s as u64, 2);
    out.push('Z');
    proof {
        assert(final(out)@ =~= old(out)@ + enc_ts(t as int));
    }
}

fn push_esc_char(out: &mut Vec<char>, c: char)
    ensures
        final(out)@ == old(out)@ + esc_char(c),
{
    if c == '"' {
        out.push('\\');
        out.push('"');
    } else if c == '\\' {
        out.push('\\');
        out.push('\\');
    } else if (c as u32) < 32 {
        out.push('\\');
        out.push('u');
        out.push('0');
        out.push('0');
        out.push(hex_char_exec((c as u32) / 16));
        out.push(hex_char_exec((c as u32) % 16));
    } else {
        out.push(c);
    }
    proof {
        assert(final(out)@ =~= old(out)@ + esc_char(c));
    }
}

fn push_string(out: &mut Vec<char>, s: &Vec<char>)
    ensures
        final(out)@ == old(out)@ + enc_string(s@),
{
    let mut i: usize = 0;
    proof {
        assert(s@.take(0) =~= Seq::<char>::empty());
        assert(out@ =~= old(out)@ + enc_string(s@.take(0)));
    }
    while i < s.len()
        invariant
            0 <= i <= s@.len(),
            out@ == old(out)@ + enc_string(s@.take(i as int)),
        decreases s@.len() - i,
    {
        push_esc_char(out, s[i]);
        proof {
            assert(s@.take(i + 1).drop_last() =~= s@.take(i as int));
            assert(s@.take(i + 1).last() == s@[i as int]);
            assert(out@ =~= old(out)@ + enc_string(s@.take(i + 1)));
        }
        i = i + 1;
    }
    proof {
        assert(s@.take(s@.len() as int) =~= s@);
    }
}

fn push_session(out: &mut Vec<char>, s: &Session)
    requires
        session_wf(s@),
    ensures
        final(out)@ == old(out)@ + enc_session(s@),
{
    out.push('{');
    push_key_start_time(out);
    out.push(':');
    out.push('"');
    push_ts(out, s.start);
    out.push('"');
    out.push(',');
    push_key_end_time(out);
    out.push(':');
    match s.end {
        Some(e) => {
            out.push('"');
            push_ts(out, e);
            out.push('"');
        },
        None => {
            push_null(out);
        },
    }
    out.push('}');
    proof {
        assert(final(out)@ =~= old(out)@ + enc_session(s@));
    }
}

fn push_sessions_from(out: &mut Vec<char>, ss: &Vec<Session>, i: usize)
    requires
        i <= ss@.len(),
        forall|j: int| 0 <= j < ss@.len() ==> session_wf((#[trigger] ss@[j])@),
    ensures
        final(out)@ == old(out)@ + enc_sessions_from(ss@.map_values(|x: Session| x@), i as int),
    decreases ss@.len() - i,
{
    let ghost sv = ss@.map_values(|x: Session| x@);
    if i == ss.len() {
        proof {
            assert(final(out)@ =~= old(out)@ + enc_sessions_from(sv, i as int));
        }
    } else {
        if i > 0 {
            out.push(',');
        }
        proof {
            assert(sv[i as int] == ss@[i as int]@);
        }
        push_session(out, &ss[i]);
        push_sessions_from(out, ss, i + 1);
        proof {
            assert(final(out)@ =~= old(out)@ + enc_sessions_from(sv, i as int));
        }
    }
}

#[verifier::rlimit(80)]
fn push_task(out: &mut Vec<char>, t: &Task)
    requires
        task_wf(t@),
    ensures
        final(out)@ == old(out)@ + enc_task(t@),
{
    let ghost o0 = old(out)@;
    out.push('{');
    push_key_id(out);
    out.push(':');
    let ghost e1 = seq!['{'] + key_id() + seq![':'];
    proof {
        assert(out@ =~= o0 + e1);
    }
    push_dec_digits(out, t.id as u64);
    let ghost e2 = e1 + dec_digits(t@.id);
    proof {
        assert(out@ =~= o0 + e2);
    }
    out.push(',');
    push_key_description(out);
    out.push(':');
    out.push('"');
    let ghost e3 = e2 + seq![','] + key_description() + seq![':', '"'];
    proof {
        assert(out@ =~= o0 + e3);
    }
    push_string(out, &t.description);
    let ghost e4 = e3 + enc_string(t@.description);
    proof {
        assert(out@ =~= o0 + e4);
    }
    out.push('"');
    out.push(',');
    push_key_done(out);
    out.push(':');
    push_bool(out, t.done);
    let ghost e5 = e4 + seq!['"', ','] + key_done() + seq![':'] + enc_bool(t@.done);
    proof {
        assert(out@ =~= o0 + e5);
    }
    out.push(',');
    push_key_archived(out);
    out.push(':');
    push_bool(out, t.archived);
    let ghost e6 = e5 + seq![','] + key_archived() + seq![':'] + enc_bool(t@.archived);
    proof {
        assert(out@ =~= o0 + e6);
    }
    out.push(',');
    push_key_pomodoros(out);
    out.push(':');
    out.push('[');
    let ghost e7 = e6 + seq![','] + key_pomodoros() + seq![':', '['];
    proof {
        assert(out@ =~= o0 + e7);
        assert forall|j: int| 0 <= j < t.sessions@.len() implies session_wf(
            (#[trigger] t.sessions@[j])@,
        ) by {
            assert(t@.sessions[j] == t.sessions@[j]@);
        }
    }
    push_sessions_from(out, &t.sessions, 0);
    out.push(']');
    out.push('}');
    let ghost e8 = e7 + enc_sessions_from(t@.sessions, 0) + seq![']', '}'];
    proof {
        assert(out@ =~= o0 + e8);
        assert(e8 =~= enc_task(t@));
    }
}

fn push_tasks_from(out: &mut Vec<char>, tasks: &Vec<Task>, i: usize)
    requires
        i <= tasks@.len(),
        forall|j: int| 0 <= j < tasks@.len() ==> task_wf((#[trigger] tasks@[j])@),
    ensures
        final(out)@ == old(out)@ + enc_tasks_from(store_view(tasks@), i as int),
    decreases tasks@.len() - i,
{
    let ghost sv = store_view(tasks@);
    if i == tasks.len() {
        proof {
            assert(final(out)@ =~= old(out)@ + enc_tasks_from(sv, i as int));
        }
    } else {
        if i > 0 {
            out.push(',');
        }
        proof {
            assert(sv[i as int] == tasks@[i as int]@);
        }
        push_task(out, &tasks[i]);
        push_tasks_from(out, tasks, i + 1);
        proof {
            assert(final(out)@ =~= old(out)@ + enc_tasks_from(sv, i as int));
        }
    }
}

/// Encode the whole store: exactly the character sequence that
/// `enc_store` of the format specification describes.
pub fn encode_store(tasks: &Vec<Task>) -> (r: Vec<char>)
    requires
        store_wf(store_view(tasks@)),
    ensures
        r@ == enc_store(store_view(tasks@)),
{
    proof {
        assert forall|j: int| 0 <= j < tasks@.len() implies task_wf((#[trigger] tasks@[j])@) by {
            assert(store_view(tasks@)[j] == tasks@[j]@);
        }
    }
    let mut out: Vec<char> = Vec::new();
    out.push('[');
    push_tasks_from(&mut out, tasks, 0);
    out.push(']');
    proof {
        assert(out@ =~= enc_store(store_view(tasks@)));
    }
    out
}

} // verus!
