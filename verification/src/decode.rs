//! Decoding the persisted character sequence back into a task store.
//!
//! Each function mirrors one `parse_*` function of the format
//! specification and returns exactly what it describes; the top-level
//! `decode_store` also checks the store invariant, so a malformed
//! document — unparseable, or parseable but ill-formed — is rejected
//! as a whole.

use vstd::prelude::*;
use crate::codec::{
    chk, decode_store_spec, digit_run_end, digits_val, expect, hex_val, is_digit, is_hex, is_ws, key_archived, key_description, key_done, key_end_time, key_id, key_pomodoros, key_start_time, lemma_pow10_mono, lit_false, lit_null, lit_true, lit_utc_offset, parse_bool, parse_end_value, parse_fixed, parse_nat, parse_quoted_ts, parse_session, parse_sessions, parse_sessions_rest, parse_store, parse_task, parse_task_tail, parse_tasks, parse_tasks_rest, parse_ts, pow10, short_escape, sw,
};
use crate::model::{Session, SessionV, Task, TaskV};
use crate::store::{store_valid, store_view, store_wf};
use crate::time::{days_from_civil_exec, days_in_month_exec, TS_MAX};

verus! {

/// Decoding failure: the file contents do not hold a well-formed
/// task store in the persisted format.
#[derive(Clone, Copy, PartialEq, Eq, Structural, Debug)]
pub enum DecodeError {
    Malformed,
}

fn is_ws_exec(c: char) -> (r: bool)
    ensures
        r == is_ws(c),
{
    c == ' ' || c == '\n' || c == '\r' || c == '\t'
}

fn is_digit_exec(c: char) -> (r: bool)
    ensures
        r == is_digit(c),
{
    let v = c as u32;
    48 <= v && v <= 57
}

fn is_hex_exec(c: char) -> (r: bool)
    ensures
        r == is_hex(c),
{
    let v = c as u32;
    (48 <= v && v <= 57) || (97 <= v && v <= 102) || (65 <= v && v <= 70)
}

fn hex_val_exec(c: char) -> (r: u32)
    requires
        is_hex(c),
    ensures
        r == hex_val(c),
        r < 16,
{
    let v = c as u32;
    if 48 <= v && v <= 57 {
        v - 48
    } else if 97 <= v && v <= 102 {
        v - 87
    } else {
        v - 55
    }
}

fn skip_ws_exec(input: &Vec<char>, pos: usize) -> (r: usize)
    requires
        pos <= input@.len(),
    ensures
        r as int == sw(input@, pos as int),
        pos <= r <= input@.len(),
{
    let mut p = pos;
    while p < input.len() && is_ws_exec(input[p])
        invariant
            pos <= p <= input@.len(),
            sw(input@, pos as int) == sw(input@, p as int),
        decreases input@.len() - p,
    {
        p = p + 1;
    }
    p
}

fn digit_run_end_exec(input: &Vec<char>, pos: usize) -> (r: usize)
    requires
        pos <= input@.len(),
    ensures
        r as int == digit_run_end(input@, pos as int),
        pos <= r <= input@.len(),
        forall|k: int| pos <= k < r ==> is_digit(#[trigger] input@[k]),
{
    let mut p = pos;
    while p < input.len() && is_digit_exec(input[p])
        invariant
            pos <= p <= input@.len(),
            digit_run_end(input@, pos as int) == digit_run_end(input@, p as int),
            forall|k: int| pos <= k < p ==> is_digit(#[trigger] input@[k]),
        decreases input@.len() - p,
    {
        p = p + 1;
    }
    p
}

fn chk_exec(input: &Vec<char>, pos: usize, c: char) -> (r: Option<usize>)
    requires
        pos <= input@.len(),
    ensures
        match r {
            Some(e) => chk(input@, pos as int, c) == Some(e as int) && pos < e <= input@.len(),
            None => chk(input@, pos as int, c) is None,
        },
{
    if pos < input.len() && input[pos] == c {
        Some(pos + 1)
    } else {
        None
    }
}

fn tokc_exec(input: &Vec<char>, pos: usize, c: char) -> (r: Option<usize>)
    requires
        pos <= input@.len(),
    ensures
        match r {
            Some(e) => crate::codec::tokc(input@, pos as int, c) == Some(e as int) && pos < e
                <= input@.len(),
            None => crate::codec::tokc(input@, pos as int, c) is None,
        },
{
    let p = skip_ws_exec(input, pos);
    chk_exec(input, p, c)
}

fn expect_exec(input: &Vec<char>, pos: usize, lit: &Vec<char>) -> (r: Option<usize>)
    requires
        pos <= input@.len(),
    ensures
        match r {
            Some(e) => expect(input@, pos as int, lit@) == Some(e as int) && pos <= e
                <= input@.len() && e == pos + lit@.len(),
            None => expect(input@, pos as int, lit@) is None,
        },
{
    if input.len() - pos < lit.len() {
        return None;
    }
    let mut i: usize = 0;
    while i < lit.len()
        invariant
            0 <= i <= lit@.len(),
            pos + lit@.len() <= input@.len(),
            input@.len() <= usize::MAX,
            forall|j: int| 0 <= j < i ==> input@[pos + j] == lit@[j],
        decreases lit@.len() - i,
    {
        if input[pos + i] != lit[i] {
            proof {
                let sub = input@.subrange(pos as int, pos + lit@.len());
                if sub == lit@ {
                    assert(sub[i as int] == input@[pos + i]);
                    assert(false);
                }
            }
            return None;
        }
        i = i + 1;
    }
    proof {
        assert(input@.subrange(pos as int, pos + lit@.len()) =~= lit@);
    }
    Some(pos + lit.len())
}

fn tokl_exec(input: &Vec<char>, pos: usize, lit: &Vec<char>) -> (r: Option<usize>)
    requires
        pos <= input@.len(),
    ensures
        match r {
            Some(e) => crate::codec::tokl(input@, pos as int, lit@) == Some(e as int) && pos <= e
                <= input@.len() && (lit@.len() > 0 ==> pos < e),
            None => crate::codec::tokl(input@, pos as int, lit@) is None,
        },
{
    let p = skip_ws_exec(input, pos);
    expect_exec(input, p, lit)
}

fn key_id_vec() -> (r: Vec<char>)
    ensures
        r@ == key_id(),
{
    let mut v: Vec<char> = Vec::new();
    v.push('"');
    v.push('i');
    v.push('d');
    v.push('"');
    proof {
        assert(v@ =~= key_id());
    }
    v
}

fn key_description_vec() -> (r: Vec<char>)
    ensures
        r@ == key_description(),
{
    let mut v: Vec<char> = Vec::new();
    v.push('"');
    v.push('d');
    v.push('e');
    v.push('s');
    v.push('c');
    v.push('r');
    v.push('i');
    v.push('p');
    v.push('t');
    v.push('i');
    v.push('o');
    v.push('n');
    v.push('"');
    proof {
        assert(v@ =~= key_description());
    }
    v
}

fn key_done_vec() -> (r: Vec<char>)
    ensures
        r@ == key_done(),
{
    let mut v: Vec<char> = Vec::new();
    v.push('"');
    v.push('d');
    v.push('o');
    v.push('n');
    v.push('e');
    v.push('"');
    proof {
        assert(v@ =~= key_done());
    }
    v
}

fn key_archived_vec() -> (r: Vec<char>)
    ensures
        r@ == key_archived(),
{
    let mut v: Vec<char> = Vec::new();
    v.push('"');
    v.push('a');
    v.push('r');
    v.push('c');
    v.push('h');
    v.push('i');
    v.push('v');
    v.push('e');
    v.push('d');
    v.push('"');
    proof {
        assert(v@ =~= key_archived());
    }
    v
}

fn key_pomodoros_vec() -> (r: Vec<char>)
    ensures
        r@ == key_pomodoros(),
{
    let mut v: Vec<char> = Vec::new();
    v.push('"');
    v.push('p');
    v.push('o');
    v.push('m');
    v.push('o');
    v.push('d');
    v.push('o');
    v.push('r');
    v.push('o');
    v.push('s');
    v.push('"');
    proof {
        assert(v@ =~= key_pomodoros());
    }
    v
}

fn key_start_time_vec() -> (r: Vec<char>)
    ensures
        r@ == key_start_time(),
{
    let mut v: Vec<char> = Vec::new();
    v.push('"');
    v.push('s');
    v.push('t');
    v.push('a');
    v.push('r');
    v.push('t');
    v.push('_');
    v.push('t');
    v.push('i');
    v.push('m');
    v.push('e');
    v.push('"');
    proof {
        assert(v@ =~= key_start_time());
    }
    v
}

fn key_end_time_vec() -> (r: Vec<char>)
    ensures
        r@ == key_end_time(),
{
    let mut v: Vec<char> = Vec::new();
    v.push('"');
    v.push('e');
    v.push('n');
    v.push('d');
    v.push('_');
    v.push('t');
    v.push('i');
    v.push('m');
    v.push('e');
    v.push('"');
    proof {
        assert(v@ =~= key_end_time());
    }
    v
}

fn lit_true_vec() -> (r: Vec<char>)
    ensures
        r@ == lit_true(),
{
    let mut v: Vec<char> = Vec::new();
    v.push('t');
    v.push('r');
    v.push('u');
    v.push('e');
    proof {
        assert(v@ =~= lit_true());
    }
    v
}

fn lit_false_vec() -> (r: Vec<char>)
    ensures
        r@ == lit_false(),
{
    let mut v: Vec<char> = Vec::new();
    v.push('f');
    v.push('a');
    v.push('l');
    v.push('s');
    v.push('e');
    proof {
        assert(v@ =~= lit_false());
    }
    v
}

fn lit_null_vec() -> (r: Vec<char>)
    ensures
        r@ == lit_null(),
{
    let mut v: Vec<char> = Vec::new();
    v.push('n');
    v.push('u');
    v.push('l');
    v.push('l');
    proof {
        assert(v@ =~= lit_null());
    }
    v
}

fn lit_utc_offset_vec() -> (r: Vec<char>)
    ensures
        r@ == lit_utc_offset(),
{
    let mut v: Vec<char> = Vec::new();
    v.push('+');
    v.push('0');
    v.push('0');
    v.push(':');
    v.push('0');
    v.push('0');
    proof {
        assert(v@ =~= lit_utc_offset());
    }
    v
}

/// Fold a run of already-checked digits into its value.
fn digits_value_exec(input: &Vec<char>, from: usize, to: usize) -> (r: u64)
    requires
        from <= to <= input@.len(),
        to - from <= 10,
        forall|k: int| from <= k < to ==> is_digit(#[trigger] input@[k]),
    ensures
        r == digits_val(input@.subrange(from as int, to as int)),
        r < pow10((to - from) as nat),
{
    proof {
        assert(pow10(10) == 10000000000) by {
            reveal_with_fuel(pow10, 11);
        }
    }
    let n = input.len();
    proof {
        assert(input@.len() <= usize::MAX);
    }
    let mut acc: u64 = 0;
    let mut i: usize = 0;
    proof {
        assert(input@.subrange(from as int, from as int) =~= Seq::<char>::empty());
    }
    while i < to - from
        invariant
            0 <= i <= to - from,
            from <= to <= input@.len(),
            input@.len() <= usize::MAX,
            to - from <= 10,
            forall|k: int| from <= k < to ==> is_digit(#[trigger] input@[k]),
            acc == digits_val(input@.subrange(from as int, from + i)),
            acc < pow10(i as nat),
            pow10(10) == 10000000000,
        decreases to - from - i,
    {
        proof {
            lemma_pow10_mono(i as nat, 9);
            assert(pow10(9) == 1000000000) by {
                reveal_with_fuel(pow10, 10);
            }
            assert(input@.subrange(from as int, from + i + 1).drop_last() =~= input@.subrange(
                from as int,
                from + i,
            ));
            assert(input@.subrange(from as int, from + i + 1).last() == input@[from + i]);
        }
        let c = input[from + i];
        let d = (c as u32) - 48;
        acc = acc * 10 + (d as u64);
        i = i + 1;
    }
    proof {
        lemma_pow10_mono(((to - from) as nat), 10);
    }
    acc
}

fn parse_nat_exec(input: &Vec<char>, pos: usize) -> (r: Option<(u64, usize)>)
    requires
        pos <= input@.len(),
    ensures
        match r {
            Some((v, e)) => parse_nat(input@, pos as int) == Some((v as int, e as int)) && pos < e
                <= input@.len(),
            None => parse_nat(input@, pos as int) is None,
        },
{
    let p = skip_ws_exec(input, pos);
    let e = digit_run_end_exec(input, p);
    if e == p || e - p > 10 {
        None
    } else {
        let v = digits_value_exec(input, p, e);
        Some((v, e))
    }
}

fn parse_fixed_exec(input: &Vec<char>, pos: usize, k: usize) -> (r: Option<(u64, usize)>)
    requires
        pos <= input@.len(),
        k <= 10,
    ensures
        match r {
            Some((v, e)) => parse_fixed(input@, pos as int, k as int) == Some((v as int, e as int))
                && e == pos + k && e <= input@.len() && v < pow10(k as nat),
            None => parse_fixed(input@, pos as int, k as int) is None,
        },
{
    if input.len() - pos < k {
        return None;
    }
    let n = input.len();
    proof {
        assert(input@.len() <= usize::MAX);
    }
    let mut i: usize = 0;
    while i < k
        invariant
            0 <= i <= k,
            pos + k <= input@.len(),
            input@.len() <= usize::MAX,
            forall|j: int| pos <= j < pos + i ==> is_digit(#[trigger] input@[j]),
        decreases k - i,
    {
        if !is_digit_exec(input[pos + i]) {
            proof {
                assert(!is_digit(input@[pos + i]));
            }
            return None;
        }
        i = i + 1;
    }
    let v = digits_value_exec(input, pos, pos + k);
    Some((v, pos + k))
}

fn short_escape_exec(c: char) -> (r: Option<char>)
    ensures
        r == short_escape(c),
{
    if c == '"' {
        Some('"')
    } else if c == '\\' {
        Some('\\')
    } else if c == '/' {
        Some('/')
    } else if c == 'b' {
        Some('\u{8}')
    } else if c == 'f' {
        Some('\u{c}')
    } else if c == 'n' {
        Some('\n')
    } else if c == 'r' {
        Some('\r')
    } else if c == 't' {
        Some('\t')
    } else {
        None
    }
}

fn parse_str_body_exec(input: &Vec<char>, pos: usize) -> (r: Option<(Vec<char>, usize)>)
    requires
        pos <= input@.len(),
    ensures
        match r {
            Some((v, e)) => crate::codec::parse_str_body(input@, pos as int) == Some(
                (v@, e as int),
            ) && pos < e <= input@.len(),
            None => crate::codec::parse_str_body(input@, pos as int) is None,
        },
    decreases input@.len() - pos,
{
    if pos >= input.len() {
        return None;
    }
    let c = input[pos];
    if c == '"' {
        let v: Vec<char> = Vec::new();
        proof {
            assert(v@ =~= Seq::<char>::empty());
        }
        Some((v, pos + 1))
    } else if c == '\\' {
        if input.len() - pos < 2 {
            return None;
        }
        let esc = input[pos + 1];
        match short_escape_exec(esc) {
            Some(mc) => {
                match parse_str_body_exec(input, pos + 2) {
                    Some((mut v, e)) => {
                        let ghost v0 = v@;
                        v.insert(0, mc);
                        proof {
                            assert(v@ =~= seq![mc] + v0);
                        }
                        Some((v, e))
                    },
                    None => None,
                }
            },
            None => {
                if esc == 'u' {
                    if input.len() - pos >= 6 && is_hex_exec(input[pos + 2]) && is_hex_exec(
                        input[pos + 3],
                    ) && is_hex_exec(input[pos + 4]) && is_hex_exec(input[pos + 5]) {
                        let v32 = hex_val_exec(input[pos + 2]) * 4096 + hex_val_exec(
                            input[pos + 3],
                        ) * 256 + hex_val_exec(input[pos + 4]) * 16 + hex_val_exec(input[pos + 5]);
                        if v32 <= 255 {
                            match parse_str_body_exec(input, pos + 6) {
                                Some((mut v, e)) => {
                                    let ghost v0 = v@;
                                    let mc = (v32 as u8) as char;
                                    v.insert(0, mc);
                                    proof {
                                        assert(v@ =~= seq![mc] + v0);
                                    }
                                    Some((v, e))
                                },
                                None => None,
                            }
                        } else {
                            None
                        }
                    } else {
                        None
                    }
                } else {
                    None
                }
            },
        }
    } else if (c as u32) < 32 {
        None
    } else {
        match parse_str_body_exec(input, pos + 1) {
            Some((mut v, e)) => {
                let ghost v0 = v@;
                v.insert(0, c);
                proof {
                    assert(v@ =~= seq![c] + v0);
                }
                Some((v, e))
            },
            None => None,
        }
    }
}

fn parse_ts_exec(input: &Vec<char>, pos: usize) -> (r: Option<(i64, usize)>)
    requires
        pos <= input@.len(),
    ensures
        match r {
            Some((v, e)) => parse_ts(input@, pos as int) == Some((v as int, e as int)) && pos < e
                <= input@.len() && 0 <= v <= TS_MAX,
            None => parse_ts(input@, pos as int) is None,
        },
{
    let (y, p1) = match parse_fixed_exec(input, pos, 4) {
        Some(x) => x,
        None => {
            return None;
        },
    };
    let p2 = match chk_exec(input, p1, '-') {
        Some(x) => x,
        None => {
            return None;
        },
    };
    let (m, p3) = match parse_fixed_exec(input, p2, 2) {
        Some(x) => x,
        None => {
            return None;
        },
    };
    let p4 = match chk_exec(input, p3, '-') {
        Some(x) => x,
        None => {
            return None;
        },
    };
    let (d, p5) = match parse_fixed_exec(input, p4, 2) {
        Some(x) => x,
        None => {
            return None;
        },
    };
    let p6 = match chk_exec(input, p5, 'T') {
        Some(x) => x,
        None => {
            return None;
        },
    };
    let (h, p7) = match parse_fixed_exec(input, p6, 2) {
        Some(x) => x,
        None => {
            return None;
        },
    };
    let p8 = match chk_exec(input, p7, ':') {
        Some(x) => x,
        None => {
            return None;
        },
    };
    let (mi, p9) = match parse_fixed_exec(input, p8, 2) {
        Some(x) => x,
        None => {
            return None;
        },
    };
    let p10 = match chk_exec(input, p9, ':') {
        Some(x) => x,
        None => {
            return None;
        },
    };
    let (sec, p11) = match parse_fixed_exec(input, p10, 2) {
        Some(x) => x,
        None => {
            return None;
        },
    };
    proof {
        assert(pow10(4) == 10000 && pow10(2) == 100) by {
            reveal_with_fuel(pow10, 5);
        }
    }
    if !(1970 <= y && y <= 9999 && 1 <= m && m <= 12 && 1 <= d && d as i64 <= days_in_month_exec(
        y as i64,
        m as i64,
    ) && h < 24 && mi < 60 && sec < 60) {
        return None;
    }
    let p12 = if p11 < input.len() && input[p11] == '.' {
        let e = digit_run_end_exec(input, p11 + 1);
        if e == p11 + 1 {
            return None;
        }
        e
    } else {
        p11
    };
    let days = days_from_civil_exec(y as i64, m as i64, d as i64);
    let v = days * 86400 + (h as i64) * 3600 + (mi as i64) * 60 + (sec as i64);
    match chk_exec(input, p12, 'Z') {
        Some(e) => Some((v, e)),
        None => {
            let off = lit_utc_offset_vec();
            match expect_exec(input, p12, &off) {
                Some(e) => Some((v, e)),
                None => None,
            }
        },
    }
}

fn parse_quoted_ts_exec(input: &Vec<char>, pos: usize) -> (r: Option<(i64, usize)>)
    requires
        pos <= input@.len(),
    ensures
        match r {
            Some((v, e)) => parse_quoted_ts(input@, pos as int) == Some((v as int, e as int))
                && pos < e <= input@.len() && 0 <= v <= TS_MAX,
            None => parse_quoted_ts(input@, pos as int) is None,
        },
{
    let p = match tokc_exec(input, pos, '"') {
        Some(x) => x,
        None => {
            return None;
        },
    };
    let (v, p2) = match parse_ts_exec(input, p) {
        Some(x) => x,
        None => {
            return None;
        },
    };
    match chk_exec(input, p2, '"') {
        Some(e) => Some((v, e)),
        None => None,
    }
}

fn parse_end_value_exec(input: &Vec<char>, pos: usize) -> (r: Option<(Option<i64>, usize)>)
    requires
        pos <= input@.len(),
    ensures
        match r {
            Some((v, e)) => parse_end_value(input@, pos as int) == Some(
                (
                    match v {
                        Some(t) => Some(t as int),
                        None => None,
                    },
                    e as int,
                ),
            ) && pos < e <= input@.len() && (v matches Some(t) ==> 0 <= t <= TS_MAX),
            None => parse_end_value(input@, pos as int) is None,
        },
{
    let nl = lit_null_vec();
    match tokl_exec(input, pos, &nl) {
        Some(e) => Some((None, e)),
        None => {
            match parse_quoted_ts_exec(input, pos) {
                Some((v, e)) => Some((Some(v), e)),
                None => None,
            }
        },
    }
}

fn parse_bool_exec(input: &Vec<char>, pos: usize) -> (r: Option<(bool, usize)>)
    requires
        pos <= input@.len(),
    ensures
        match r {
            Some((v, e)) => parse_bool(input@, pos as int) == Some((v, e as int)) && pos <= e
                <= input@.len(),
            None => parse_bool(input@, pos as int) is None,
        },
{
    let t = lit_true_vec();
    match tokl_exec(input, pos, &t) {
        Some(e) => Some((true, e)),
        None => {
            let f = lit_false_vec();
            match tokl_exec(input, pos, &f) {
                Some(e) => Some((false, e)),
                None => None,
            }
        },
    }
}

fn parse_session_exec(input: &Vec<char>, pos: usize) -> (r: Option<(Session, usize)>)
    requires
        pos <= input@.len(),
    ensures
        match r {
            Some((v, e)) => parse_session(input@, pos as int) == Some((v@, e as int)) && pos < e
                <= input@.len(),
            None => parse_session(input@, pos as int) is None,
        },
{
    let p1 = match tokc_exec(input, pos, '{') {
        Some(x) => x,
        None => {
            return None;
        },
    };
    let kst = key_start_time_vec();
    let p2 = match tokl_exec(input, p1, &kst) {
        Some(x) => x,
        None => {
            return None;
        },
    };
    let p3 = match tokc_exec(input, p2, ':') {
        Some(x) => x,
        None => {
            return None;
        },
    };
    let (st, p4) = match parse_quoted_ts_exec(input, p3) {
        Some(x) => x,
        None => {
            return None;
        },
    };
    let p5 = match tokc_exec(input, p4, ',') {
        Some(x) => x,
        None => {
            return None;
        },
    };
    let ket = key_end_time_vec();
    let p6 = match tokl_exec(input, p5, &ket) {
        Some(x) => x,
        None => {
            return None;
        },
    };
    let p7 = match tokc_exec(input, p6, ':') {
        Some(x) => x,
        None => {
            return None;
        },
    };
    let (end, p8) = match parse_end_value_exec(input, p7) {
        Some(x) => x,
        None => {
            return None;
        },
    };
    match tokc_exec(input, p8, '}') {
        Some(e) => {
            let s = Session { start: st, end };
            proof {
                assert(s@ == (SessionV {
                    start: st as int,
                    end: match end {
                        Some(t) => Some(t as int),
                        None => None,
                    },
                }));
            }
            Some((s, e))
        },
        None => None,
    }
}

#[verifier::rlimit(100)]
fn parse_sessions_rest_exec(input: &Vec<char>, pos: usize, fuel: usize) -> (r: Option<
    (Vec<Session>, usize),
>)
    requires
        pos <= input@.len(),
    ensures
        match r {
            Some((v, e)) => parse_sessions_rest(input@, pos as int, fuel as nat) == Some(
                (v@.map_values(|x: Session| x@), e as int),
            ) && pos < e <= input@.len(),
            None => parse_sessions_rest(input@, pos as int, fuel as nat) is None,
        },
    decreases fuel,
{
    let p = skip_ws_exec(input, pos);
    if p < input.len() && input[p] == ']' {
        let v: Vec<Session> = Vec::new();
        proof {
            assert(v@.map_values(|x: Session| x@) =~= Seq::<SessionV>::empty());
        }
        Some((v, p + 1))
    } else if p < input.len() && input[p] == ',' && fuel > 0 {
        let (s, p2) = match parse_session_exec(input, p + 1) {
            Some(x) => x,
            None => {
                return None;
            },
        };
        match parse_sessions_rest_exec(input, p2, fuel - 1) {
            Some((mut v, e)) => {
                let ghost v0 = v@;
                v.insert(0, s);
                proof {
                    assert(v@.map_values(|x: Session| x@) =~= seq![s@] + v0.map_values(
                        |x: Session| x@,
                    ));
                }
                Some((v, e))
            },
            None => None,
        }
    } else {
        None
    }
}

#[verifier::rlimit(100)]
fn parse_sessions_exec(input: &Vec<char>, pos: usize, fuel: usize) -> (r: Option<
    (Vec<Session>, usize),
>)
    requires
        pos <= input@.len(),
    ensures
        match r {
            Some((v, e)) => parse_sessions(input@, pos as int, fuel as nat) == Some(
                (v@.map_values(|x: Session| x@), e as int),
            ) && pos < e <= input@.len(),
            None => parse_sessions(input@, pos as int, fuel as nat) is None,
        },
{
    let p = skip_ws_exec(input, pos);
    if p < input.len() && input[p] == ']' {
        let v: Vec<Session> = Vec::new();
        proof {
            assert(v@.map_values(|x: Session| x@) =~= Seq::<SessionV>::empty());
        }
        Some((v, p + 1))
    } else {
        let (s, p2) = match parse_session_exec(input, pos) {
            Some(x) => x,
            None => {
                return None;
            },
        };
        match parse_sessions_rest_exec(input, p2, fuel) {
            Some((mut v, e)) => {
                let ghost v0 = v@;
                v.insert(0, s);
                proof {
                    assert(v@.map_values(|x: Session| x@) =~= seq![s@] + v0.map_values(
                        |x: Session| x@,
                    ));
                }
                Some((v, e))
            },
            None => None,
        }
    }
}

#[verifier::rlimit(100)]
fn parse_task_exec(input: &Vec<char>, pos: usize, fuel: usize) -> (r: Option<(Task, usize)>)
    requires
        pos <= input@.len(),
    ensures
        match r {
            Some((v, e)) => parse_task(input@, pos as int, fuel as nat) == Some((v@, e as int))
                && pos < e <= input@.len(),
            None => parse_task(input@, pos as int, fuel as nat) is None,
        },
{
    let p1 = match tokc_exec(input, pos, '{') {
        Some(x) => x,
        None => {
            return None;
        },
    };
    let kid = key_id_vec();
    let p2 = match tokl_exec(input, p1, &kid) {
        Some(x) => x,
        None => {
            return None;
        },
    };
    let p3 = match tokc_exec(input, p2, ':') {
        Some(x) => x,
        None => {
            return None;
        },
    };
    let (id, p4) = match parse_nat_exec(input, p3) {
        Some(x) => x,
        None => {
            return None;
        },
    };
    if !(1 <= id && id <= 0xffff_ffff) {
        return None;
    }
    let p5 = match tokc_exec(input, p4, ',') {
        Some(x) => x,
        None => {
            return None;
        },
    };
    let kd = key_description_vec();
    let p6 = match tokl_exec(input, p5, &kd) {
        Some(x) => x,
        None => {
            return None;
        },
    };
    let p7 = match tokc_exec(input, p6, ':') {
        Some(x) => x,
        None => {
            return None;
        },
    };
    let p8 = match tokc_exec(input, p7, '"') {
        Some(x) => x,
        None => {
            return None;
        },
    };
    let (desc, p9) = match parse_str_body_exec(input, p8) {
        Some(x) => x,
        None => {
            return None;
        },
    };
    let p10 = match tokc_exec(input, p9, ',') {
        Some(x) => x,
        None => {
            return None;
        },
    };
    let kdone = key_done_vec();
    let p11 = match tokl_exec(input, p10, &kdone) {
        Some(x) => x,
        None => {
            return None;
        },
    };
    let p12 = match tokc_exec(input, p11, ':') {
        Some(x) => x,
        None => {
            return None;
        },
    };
    let (done, p13) = match parse_bool_exec(input, p12) {
        Some(x) => x,
        None => {
            return None;
        },
    };
    let p14 = match tokc_exec(input, p13, ',') {
        Some(x) => x,
        None => {
            return None;
        },
    };
    let karch = key_archived_vec();
    let p15 = match tokl_exec(input, p14, &karch) {
        Some(x) => x,
        None => {
            return None;
        },
    };
    let p16 = match tokc_exec(input, p15, ':') {
        Some(x) => x,
        None => {
            return None;
        },
    };
    let (archived, p17) = match parse_bool_exec(input, p16) {
        Some(x) => x,
        None => {
            return None;
        },
    };
    let p18 = match tokc_exec(input, p17, ',') {
        Some(x) => x,
        None => {
            return None;
        },
    };
    let kp = key_pomodoros_vec();
    let p19 = match tokl_exec(input, p18, &kp) {
        Some(x) => x,
        None => {
            return None;
        },
    };
    let p20 = match tokc_exec(input, p19, ':') {
        Some(x) => x,
        None => {
            return None;
        },
    };
    let p21 = match tokc_exec(input, p20, '[') {
        Some(x) => x,
        None => {
            return None;
        },
    };
    let (sessions, p22) = match parse_sessions_exec(input, p21, fuel) {
        Some(x) => x,
        None => {
            return None;
        },
    };
    match tokc_exec(input, p22, '}') {
        Some(e) => {
            let t = Task { id: id as u32, description: desc, done, archived, sessions };
            proof {
                assert(t@ =~~= (TaskV {
                    id: id as int,
                    description: t.description@,
                    done,
                    archived,
                    sessions: t.sessions@.map_values(|x: Session| x@),
                }));
                assert(parse_task_tail(input@, p9 as int, id as int, t.description@, fuel as nat)
                    == Some((t@, e as int)));
            }
            Some((t, e))
        },
        None => None,
    }
}

#[verifier::rlimit(100)]
fn parse_tasks_rest_exec(input: &Vec<char>, pos: usize, fuel: usize) -> (r: Option<
    (Vec<Task>, usize),
>)
    requires
        pos <= input@.len(),
    ensures
        match r {
            Some((v, e)) => parse_tasks_rest(input@, pos as int, fuel as nat) == Some(
                (store_view(v@), e as int),
            ) && pos < e <= input@.len(),
            None => parse_tasks_rest(input@, pos as int, fuel as nat) is None,
        },
    decreases fuel,
{
    let p = skip_ws_exec(input, pos);
    if p < input.len() && input[p] == ']' {
        let v: Vec<Task> = Vec::new();
        proof {
            assert(store_view(v@) =~= Seq::<TaskV>::empty());
        }
        Some((v, p + 1))
    } else if p < input.len() && input[p] == ',' && fuel > 0 {
        let (t, p2) = match parse_task_exec(input, p + 1, fuel) {
            Some(x) => x,
            None => {
                return None;
            },
        };
        match parse_tasks_rest_exec(input, p2, fuel - 1) {
            Some((mut v, e)) => {
                let ghost v0 = v@;
                v.insert(0, t);
                proof {
                    assert(store_view(v@) =~= seq![t@] + store_view(v0));
                }
                Some((v, e))
            },
            None => None,
        }
    } else {
        None
    }
}

#[verifier::rlimit(100)]
fn parse_tasks_exec(input: &Vec<char>, pos: usize, fuel: usize) -> (r: Option<(Vec<Task>, usize)>)
    requires
        pos <= input@.len(),
    ensures
        match r {
            Some((v, e)) => parse_tasks(input@, pos as int, fuel as nat) == Some(
                (store_view(v@), e as int),
            ) && pos < e <= input@.len(),
            None => parse_tasks(input@, pos as int, fuel as nat) is None,
        },
{
    let p = skip_ws_exec(input, pos);
    if p < input.len() && input[p] == ']' {
        let v: Vec<Task> = Vec::new();
        proof {
            assert(store_view(v@) =~= Seq::<TaskV>::empty());
        }
        Some((v, p + 1))
    } else {
        let (t, p2) = match parse_task_exec(input, pos, fuel) {
            Some(x) => x,
            None => {
                return None;
            },
        };
        match parse_tasks_rest_exec(input, p2, fuel) {
            Some((mut v, e)) => {
                let ghost v0 = v@;
                v.insert(0, t);
                proof {
                    assert(store_view(v@) =~= seq![t@] + store_view(v0));
                }
                Some((v, e))
            },
            None => None,
        }
    }
}

/// Decode a whole document into a task store. Succeeds exactly on the
/// inputs `decode_store_spec` accepts — a parseable document whose
/// tasks form a well-formed store — and then returns exactly that
/// store; everything else is `Malformed`, by design a fatal condition
/// for the caller.
pub fn decode_store(input: &Vec<char>) -> (r: Result<Vec<Task>, DecodeError>)
    ensures
        match r {
            Ok(ts) => decode_store_spec(input@) == Some(store_view(ts@)) && store_wf(
                store_view(ts@),
            ),
            Err(e) => decode_store_spec(input@) is None && e == DecodeError::Malformed,
        },
{
    let p0 = skip_ws_exec(input, 0);
    if p0 == input.len() {
        let v: Vec<Task> = Vec::new();
        proof {
            assert(store_view(v@) =~= Seq::<TaskV>::empty());
            assert(parse_store(input@) == Some(Seq::<TaskV>::empty()));
        }
        return Ok(v);
    }
    let p = match tokc_exec(input, 0, '[') {
        Some(x) => x,
        None => {
            return Err(DecodeError::Malformed);
        },
    };
    let (ts, p2) = match parse_tasks_exec(input, p, input.len()) {
        Some(x) => x,
        None => {
            return Err(DecodeError::Malformed);
        },
    };
    let p3 = skip_ws_exec(input, p2);
    if p3 != input.len() {
        return Err(DecodeError::Malformed);
    }
    if store_valid(&ts) {
        Ok(ts)
    } else {
        Err(DecodeError::Malformed)
    }
}

} // verus!
