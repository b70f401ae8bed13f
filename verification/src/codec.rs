//! The persisted file format, at the specification level.
//!
//! The store is kept as a JSON array of task objects, each
//! `{"id":…,"description":…,"done":…,"archived":…,"pomodoros":[…]}`
//! with sessions as `{"start_time":…,"end_time":…}` holding RFC 3339
//! timestamps. `enc_store` gives the exact character sequence the
//! library writes; the `parse_*` functions give the grammar it reads
//! back: the same shape, plus insignificant whitespace between tokens,
//! escape sequences in strings, fractional seconds (ignored) and a
//! `+00:00` offset in timestamps — what files written by earlier
//! versions of the tool contain.

use vstd::prelude::*;
use crate::model::{SessionV, TaskV};
use crate::store::store_wf;
use crate::time::{civil_of_secs, days_in_month, secs_from_civil};

verus! {

// ---------- characters ----------

pub open spec fn is_ws(c: char) -> bool {
    c == ' ' || c == '\n' || c == '\r' || c == '\t'
}

pub open spec fn is_digit(c: char) -> bool {
    48 <= c as u32 <= 57
}

pub open spec fn digit_val(c: char) -> int {
    c as u32 - 48
}

pub open spec fn digit_char(d: int) -> char {
    if d == 0 {
        '0'
    } else if d == 1 {
        '1'
    } else if d == 2 {
        '2'
    } else if d == 3 {
        '3'
    } else if d == 4 {
        '4'
    } else if d == 5 {
        '5'
    } else if d == 6 {
        '6'
    } else if d == 7 {
        '7'
    } else if d == 8 {
        '8'
    } else {
        '9'
    }
}

pub open spec fn is_hex(c: char) -> bool {
    is_digit(c) || 97 <= c as u32 <= 102 || 65 <= c as u32 <= 70
}

pub open spec fn hex_val(c: char) -> int {
    if is_digit(c) {
        digit_val(c)
    } else if 97 <= c as u32 <= 102 {
        c as u32 - 87
    } else {
        c as u32 - 55
    }
}

pub open spec fn hex_char(d: int) -> char {
    if d < 10 {
        digit_char(d)
    } else if d == 10 {
        'a'
    } else if d == 11 {
        'b'
    } else if d == 12 {
        'c'
    } else if d == 13 {
        'd'
    } else if d == 14 {
        'e'
    } else {
        'f'
    }
}

// ---------- tokens ----------

pub open spec fn key_id() -> Seq<char> {
    seq!['"', 'i', 'd', '"']
}

pub open spec fn key_description() -> Seq<char> {
    seq!['"', 'd', 'e', 's', 'c', 'r', 'i', 'p', 't', 'i', 'o', 'n', '"']
}

pub open spec fn key_done() -> Seq<char> {
    seq!['"', 'd', 'o', 'n', 'e', '"']
}

pub open spec fn key_archived() -> Seq<char> {
    seq!['"', 'a', 'r', 'c', 'h', 'i', 'v', 'e', 'd', '"']
}

pub open spec fn key_pomodoros() -> Seq<char> {
    seq!['"', 'p', 'o', 'm', 'o', 'd', 'o', 'r', 'o', 's', '"']
}

pub open spec fn key_start_time() -> Seq<char> {
    seq!['"', 's', 't', 'a', 'r', 't', '_', 't', 'i', 'm', 'e', '"']
}

pub open spec fn key_end_time() -> Seq<char> {
    seq!['"', 'e', 'n', 'd', '_', 't', 'i', 'm', 'e', '"']
}

pub open spec fn lit_true() -> Seq<char> {
    seq!['t', 'r', 'u', 'e']
}

pub open spec fn lit_false() -> Seq<char> {
    seq!['f', 'a', 'l', 's', 'e']
}

pub open spec fn lit_null() -> Seq<char> {
    seq!['n', 'u', 'l', 'l']
}

pub open spec fn lit_utc_offset() -> Seq<char> {
    seq!['+', '0', '0', ':', '0', '0']
}

// ---------- encoding ----------

/// Decimal digits of `n`, no padding (`0` for zero).
pub open spec fn dec_digits(n: int) -> Seq<char>
    decreases n,
{
    if n < 10 {
        seq![digit_char(n)]
    } else {
        dec_digits(n / 10).push(digit_char(n % 10))
    }
}

/// Exactly `k` decimal digits of `n`, zero-padded.
pub open spec fn fixed_digits(n: int, k: nat) -> Seq<char>
    decreases k,
{
    if k == 0 {
        Seq::empty()
    } else {
        fixed_digits(n / 10, (k - 1) as nat).push(digit_char(n % 10))
    }
}

/// JSON escaping of one string character: quote and backslash get a
/// backslash escape, control characters a `\u00xx` escape, everything
/// else stands for itself.
pub open spec fn esc_char(c: char) -> Seq<char> {
    if c == '"' {
        seq!['\\', '"']
    } else if c == '\\' {
        seq!['\\', '\\']
    } else if (c as u32) < 32 {
        seq!['\\', 'u', '0', '0', hex_char(c as u32 as int / 16), hex_char(c as u32 as int % 16)]
    } else {
        seq![c]
    }
}

pub open spec fn enc_string(s: Seq<char>) -> Seq<char>
    decreases s.len(),
{
    if s.len() == 0 {
        Seq::empty()
    } else {
        enc_string(s.drop_last()) + esc_char(s.last())
    }
}

/// RFC 3339 form of a timestamp: `yyyy-mm-ddThh:mm:ssZ`.
pub open spec fn enc_ts(t: int) -> Seq<char> {
    let (y, m, d, h, mi, s) = civil_of_secs(t);
    fixed_digits(y, 4) + seq!['-'] + fixed_digits(m, 2) + seq!['-'] + fixed_digits(d, 2)
        + seq!['T'] + fixed_digits(h, 2) + seq![':'] + fixed_digits(mi, 2) + seq![':']
        + fixed_digits(s, 2) + seq!['Z']
}

pub open spec fn enc_bool(b: bool) -> Seq<char> {
    if b {
        lit_true()
    } else {
        lit_false()
    }
}

pub open spec fn enc_session(s: SessionV) -> Seq<char> {
    seq!['{'] + key_start_time() + seq![':', '"'] + enc_ts(s.start) + seq!['"', ',']
        + key_end_time() + seq![':'] + (match s.end {
        Some(e) => seq!['"'] + enc_ts(e) + seq!['"'],
        None => lit_null(),
    }) + seq!['}']
}

/// The session list from index `i` on: elements after the first are
/// preceded by a comma.
pub open spec fn enc_sessions_from(ss: Seq<SessionV>, i: int) -> Seq<char>
    decreases ss.len() - i,
{
    if i < 0 || i >= ss.len() {
        Seq::empty()
    } else {
        (if i > 0 {
            seq![',']
        } else {
            Seq::empty()
        }) + enc_session(ss[i]) + enc_sessions_from(ss, i + 1)
    }
}

pub open spec fn enc_task(t: TaskV) -> Seq<char> {
    seq!['{'] + key_id() + seq![':'] + dec_digits(t.id) + seq![','] + key_description() + seq![
        ':',
        '"',
    ] + enc_string(t.description) + seq!['"', ','] + key_done() + seq![':'] + enc_bool(t.done)
        + seq![','] + key_archived() + seq![':'] + enc_bool(t.archived) + seq![',']
        + key_pomodoros() + seq![':', '['] + enc_sessions_from(t.sessions, 0) + seq![']', '}']
}

pub open spec fn enc_tasks_from(ts: Seq<TaskV>, i: int) -> Seq<char>
    decreases ts.len() - i,
{
    if i < 0 || i >= ts.len() {
        Seq::empty()
    } else {
        (if i > 0 {
            seq![',']
        } else {
            Seq::empty()
        }) + enc_task(ts[i]) + enc_tasks_from(ts, i + 1)
    }
}

/// The exact character sequence the library persists for a store.
pub open spec fn enc_store(ts: Seq<TaskV>) -> Seq<char> {
    seq!['['] + enc_tasks_from(ts, 0) + seq![']']
}

// ---------- parsing ----------

/// First position at or after `pos` holding no whitespace.
pub open spec fn sw(s: Seq<char>, pos: int) -> int
    decreases s.len() - pos,
{
    if 0 <= pos < s.len() && is_ws(s[pos]) {
        sw(s, pos + 1)
    } else {
        pos
    }
}

/// Consume the literal `lit` at exactly `pos`.
pub open spec fn expect(s: Seq<char>, pos: int, lit: Seq<char>) -> Option<int> {
    if 0 <= pos && pos + lit.len() <= s.len() && s.subrange(pos, pos + lit.len()) == lit {
        Some(pos + lit.len())
    } else {
        None
    }
}

/// Consume one character at exactly `pos`.
pub open spec fn chk(s: Seq<char>, pos: int, c: char) -> Option<int> {
    if 0 <= pos < s.len() && s[pos] == c {
        Some(pos + 1)
    } else {
        None
    }
}

/// Consume whitespace, then one character.
pub open spec fn tokc(s: Seq<char>, pos: int, c: char) -> Option<int> {
    chk(s, sw(s, pos), c)
}

/// Consume whitespace, then the literal `lit`.
pub open spec fn tokl(s: Seq<char>, pos: int, lit: Seq<char>) -> Option<int> {
    expect(s, sw(s, pos), lit)
}

/// End of the run of decimal digits starting at `pos`.
pub open spec fn digit_run_end(s: Seq<char>, pos: int) -> int
    decreases s.len() - pos,
{
    if 0 <= pos < s.len() && is_digit(s[pos]) {
        digit_run_end(s, pos + 1)
    } else {
        pos
    }
}

/// Numeric value of a sequence of decimal digits.
pub open spec fn digits_val(ds: Seq<char>) -> int
    decreases ds.len(),
{
    if ds.len() == 0 {
        0
    } else {
        digits_val(ds.drop_last()) * 10 + digit_val(ds.last())
    }
}

/// Consume whitespace, then a run of one to ten digits, as its value.
pub open spec fn parse_nat(s: Seq<char>, pos: int) -> Option<(int, int)> {
    let p = sw(s, pos);
    let e = digit_run_end(s, p);
    if e == p || e - p > 10 {
        None
    } else {
        Some((digits_val(s.subrange(p, e)), e))
    }
}

/// Consume exactly `k` digits at `pos`, as their value.
pub open spec fn parse_fixed(s: Seq<char>, pos: int, k: int) -> Option<(int, int)> {
    if 0 <= pos && pos + k <= s.len() && (forall|i: int|
        pos <= i < pos + k ==> is_digit(#[trigger] s[i])) {
        Some((digits_val(s.subrange(pos, pos + k)), pos + k))
    } else {
        None
    }
}

/// Character stood for by a string escape letter, if it is one of the
/// single-letter escapes.
pub open spec fn short_escape(c: char) -> Option<char> {
    if c == '"' {
        Some('"')
    } else if c == '\\' {
        Some('\\')
    } else if c == '/' {
        Some('/')
    } else if c == 'b' {
        Some('\u{8}')
    } else if c == 'f' {
        Some('\u{c}')
    } else if c == 'n' {
        Some('\n')
    } else if c == 'r' {
        Some('\r')
    } else if c == 't' {
        Some('\t')
    } else {
        None
    }
}

/// String contents from `pos` (just after the opening quote) to the
/// closing quote. Accepts the single-letter escapes and `\uXXXX` up to
/// `ÿ`; rejects unescaped control characters.
pub open spec fn parse_str_body(s: Seq<char>, pos: int) -> Option<(Seq<char>, int)>
    decreases s.len() - pos,
{
    if pos < 0 || pos >= s.len() {
        None
    } else if s[pos] == '"' {
        Some((Seq::empty(), pos + 1))
    } else if s[pos] == '\\' {
        if pos + 2 > s.len() {
            None
        } else if short_escape(s[pos + 1]) is Some {
            match parse_str_body(s, pos + 2) {
                Some((r, e)) => Some((seq![short_escape(s[pos + 1]).unwrap()] + r, e)),
                None => None,
            }
        } else if s[pos + 1] == 'u' {
            if pos + 6 <= s.len() && is_hex(s[pos + 2]) && is_hex(s[pos + 3]) && is_hex(s[pos + 4])
                && is_hex(s[pos + 5]) {
                let v = hex_val(s[pos + 2]) * 4096 + hex_val(s[pos + 3]) * 256 + hex_val(
                    s[pos + 4],
                ) * 16 + hex_val(s[pos + 5]);
                if v <= 255 {
                    match parse_str_body(s, pos + 6) {
                        Some((r, e)) => Some((seq![(v as u8) as char] + r, e)),
                        None => None,
                    }
                } else {
                    None
                }
            } else {
                None
            }
        } else {
            None
        }
    } else if (s[pos] as u32) < 32 {
        None
    } else {
        match parse_str_body(s, pos + 1) {
            Some((r, e)) => Some((seq![s[pos]] + r, e)),
            None => None,
        }
    }
}

/// An RFC 3339 timestamp starting at exactly `pos`: date, `T`, time,
/// optional fractional seconds (ignored), then `Z` or `+00:00`.
pub open spec fn parse_ts(s: Seq<char>, pos: int) -> Option<(int, int)> {
    match parse_fixed(s, pos, 4) {
        None => None,
        Some((y, p1)) => match chk(s, p1, '-') {
            None => None,
            Some(p2) => match parse_fixed(s, p2, 2) {
                None => None,
                Some((m, p3)) => match chk(s, p3, '-') {
                    None => None,
                    Some(p4) => match parse_fixed(s, p4, 2) {
                        None => None,
                        Some((d, p5)) => match chk(s, p5, 'T') {
                            None => None,
                            Some(p6) => match parse_fixed(s, p6, 2) {
                                None => None,
                                Some((h, p7)) => match chk(s, p7, ':') {
                                    None => None,
                                    Some(p8) => match parse_fixed(s, p8, 2) {
                                        None => None,
                                        Some((mi, p9)) => match chk(s, p9, ':') {
                                            None => None,
                                            Some(p10) => match parse_fixed(s, p10, 2) {
                                                None => None,
                                                Some((sec, p11)) => parse_ts_tail(
                                                    s,
                                                    p11,
                                                    y,
                                                    m,
                                                    d,
                                                    h,
                                                    mi,
                                                    sec,
                                                ),
                                            },
                                        },
                                    },
                                },
                            },
                        },
                    },
                },
            },
        },
    }
}

/// Fraction and offset of a timestamp, then its value.
pub open spec fn parse_ts_tail(
    s: Seq<char>,
    pos: int,
    y: int,
    m: int,
    d: int,
    h: int,
    mi: int,
    sec: int,
) -> Option<(int, int)> {
    if !(1970 <= y <= 9999 && 1 <= m <= 12 && 1 <= d <= days_in_month(y, m) && h < 24 && mi < 60
        && sec < 60) {
        None
    } else {
        let p = if 0 <= pos < s.len() && s[pos] == '.' {
            digit_run_end(s, pos + 1)
        } else {
            pos
        };
        if 0 <= pos < s.len() && s[pos] == '.' && p == pos + 1 {
            None
        } else {
            match chk(s, p, 'Z') {
                Some(e) => Some((secs_from_civil(y, m, d, h, mi, sec), e)),
                None => match expect(s, p, lit_utc_offset()) {
                    Some(e) => Some((secs_from_civil(y, m, d, h, mi, sec), e)),
                    None => None,
                },
            }
        }
    }
}

/// A quoted timestamp, with leading whitespace.
pub open spec fn parse_quoted_ts(s: Seq<char>, pos: int) -> Option<(int, int)> {
    match tokc(s, pos, '"') {
        None => None,
        Some(p) => match parse_ts(s, p) {
            None => None,
            Some((v, p2)) => match chk(s, p2, '"') {
                None => None,
                Some(e) => Some((v, e)),
            },
        },
    }
}

/// One session object.
pub open spec fn parse_session(s: Seq<char>, pos: int) -> Option<(SessionV, int)> {
    match tokc(s, pos, '{') {
        None => None,
        Some(p1) => match tokl(s, p1, key_start_time()) {
            None => None,
            Some(p2) => match tokc(s, p2, ':') {
                None => None,
                Some(p3) => match parse_quoted_ts(s, p3) {
                    None => None,
                    Some((st, p4)) => match tokc(s, p4, ',') {
                        None => None,
                        Some(p5) => match tokl(s, p5, key_end_time()) {
                            None => None,
                            Some(p6) => match tokc(s, p6, ':') {
                                None => None,
                                Some(p7) => match parse_end_value(s, p7) {
                                    None => None,
                                    Some((end, p8)) => match tokc(s, p8, '}') {
                                        None => None,
                                        Some(e) => Some((SessionV { start: st, end }, e)),
                                    },
                                },
                            },
                        },
                    },
                },
            },
        },
    }
}

/// `null` or a quoted timestamp.
pub open spec fn parse_end_value(s: Seq<char>, pos: int) -> Option<(Option<int>, int)> {
    match tokl(s, pos, lit_null()) {
        Some(e) => Some((None, e)),
        None => match parse_quoted_ts(s, pos) {
            Some((v, e)) => Some((Some(v), e)),
            None => None,
        },
    }
}

/// The rest of a session array: `]`, or `,` and another session.
pub open spec fn parse_sessions_rest(s: Seq<char>, pos: int, fuel: nat) -> Option<
    (Seq<SessionV>, int),
>
    decreases fuel,
{
    let p = sw(s, pos);
    if 0 <= p < s.len() && s[p] == ']' {
        Some((Seq::empty(), p + 1))
    } else if 0 <= p < s.len() && s[p] == ',' && fuel > 0 {
        match parse_session(s, p + 1) {
            None => None,
            Some((v, p2)) => match parse_sessions_rest(s, p2, (fuel - 1) as nat) {
                None => None,
                Some((r, e)) => Some((seq![v] + r, e)),
            },
        }
    } else {
        None
    }
}

/// A session array after its `[`: empty, or sessions separated by commas.
pub open spec fn parse_sessions(s: Seq<char>, pos: int, fuel: nat) -> Option<(Seq<SessionV>, int)> {
    let p = sw(s, pos);
    if 0 <= p < s.len() && s[p] == ']' {
        Some((Seq::empty(), p + 1))
    } else {
        match parse_session(s, pos) {
            None => None,
            Some((v, p2)) => match parse_sessions_rest(s, p2, fuel) {
                None => None,
                Some((r, e)) => Some((seq![v] + r, e)),
            },
        }
    }
}

/// One task object. The id must fit a 32-bit count and be positive.
pub open spec fn parse_task(s: Seq<char>, pos: int, fuel: nat) -> Option<(TaskV, int)> {
    match tokc(s, pos, '{') {
        None => None,
        Some(p1) => match tokl(s, p1, key_id()) {
            None => None,
            Some(p2) => match tokc(s, p2, ':') {
                None => None,
                Some(p3) => match parse_nat(s, p3) {
                    None => None,
                    Some((id, p4)) => if !(1 <= id <= 0xffff_ffff) {
                        None
                    } else {
                        match tokc(s, p4, ',') {
                            None => None,
                            Some(p5) => match tokl(s, p5, key_description()) {
                                None => None,
                                Some(p6) => match tokc(s, p6, ':') {
                                    None => None,
                                    Some(p7) => match tokc(s, p7, '"') {
                                        None => None,
                                        Some(p8) => match parse_str_body(s, p8) {
                                            None => None,
                                            Some((desc, p9)) => parse_task_tail(
                                                s,
                                                p9,
                                                id,
                                                desc,
                                                fuel,
                                            ),
                                        },
                                    },
                                },
                            },
                        }
                    },
                },
            },
        },
    }
}

/// The flags and session array of a task object, after the description.
pub open spec fn parse_task_tail(s: Seq<char>, pos: int, id: int, desc: Seq<char>, fuel: nat) -> Option<
    (TaskV, int),
> {
    match tokc(s, pos, ',') {
        None => None,
        Some(p1) => match tokl(s, p1, key_done()) {
            None => None,
            Some(p2) => match tokc(s, p2, ':') {
                None => None,
                Some(p3) => match parse_bool(s, p3) {
                    None => None,
                    Some((done, p4)) => match tokc(s, p4, ',') {
                        None => None,
                        Some(p5) => match tokl(s, p5, key_archived()) {
                            None => None,
                            Some(p6) => match tokc(s, p6, ':') {
                                None => None,
                                Some(p7) => match parse_bool(s, p7) {
                                    None => None,
                                    Some((archived, p8)) => match tokc(s, p8, ',') {
                                        None => None,
                                        Some(p9) => match tokl(s, p9, key_pomodoros()) {
                                            None => None,
                                            Some(p10) => match tokc(s, p10, ':') {
                                                None => None,
                                                Some(p11) => match tokc(s, p11, '[') {
                                                    None => None,
                                                    Some(p12) => match parse_sessions(
                                                        s,
                                                        p12,
                                                        fuel,
                                                    ) {
                                                        None => None,
                                                        Some((ss, p13)) => match tokc(
                                                            s,
                                                            p13,
                                                            '}',
                                                        ) {
                                                            None => None,
                                                            Some(e) => Some(
                                                                (
                                                                    TaskV {
                                                                        id,
                                                                        description: desc,
                                                                        done,
                                                                        archived,
                                                                        sessions: ss,
                                                                    },
                                                                    e,
                                                                ),
                                                            ),
                                                        },
                                                    },
                                                },
                                            },
                                        },
                                    },
                                },
                            },
                        },
                    },
                },
            },
        },
    }
}

pub open spec fn parse_bool(s: Seq<char>, pos: int) -> Option<(bool, int)> {
    match tokl(s, pos, lit_true()) {
        Some(e) => Some((true, e)),
        None => match tokl(s, pos, lit_false()) {
            Some(e) => Some((false, e)),
            None => None,
        },
    }
}

/// The rest of a task array: `]`, or `,` and another task.
pub open spec fn parse_tasks_rest(s: Seq<char>, pos: int, fuel: nat) -> Option<(Seq<TaskV>, int)>
    decreases fuel,
{
    let p = sw(s, pos);
    if 0 <= p < s.len() && s[p] == ']' {
        Some((Seq::empty(), p + 1))
    } else if 0 <= p < s.len() && s[p] == ',' && fuel > 0 {
        match parse_task(s, p + 1, fuel) {
            None => None,
            Some((v, p2)) => match parse_tasks_rest(s, p2, (fuel - 1) as nat) {
                None => None,
                Some((r, e)) => Some((seq![v] + r, e)),
            },
        }
    } else {
        None
    }
}

/// A task array after its `[`: empty, or tasks separated by commas.
pub open spec fn parse_tasks(s: Seq<char>, pos: int, fuel: nat) -> Option<(Seq<TaskV>, int)> {
    let p = sw(s, pos);
    if 0 <= p < s.len() && s[p] == ']' {
        Some((Seq::empty(), p + 1))
    } else {
        match parse_task(s, pos, fuel) {
            None => None,
            Some((v, p2)) => match parse_tasks_rest(s, p2, fuel) {
                None => None,
                Some((r, e)) => Some((seq![v] + r, e)),
            },
        }
    }
}

/// The whole document: an empty or whitespace-only file is an empty
/// store; otherwise one task array with nothing but whitespace after it.
pub open spec fn parse_store(s: Seq<char>) -> Option<Seq<TaskV>> {
    if sw(s, 0) == s.len() {
        Some(Seq::empty())
    } else {
        match tokc(s, 0, '[') {
            None => None,
            Some(p) => match parse_tasks(s, p, s.len() as nat) {
                None => None,
                Some((ts, p2)) => if sw(s, p2) == s.len() {
                    Some(ts)
                } else {
                    None
                },
            },
        }
    }
}

// ---------- arithmetic facts about digit strings ----------

pub open spec fn pow10(k: nat) -> int
    decreases k,
{
    if k == 0 {
        1
    } else {
        10 * pow10((k - 1) as nat)
    }
}

pub proof fn lemma_pow10_pos(k: nat)
    ensures
        pow10(k) >= 1,
    decreases k,
{
    if k > 0 {
        lemma_pow10_pos((k - 1) as nat);
    }
}

pub proof fn lemma_pow10_mono(a: nat, b: nat)
    requires
        a <= b,
    ensures
        pow10(a) <= pow10(b),
        pow10(a) >= 1,
    decreases b,
{
    lemma_pow10_pos(a);
    if a < b {
        lemma_pow10_mono(a, (b - 1) as nat);
    }
}

/// A sequence of digit characters has a non-negative value below
/// ten to its length.
pub proof fn lemma_digits_val_bound(ds: Seq<char>)
    requires
        forall|i: int| 0 <= i < ds.len() ==> is_digit(#[trigger] ds[i]),
    ensures
        0 <= digits_val(ds) < pow10(ds.len()),
    decreases ds.len(),
{
    if ds.len() > 0 {
        lemma_digits_val_bound(ds.drop_last());
    }
}

/// `dec_digits` writes digit characters whose value reads back as `n`.
pub proof fn lemma_dec_digits(n: int)
    requires
        0 <= n,
    ensures
        forall|i: int| 0 <= i < dec_digits(n).len() ==> is_digit(#[trigger] dec_digits(n)[i]),
        digits_val(dec_digits(n)) == n,
        1 <= dec_digits(n).len(),
        n <= 0xffff_ffff ==> dec_digits(n).len() <= 10,
    decreases n,
{
    if n < 10 {
        assert(dec_digits(n) == seq![digit_char(n)]);
        assert(dec_digits(n).drop_last() =~= Seq::<char>::empty());
        assert(dec_digits(n).last() == digit_char(n));
        assert(digit_val(digit_char(n)) == n);
        assert(digits_val(dec_digits(n)) == digits_val(Seq::<char>::empty()) * 10 + n);
    } else {
        lemma_dec_digits(n / 10);
        assert(dec_digits(n).drop_last() =~= dec_digits(n / 10));
        assert(dec_digits(n).last() == digit_char(n % 10));
        assert(digit_val(digit_char(n % 10)) == n % 10);
        assert(digits_val(dec_digits(n)) == (n / 10) * 10 + n % 10);
        assert(n / 10 * 10 + n % 10 == n);
        if n <= 0xffff_ffff {
            assert(pow10(9) == 1000000000) by {
                reveal_with_fuel(pow10, 10);
            }
            assert(dec_digits(n / 10).len() <= 9) by {
                lemma_dec_digits_len(n / 10, 9);
            }
        }
    }
}

/// A value below ten to the `k` has at most `k` digits.
pub proof fn lemma_dec_digits_len(n: int, k: nat)
    requires
        0 <= n < pow10(k),
        1 <= k,
    ensures
        dec_digits(n).len() <= k,
    decreases k,
{
    if n >= 10 {
        assert(pow10(k) == 10 * pow10((k - 1) as nat));
        if k == 1 {
            assert(pow10(1) == 10) by {
                reveal_with_fuel(pow10, 2);
            }
            assert(false);
        }
        assert(n / 10 < pow10((k - 1) as nat)) by (nonlinear_arith)
            requires
                n < 10 * pow10((k - 1) as nat),
                0 <= n,
        ;
        lemma_dec_digits_len(n / 10, (k - 1) as nat);
    }
}

/// `fixed_digits` writes exactly `k` digit characters whose value
/// reads back as `n`, for `n` below ten to the `k`.
pub proof fn lemma_fixed_digits(n: int, k: nat)
    requires
        0 <= n < pow10(k),
    ensures
        fixed_digits(n, k).len() == k,
        forall|i: int| 0 <= i < k ==> is_digit(#[trigger] fixed_digits(n, k)[i]),
        digits_val(fixed_digits(n, k)) == n,
    decreases k,
{
    if k > 0 {
        assert(pow10(k) == 10 * pow10((k - 1) as nat));
        assert(n / 10 < pow10((k - 1) as nat)) by (nonlinear_arith)
            requires
                n < 10 * pow10((k - 1) as nat),
                0 <= n,
        ;
        lemma_fixed_digits(n / 10, (k - 1) as nat);
        assert(fixed_digits(n, k).drop_last() =~= fixed_digits(n / 10, (k - 1) as nat));
        assert(fixed_digits(n, k).last() == digit_char(n % 10));
    }
}

/// What decoding accepts: a parseable document whose tasks form a
/// well-formed store (valid timestamps, closed sessions before the
/// last, unique ids, non-empty descriptions).
pub open spec fn decode_store_spec(s: Seq<char>) -> Option<Seq<TaskV>> {
    match parse_store(s) {
        None => None,
        Some(ts) => if store_wf(ts) {
            Some(ts)
        } else {
            None
        },
    }
}

} // verus!
