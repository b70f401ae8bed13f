//! The round-trip law: decoding what `enc_store` produced gives back
//! the same store.
//!
//! Each lemma shows that one `parse_*` function, run over the text its
//! `enc_*` counterpart wrote, consumes exactly that text and returns
//! the original value; the top-level `lemma_store_round_trip` chains
//! them over a whole document.

use vstd::prelude::*;
use crate::codec::{
    chk, dec_digits, decode_store_spec, digit_run_end, enc_bool, enc_session, enc_sessions_from, enc_store, enc_string, enc_task, enc_tasks_from, enc_ts, esc_char, fixed_digits, hex_char, hex_val, is_digit, is_hex, is_ws, key_id, lemma_dec_digits, lemma_fixed_digits, lit_false, lit_null, lit_true, parse_bool, parse_end_value, parse_fixed, parse_nat, parse_quoted_ts, parse_session, parse_sessions, parse_sessions_rest, parse_store, parse_str_body, parse_task, parse_tasks, parse_tasks_rest, parse_ts, pow10, short_escape, sw,
};
use crate::model::{session_wf, task_wf, SessionV, TaskV};
use crate::store::store_wf;
use crate::time::{lemma_civil_inverse, valid_ts};

verus! {

/// A text that starts with `a + b` starts with `a`, and with `b` right
/// after it.
proof fn lemma_split(s: Seq<char>, pos: int, a: Seq<char>, b: Seq<char>)
    requires
        0 <= pos,
        pos + a.len() + b.len() <= s.len(),
        s.subrange(pos, pos + a.len() + b.len()) == a + b,
    ensures
        s.subrange(pos, pos + a.len()) == a,
        s.subrange(pos + a.len(), pos + a.len() + b.len()) == b,
{
    assert forall|i: int| 0 <= i < a.len() implies s.subrange(pos, pos + a.len())[i] == a[i] by {
        assert(s.subrange(pos, pos + a.len() + b.len())[i] == (a + b)[i]);
        assert(s.subrange(pos, pos + a.len())[i] == s[pos + i]);
        assert(s.subrange(pos, pos + a.len() + b.len())[i] == s[pos + i]);
    }
    assert(s.subrange(pos, pos + a.len()) =~= a);
    assert forall|i: int| 0 <= i < b.len() implies s.subrange(
        pos + a.len(),
        pos + a.len() + b.len(),
    )[i] == b[i] by {
        assert(s.subrange(pos, pos + a.len() + b.len())[a.len() + i] == (a + b)[a.len() + i]);
        assert((a + b)[a.len() + i] == b[i]);
        assert(s.subrange(pos + a.len(), pos + a.len() + b.len())[i] == s[pos + a.len() + i]);
        assert(s.subrange(pos, pos + a.len() + b.len())[a.len() + i] == s[pos + a.len() + i]);
    }
    assert(s.subrange(pos + a.len(), pos + a.len() + b.len()) =~= b);
}

proof fn lemma_hex_char(d: int)
    requires
        0 <= d < 16,
    ensures
        is_hex(hex_char(d)),
        hex_val(hex_char(d)) == d,
{
}

/// A run of digits followed by a non-digit (or the end) ends exactly
/// where the digits end.
proof fn lemma_digit_run(s: Seq<char>, pos: int, n: int)
    requires
        0 <= pos,
        0 <= n,
        pos + n <= s.len(),
        forall|i: int| pos <= i < pos + n ==> is_digit(#[trigger] s[i]),
        pos + n == s.len() || !is_digit(s[pos + n]),
    ensures
        digit_run_end(s, pos) == pos + n,
    decreases n,
{
    if n > 0 {
        lemma_digit_run(s, pos + 1, n - 1);
    }
}

/// Parsing a fixed-width field over what `fixed_digits` wrote gives
/// the value back.
proof fn lemma_rt_fixed(n: int, k: nat, s: Seq<char>, pos: int)
    requires
        0 <= n < pow10(k),
        0 <= pos,
        pos + k <= s.len(),
        s.subrange(pos, pos + k) == fixed_digits(n, k),
    ensures
        parse_fixed(s, pos, k as int) == Some((n, pos + k as int)),
{
    lemma_fixed_digits(n, k);
    assert(forall|i: int| pos <= i < pos + k ==> is_digit(#[trigger] s[i])) by {
        assert(forall|i: int|
            pos <= i < pos + k ==> #[trigger] s[i] == s.subrange(pos, pos + k)[i - pos]);
    }
}

/// Parsing a number over what `dec_digits` wrote gives the value back,
/// provided no digit follows.
proof fn lemma_rt_nat(n: int, s: Seq<char>, pos: int)
    requires
        0 <= n <= 0xffff_ffff,
        0 <= pos,
        pos + dec_digits(n).len() < s.len(),
        s.subrange(pos, pos + dec_digits(n).len()) == dec_digits(n),
        !is_digit(s[pos + dec_digits(n).len()]),
    ensures
        parse_nat(s, pos) == Some((n, pos + dec_digits(n).len())),
{
    lemma_dec_digits(n);
    let l = dec_digits(n).len() as int;
    assert(forall|i: int| pos <= i < pos + l ==> is_digit(#[trigger] s[i])) by {
        assert(forall|i: int|
            pos <= i < pos + l ==> #[trigger] s[i] == s.subrange(pos, pos + l)[i - pos]);
    }
    assert(!is_ws(s[pos]));
    assert(sw(s, pos) == pos);
    lemma_digit_run(s, pos, l);
}

proof fn lemma_rt_bool(b: bool, s: Seq<char>, pos: int)
    requires
        0 <= pos,
        pos + enc_bool(b).len() <= s.len(),
        s.subrange(pos, pos + enc_bool(b).len()) == enc_bool(b),
    ensures
        parse_bool(s, pos) == Some((b, pos + enc_bool(b).len())),
{
    assert(s[pos] == enc_bool(b)[0]);
    assert(!is_ws(s[pos]));
    assert(sw(s, pos) == pos);
    if b {
        assert(s.subrange(pos, pos + 4) == lit_true());
    } else {
        if s.subrange(pos, pos + 4) == lit_true() {
            assert(s.subrange(pos, pos + 4)[0] == 't');
            assert(s[pos] == 'f');
            assert(false);
        }
        assert(s.subrange(pos, pos + 5) == lit_false());
    }
}

/// Parsing a timestamp over what `enc_ts` wrote gives the timestamp
/// back; the encoding is twenty characters.
proof fn lemma_rt_ts(t: int, s: Seq<char>, pos: int)
    requires
        valid_ts(t),
        0 <= pos,
        pos + enc_ts(t).len() <= s.len(),
        s.subrange(pos, pos + enc_ts(t).len()) == enc_ts(t),
    ensures
        enc_ts(t).len() == 20,
        parse_ts(s, pos) == Some((t, pos + 20)),
{
    lemma_civil_inverse(t);
    let (y, m, d, h, mi, sec) = crate::time::civil_of_secs(t);
    assert(pow10(4) == 10000 && pow10(2) == 100) by {
        reveal_with_fuel(pow10, 5);
    }
    lemma_fixed_digits(y, 4);
    lemma_fixed_digits(m, 2);
    lemma_fixed_digits(d, 2);
    lemma_fixed_digits(h, 2);
    lemma_fixed_digits(mi, 2);
    lemma_fixed_digits(sec, 2);
    let r11 = seq!['Z'];
    let r10 = fixed_digits(sec, 2) + r11;
    let r9 = seq![':'] + r10;
    let r8 = fixed_digits(mi, 2) + r9;
    let r7 = seq![':'] + r8;
    let r6 = fixed_digits(h, 2) + r7;
    let r5 = seq!['T'] + r6;
    let r4 = fixed_digits(d, 2) + r5;
    let r3 = seq!['-'] + r4;
    let r2 = fixed_digits(m, 2) + r3;
    let r1 = seq!['-'] + r2;
    let r0 = fixed_digits(y, 4) + r1;
    assert(enc_ts(t) =~= r0);
    assert(r0.len() == 20);
    lemma_split(s, pos, fixed_digits(y, 4), r1);
    lemma_rt_fixed(y, 4, s, pos);
    lemma_split(s, pos + 4, seq!['-'], r2);
    assert(s[pos + 4] == '-') by {
        assert(s.subrange(pos + 4, pos + 5)[0] == s[pos + 4]);
    }
    lemma_split(s, pos + 5, fixed_digits(m, 2), r3);
    lemma_rt_fixed(m, 2, s, pos + 5);
    lemma_split(s, pos + 7, seq!['-'], r4);
    assert(s[pos + 7] == '-') by {
        assert(s.subrange(pos + 7, pos + 8)[0] == s[pos + 7]);
    }
    lemma_split(s, pos + 8, fixed_digits(d, 2), r5);
    lemma_rt_fixed(d, 2, s, pos + 8);
    lemma_split(s, pos + 10, seq!['T'], r6);
    assert(s[pos + 10] == 'T') by {
        assert(s.subrange(pos + 10, pos + 11)[0] == s[pos + 10]);
    }
    lemma_split(s, pos + 11, fixed_digits(h, 2), r7);
    lemma_rt_fixed(h, 2, s, pos + 11);
    lemma_split(s, pos + 13, seq![':'], r8);
    assert(s[pos + 13] == ':') by {
        assert(s.subrange(pos + 13, pos + 14)[0] == s[pos + 13]);
    }
    lemma_split(s, pos + 14, fixed_digits(mi, 2), r9);
    lemma_rt_fixed(mi, 2, s, pos + 14);
    lemma_split(s, pos + 16, seq![':'], r10);
    assert(s[pos + 16] == ':') by {
        assert(s.subrange(pos + 16, pos + 17)[0] == s[pos + 16]);
    }
    lemma_split(s, pos + 17, fixed_digits(sec, 2), r11);
    lemma_rt_fixed(sec, 2, s, pos + 17);
    assert(s[pos + 19] == 'Z') by {
        assert(s.subrange(pos + 19, pos + 20)[0] == s[pos + 19]);
    }
}

/// `enc_string` from the front: the first character's escape, then the
/// rest.
proof fn lemma_enc_string_front(d: Seq<char>)
    requires
        d.len() > 0,
    ensures
        enc_string(d) == esc_char(d[0]) + enc_string(d.drop_first()),
    decreases d.len(),
{
    if d.len() == 1 {
        assert(d.drop_last() =~= Seq::<char>::empty());
        assert(d.drop_first() =~= Seq::<char>::empty());
        assert(d.last() == d[0]);
        assert(enc_string(d) =~= esc_char(d[0]) + enc_string(d.drop_first()));
    } else {
        lemma_enc_string_front(d.drop_last());
        assert(d.drop_last()[0] == d[0]);
        assert(d.drop_last().drop_first() =~= d.drop_first().drop_last());
        assert(d.drop_first().last() == d.last());
        assert(enc_string(d) == enc_string(d.drop_last()) + esc_char(d.last()));
        assert(enc_string(d) =~= esc_char(d[0]) + enc_string(d.drop_first()));
    }
}

/// Parsing string contents over what `enc_string` wrote, up to the
/// closing quote, gives the string back.
proof fn lemma_rt_string(d: Seq<char>, s: Seq<char>, pos: int)
    requires
        0 <= pos,
        pos + enc_string(d).len() + 1 <= s.len(),
        s.subrange(pos, pos + enc_string(d).len() + 1) == enc_string(d).push('"'),
    ensures
        parse_str_body(s, pos) == Some((d, pos + enc_string(d).len() + 1)),
    decreases d.len(),
{
    if d.len() == 0 {
        assert(s[pos] == '"') by {
            assert(s.subrange(pos, pos + 1)[0] == s[pos]);
            assert(enc_string(d).push('"') =~= seq!['"']);
        }
    } else {
        lemma_enc_string_front(d);
        let c = d[0];
        let ec = esc_char(c);
        let rest = enc_string(d.drop_first());
        assert(enc_string(d).push('"') =~= ec + rest.push('"'));
        lemma_split(s, pos, ec, rest.push('"'));
        let pos2 = pos + ec.len();
        assert(s.subrange(pos2, pos2 + rest.len() + 1) == rest.push('"'));
        lemma_rt_string(d.drop_first(), s, pos2);
        assert(seq![c] + d.drop_first() =~= d);
        assert(forall|j: int| 0 <= j < ec.len() ==> #[trigger] s[pos + j] == ec[j]) by {
            assert(forall|j: int|
                0 <= j < ec.len() ==> s.subrange(pos, pos + ec.len())[j] == #[trigger] ec[j]);
        }
        if c == '"' {
            assert(s[pos] == '\\' && s[pos + 1] == '"');
            assert(short_escape(s[pos + 1]) == Some('"'));
        } else if c == '\\' {
            assert(s[pos] == '\\' && s[pos + 1] == '\\');
            assert(short_escape(s[pos + 1]) == Some('\\'));
        } else if (c as u32) < 32 {
            assert(s[pos] == '\\' && s[pos + 1] == 'u' && s[pos + 2] == '0' && s[pos + 3] == '0'
                && s[pos + 4] == hex_char(c as u32 as int / 16) && s[pos + 5] == hex_char(
                c as u32 as int % 16,
            ));
            assert(short_escape('u') is None);
            lemma_hex_char(c as u32 as int / 16);
            lemma_hex_char(c as u32 as int % 16);
            assert(is_hex('0') && hex_val('0') == 0);
            let v = hex_val(s[pos + 2]) * 4096 + hex_val(s[pos + 3]) * 256 + hex_val(s[pos + 4])
                * 16 + hex_val(s[pos + 5]);
            assert(v == c as u32);
            assert((v as u8) as u32 == c as u32);
            vstd::utf8::char_u32_cast(c, (v as u8) as u32);
            assert(((v as u8) as char) == c);
        } else {
            assert(s[pos] == c);
            assert(c != '"' && c != '\\' && (c as u32) >= 32);
        }
    }
}

/// Two adjacent known segments join into one.
proof fn lemma_join(s: Seq<char>, pos: int, a: Seq<char>, b: Seq<char>)
    requires
        0 <= pos,
        pos + a.len() + b.len() <= s.len(),
        s.subrange(pos, pos + a.len()) == a,
        s.subrange(pos + a.len(), pos + a.len() + b.len()) == b,
    ensures
        s.subrange(pos, pos + a.len() + b.len()) == a + b,
{
    assert forall|i: int| 0 <= i < a.len() + b.len() implies s.subrange(
        pos,
        pos + a.len() + b.len(),
    )[i] == (a + b)[i] by {
        if i < a.len() {
            assert(s.subrange(pos, pos + a.len())[i] == a[i]);
        } else {
            assert(s.subrange(pos + a.len(), pos + a.len() + b.len())[i - a.len()] == b[i
                - a.len()]);
        }
    }
    assert(s.subrange(pos, pos + a.len() + b.len()) =~= a + b);
}

/// One character at a known offset of a known segment.
proof fn lemma_char_at(s: Seq<char>, pos: int, c: char)
    requires
        0 <= pos,
        pos + 1 <= s.len(),
        s.subrange(pos, pos + 1) == seq![c],
    ensures
        s[pos] == c,
        chk(s, pos, c) == Some(pos + 1),
{
    assert(s.subrange(pos, pos + 1)[0] == s[pos]);
}

/// Parsing a session over what `enc_session` wrote gives it back.
#[verifier::rlimit(100)]
proof fn lemma_rt_session(v: SessionV, s: Seq<char>, pos: int)
    requires
        session_wf(v),
        0 <= pos,
        pos + enc_session(v).len() <= s.len(),
        s.subrange(pos, pos + enc_session(v).len()) == enc_session(v),
    ensures
        parse_session(s, pos) == Some((v, pos + enc_session(v).len())),
        enc_session(v).len() >= 1,
{
    let endpart = match v.end {
        Some(e) => seq!['"'] + enc_ts(e) + seq!['"'],
        None => lit_null(),
    };
    let r8 = seq!['}'];
    let r7 = endpart + r8;
    let r6 = seq![':'] + r7;
    let r5 = crate::codec::key_end_time() + r6;
    let r4 = seq!['"'] + (seq![','] + r5);
    let r3 = enc_ts(v.start) + r4;
    let r2 = seq![':'] + (seq!['"'] + r3);
    let r1 = crate::codec::key_start_time() + r2;
    let r0 = seq!['{'] + r1;
    assert(enc_session(v) =~= r0);
    lemma_split(s, pos, seq!['{'], r1);
    lemma_char_at(s, pos, '{');
    assert(sw(s, pos) == pos);
    let q1 = pos + 1;
    lemma_split(s, q1, crate::codec::key_start_time(), r2);
    assert(s[q1] == '"') by {
        assert(s.subrange(q1, q1 + 12)[0] == s[q1]);
    }
    assert(sw(s, q1) == q1);
    let q2 = q1 + 12;
    lemma_split(s, q2, seq![':'], seq!['"'] + r3);
    lemma_char_at(s, q2, ':');
    assert(sw(s, q2) == q2);
    let q3 = q2 + 1;
    lemma_split(s, q3, seq!['"'], r3);
    lemma_char_at(s, q3, '"');
    assert(sw(s, q3) == q3);
    let q4 = q3 + 1;
    lemma_split(s, q4, enc_ts(v.start), r4);
    lemma_rt_ts(v.start, s, q4);
    let q5 = q4 + 20;
    lemma_split(s, q5, seq!['"'], seq![','] + r5);
    lemma_char_at(s, q5, '"');
    assert(parse_quoted_ts(s, q3) == Some((v.start, q5 + 1)));
    let q6 = q5 + 1;
    lemma_split(s, q6, seq![','], r5);
    lemma_char_at(s, q6, ',');
    assert(sw(s, q6) == q6);
    let q7 = q6 + 1;
    lemma_split(s, q7, crate::codec::key_end_time(), r6);
    assert(s[q7] == '"') by {
        assert(s.subrange(q7, q7 + 10)[0] == s[q7]);
    }
    assert(sw(s, q7) == q7);
    let q8 = q7 + 10;
    lemma_split(s, q8, seq![':'], r7);
    lemma_char_at(s, q8, ':');
    assert(sw(s, q8) == q8);
    let q9 = q8 + 1;
    lemma_split(s, q9, endpart, r8);
    match v.end {
        None => {
            assert(endpart == lit_null());
            assert(s[q9] == 'n') by {
                assert(s.subrange(q9, q9 + 4)[0] == s[q9]);
            }
            assert(sw(s, q9) == q9);
            assert(parse_end_value(s, q9) == Some((None::<int>, q9 + 4)));
            let q10 = q9 + 4;
            lemma_split(s, q10, seq!['}'], Seq::empty());
            lemma_char_at(s, q10, '}');
            assert(sw(s, q10) == q10);
            assert(v =~~= (SessionV { start: v.start, end: v.end }));
        },
        Some(e) => {
            let w1 = enc_ts(e) + seq!['"'];
            assert(endpart =~= seq!['"'] + w1);
            lemma_split(s, q9, seq!['"'], w1);
            lemma_char_at(s, q9, '"');
            assert(sw(s, q9) == q9);
            // `null` cannot match here: the first character is a quote
            if s.subrange(q9, q9 + 4) == lit_null() {
                assert(s.subrange(q9, q9 + 4)[0] == s[q9]);
                assert(false);
            }
            assert(crate::codec::tokl(s, q9, lit_null()) is None);
            let q10 = q9 + 1;
            lemma_split(s, q10, enc_ts(e), seq!['"']);
            lemma_rt_ts(e, s, q10);
            let q11 = q10 + 20;
            lemma_char_at(s, q11, '"');
            assert(parse_quoted_ts(s, q9) == Some((e, q11 + 1)));
            assert(parse_end_value(s, q9) == Some((Some(e), q11 + 1)));
            let q12 = q11 + 1;
            lemma_split(s, q12, seq!['}'], Seq::empty());
            lemma_char_at(s, q12, '}');
            assert(sw(s, q12) == q12);
            assert(v =~~= (SessionV { start: v.start, end: v.end }));
        },
    }
}

/// Each remaining session of the list is at least one character long.
proof fn lemma_enc_sessions_len(ss: Seq<SessionV>, i: int)
    requires
        0 <= i <= ss.len(),
    ensures
        enc_sessions_from(ss, i).len() >= ss.len() - i,
    decreases ss.len() - i,
{
    if i < ss.len() {
        lemma_enc_sessions_len(ss, i + 1);
    }
}

/// Parsing the rest of a session array over its encoding returns the
/// remaining sessions.
/// One `, session` step of a session array: the comma, the session,
/// and the rest of the text line up.
#[verifier::rlimit(100)]
#[verifier::spinoff_prover]
proof fn lemma_rt_sessions_cons(v: SessionV, tail: Seq<char>, s: Seq<char>, pos: int)
    requires
        session_wf(v),
        0 <= pos,
        pos + 1 + enc_session(v).len() + tail.len() + 1 <= s.len(),
        s.subrange(pos, pos + 1 + enc_session(v).len() + tail.len() + 1) == (seq![',']
            + enc_session(v) + tail).push(']'),
    ensures
        s[pos] == ',',
        sw(s, pos) == pos,
        parse_session(s, pos + 1) == Some((v, pos + 1 + enc_session(v).len())),
        s.subrange(
            pos + 1 + enc_session(v).len(),
            pos + 1 + enc_session(v).len() + tail.len() + 1,
        ) == tail.push(']'),
{
    let se = enc_session(v);
    assert((seq![','] + se + tail).push(']') =~= seq![','] + (se + tail.push(']')));
    lemma_split(s, pos, seq![','], se + tail.push(']'));
    lemma_char_at(s, pos, ',');
    lemma_split(s, pos + 1, se, tail.push(']'));
    lemma_rt_session(v, s, pos + 1);
}

#[verifier::rlimit(100)]
#[verifier::spinoff_prover]
proof fn lemma_rt_sessions_rest(ss: Seq<SessionV>, i: int, s: Seq<char>, pos: int, fuel: nat)
    requires
        forall|j: int| 0 <= j < ss.len() ==> session_wf(#[trigger] ss[j]),
        1 <= i <= ss.len(),
        fuel >= ss.len() - i,
        0 <= pos,
        pos + enc_sessions_from(ss, i).len() + 1 <= s.len(),
        s.subrange(pos, pos + enc_sessions_from(ss, i).len() + 1) == enc_sessions_from(
            ss,
            i,
        ).push(']'),
    ensures
        parse_sessions_rest(s, pos, fuel) == Some(
            (ss.skip(i), pos + enc_sessions_from(ss, i).len() + 1),
        ),
    decreases ss.len() - i,
{
    if i == ss.len() {
        assert(enc_sessions_from(ss, i) =~= Seq::<char>::empty());
        assert(enc_sessions_from(ss, i).push(']') =~= seq![']']);
        lemma_char_at(s, pos, ']');
        assert(sw(s, pos) == pos);
        assert(ss.skip(i) =~= Seq::<SessionV>::empty());
    } else {
        let se = enc_session(ss[i]);
        let rest = enc_sessions_from(ss, i + 1);
        assert(enc_sessions_from(ss, i) == seq![','] + se + rest);
        lemma_rt_sessions_cons(ss[i], rest, s, pos);
        let q = pos + 1 + se.len();
        lemma_rt_sessions_rest(ss, i + 1, s, q, (fuel - 1) as nat);
        assert(seq![ss[i]] + ss.skip(i + 1) =~= ss.skip(i));
    }
}

/// Parsing a whole session array body over its encoding returns the
/// sessions.
#[verifier::rlimit(100)]
#[verifier::spinoff_prover]
proof fn lemma_rt_sessions(ss: Seq<SessionV>, s: Seq<char>, pos: int, fuel: nat)
    requires
        forall|j: int| 0 <= j < ss.len() ==> session_wf(#[trigger] ss[j]),
        fuel >= ss.len(),
        0 <= pos,
        pos + enc_sessions_from(ss, 0).len() + 1 <= s.len(),
        s.subrange(pos, pos + enc_sessions_from(ss, 0).len() + 1) == enc_sessions_from(
            ss,
            0,
        ).push(']'),
    ensures
        parse_sessions(s, pos, fuel) == Some((ss, pos + enc_sessions_from(ss, 0).len() + 1)),
{
    if ss.len() == 0 {
        assert(enc_sessions_from(ss, 0) =~= Seq::<char>::empty());
        assert(enc_sessions_from(ss, 0).push(']') =~= seq![']']);
        lemma_char_at(s, pos, ']');
        assert(sw(s, pos) == pos);
        assert(ss =~= Seq::<SessionV>::empty());
    } else {
        let se = enc_session(ss[0]);
        let rest = enc_sessions_from(ss, 1);
        assert(enc_sessions_from(ss, 0) == se + rest);
        assert(enc_sessions_from(ss, 0).push(']') =~= se + rest.push(']'));
        lemma_split(s, pos, se, rest.push(']'));
        lemma_rt_session(ss[0], s, pos);
        assert(s[pos] == '{') by {
            let r0 = seq!['{'] + (enc_session(ss[0]).skip(1));
            assert(se[0] == '{') by {
                assert(enc_session(ss[0]) =~= seq!['{'] + enc_session(ss[0]).skip(1));
            }
            assert(s.subrange(pos, pos + se.len())[0] == s[pos]);
        }
        assert(sw(s, pos) == pos);
        let q = pos + se.len();
        lemma_rt_sessions_rest(ss, 1, s, q, fuel);
        assert(seq![ss[0]] + ss.skip(1) =~= ss);
    }
}

/// One character at a known offset inside a known segment.
proof fn lemma_char_at_of(s: Seq<char>, pos: int, n: int, c: char, off: int)
    requires
        0 <= pos,
        0 <= off < n,
        pos + n <= s.len(),
        s.subrange(pos, pos + n).len() == n,
        s.subrange(pos, pos + n)[off] == c,
    ensures
        s[pos + off] == c,
        chk(s, pos + off, c) == Some(pos + off + 1),
{
    assert(s.subrange(pos, pos + n)[off] == s[pos + off]);
}

/// Layout of the session-array part of an encoded task object.
#[verifier::rlimit(100)]
#[verifier::spinoff_prover]
proof fn lemma_rt_task_layout_pom(t: TaskV, s: Seq<char>, pos: int)
    requires
        task_wf(t),
        0 <= pos,
        pos + enc_task(t).len() <= s.len(),
        s.subrange(pos, pos + enc_task(t).len()) == enc_task(t),
    ensures
        ({
            let dd = dec_digits(t.id);
            let es = enc_string(t.description);
            let sf = enc_sessions_from(t.sessions, 0);
            let l1 = seq!['{'];
            let l2 = l1 + key_id();
            let l3 = l2 + seq![':'];
            let l4 = l3 + dd;
            let l5 = l4 + seq![','];
            let l6 = l5 + crate::codec::key_description();
            let l7 = l6 + seq![':', '"'];
            let l8 = l7 + es;
            let l9 = l8 + seq!['"', ','];
            let l10 = l9 + crate::codec::key_done();
            let l11 = l10 + seq![':'];
            let l12 = l11 + enc_bool(t.done);
            let l13 = l12 + seq![','];
            let l14 = l13 + crate::codec::key_archived();
            let l15 = l14 + seq![':'];
            let l16 = l15 + enc_bool(t.archived);
            let l17 = l16 + seq![','];
            let l18 = l17 + crate::codec::key_pomodoros();
            let l19 = l18 + seq![':', '['];
            let l20 = l19 + sf;
            let l21 = l20 + seq![']', '}'];

            &&& s.subrange(pos, pos + l17.len()) == l17
            &&& crate::codec::tokl(s, pos + l17.len(), crate::codec::key_pomodoros()) == Some(
                pos + l18.len(),
            )
            &&& crate::codec::tokc(s, pos + l18.len(), ':') == Some(pos + l18.len() + 1)
            &&& crate::codec::tokc(s, pos + l18.len() + 1, '[') == Some(pos + l19.len())
            &&& s.subrange(pos + l19.len(), pos + l20.len() + 1) == sf.push(']')
            &&& crate::codec::tokc(s, pos + l20.len() + 1, '}') == Some(pos + l21.len())
            &&& enc_task(t).len() == l21.len()
        }),
{
    let dd = dec_digits(t.id);
    let es = enc_string(t.description);
    let sf = enc_sessions_from(t.sessions, 0);
    let l1 = seq!['{'];
    let l2 = l1 + key_id();
    let l3 = l2 + seq![':'];
    let l4 = l3 + dd;
    let l5 = l4 + seq![','];
    let l6 = l5 + crate::codec::key_description();
    let l7 = l6 + seq![':', '"'];
    let l8 = l7 + es;
    let l9 = l8 + seq!['"', ','];
    let l10 = l9 + crate::codec::key_done();
    let l11 = l10 + seq![':'];
    let l12 = l11 + enc_bool(t.done);
    let l13 = l12 + seq![','];
    let l14 = l13 + crate::codec::key_archived();
    let l15 = l14 + seq![':'];
    let l16 = l15 + enc_bool(t.archived);
    let l17 = l16 + seq![','];
    let l18 = l17 + crate::codec::key_pomodoros();
    let l19 = l18 + seq![':', '['];
    let l20 = l19 + sf;
    let l21 = l20 + seq![']', '}'];

    assert(enc_task(t) == l21);
    lemma_split(s, pos, l20, seq![']', '}']);
    lemma_split(s, pos, l19, sf);
    lemma_split(s, pos, l18, seq![':', '[']);
    lemma_split(s, pos, l17, crate::codec::key_pomodoros());
    let q18 = pos + l17.len();
    lemma_char_at_of(s, q18, 11, '"', 0);
    assert(sw(s, q18) == q18);
    let q19 = pos + l18.len();
    lemma_char_at_of(s, q19, 2, ':', 0);
    lemma_char_at_of(s, q19, 2, '[', 1);
    assert(sw(s, q19) == q19);
    assert(sw(s, q19 + 1) == q19 + 1);
    let q20 = pos + l19.len();
    let q21 = pos + l20.len();
    lemma_char_at_of(s, q21, 2, ']', 0);
    lemma_char_at_of(s, q21, 2, '}', 1);
    assert(s.subrange(q21, q21 + 1) =~= seq![']']);
    lemma_join(s, q20, sf, seq![']']);
    assert(sf + seq![']'] =~= sf.push(']'));
    assert(sw(s, q21 + 1) == q21 + 1);
}

/// Layout of the two flags of an encoded task object.
#[verifier::rlimit(100)]
#[verifier::spinoff_prover]
proof fn lemma_rt_task_layout_flags(t: TaskV, s: Seq<char>, pos: int)
    requires
        task_wf(t),
        0 <= pos,
        ({
            let dd = dec_digits(t.id);
            let es = enc_string(t.description);
            let sf = enc_sessions_from(t.sessions, 0);
            let l1 = seq!['{'];
            let l2 = l1 + key_id();
            let l3 = l2 + seq![':'];
            let l4 = l3 + dd;
            let l5 = l4 + seq![','];
            let l6 = l5 + crate::codec::key_description();
            let l7 = l6 + seq![':', '"'];
            let l8 = l7 + es;
            let l9 = l8 + seq!['"', ','];
            let l10 = l9 + crate::codec::key_done();
            let l11 = l10 + seq![':'];
            let l12 = l11 + enc_bool(t.done);
            let l13 = l12 + seq![','];
            let l14 = l13 + crate::codec::key_archived();
            let l15 = l14 + seq![':'];
            let l16 = l15 + enc_bool(t.archived);
            let l17 = l16 + seq![','];
            let l18 = l17 + crate::codec::key_pomodoros();
            let l19 = l18 + seq![':', '['];
            let l20 = l19 + sf;
            let l21 = l20 + seq![']', '}'];

            &&& pos + l17.len() <= s.len()
            &&& s.subrange(pos, pos + l17.len()) == l17
        }),
    ensures
        ({
            let dd = dec_digits(t.id);
            let es = enc_string(t.description);
            let sf = enc_sessions_from(t.sessions, 0);
            let l1 = seq!['{'];
            let l2 = l1 + key_id();
            let l3 = l2 + seq![':'];
            let l4 = l3 + dd;
            let l5 = l4 + seq![','];
            let l6 = l5 + crate::codec::key_description();
            let l7 = l6 + seq![':', '"'];
            let l8 = l7 + es;
            let l9 = l8 + seq!['"', ','];
            let l10 = l9 + crate::codec::key_done();
            let l11 = l10 + seq![':'];
            let l12 = l11 + enc_bool(t.done);
            let l13 = l12 + seq![','];
            let l14 = l13 + crate::codec::key_archived();
            let l15 = l14 + seq![':'];
            let l16 = l15 + enc_bool(t.archived);
            let l17 = l16 + seq![','];
            let l18 = l17 + crate::codec::key_pomodoros();
            let l19 = l18 + seq![':', '['];
            let l20 = l19 + sf;
            let l21 = l20 + seq![']', '}'];

            &&& s.subrange(pos, pos + l9.len()) == l9
            &&& crate::codec::tokc(s, pos + l9.len() - 1, ',') == Some(pos + l9.len())
            &&& crate::codec::tokl(s, pos + l9.len(), crate::codec::key_done()) == Some(
                pos + l10.len(),
            )
            &&& crate::codec::tokc(s, pos + l10.len(), ':') == Some(pos + l11.len())
            &&& parse_bool(s, pos + l11.len()) == Some((t.done, pos + l12.len()))
            &&& crate::codec::tokc(s, pos + l12.len(), ',') == Some(pos + l13.len())
            &&& crate::codec::tokl(s, pos + l13.len(), crate::codec::key_archived()) == Some(
                pos + l14.len(),
            )
            &&& crate::codec::tokc(s, pos + l14.len(), ':') == Some(pos + l15.len())
            &&& parse_bool(s, pos + l15.len()) == Some((t.archived, pos + l16.len()))
            &&& crate::codec::tokc(s, pos + l16.len(), ',') == Some(pos + l17.len())
        }),
{
    let dd = dec_digits(t.id);
    let es = enc_string(t.description);
    let sf = enc_sessions_from(t.sessions, 0);
    let l1 = seq!['{'];
    let l2 = l1 + key_id();
    let l3 = l2 + seq![':'];
    let l4 = l3 + dd;
    let l5 = l4 + seq![','];
    let l6 = l5 + crate::codec::key_description();
    let l7 = l6 + seq![':', '"'];
    let l8 = l7 + es;
    let l9 = l8 + seq!['"', ','];
    let l10 = l9 + crate::codec::key_done();
    let l11 = l10 + seq![':'];
    let l12 = l11 + enc_bool(t.done);
    let l13 = l12 + seq![','];
    let l14 = l13 + crate::codec::key_archived();
    let l15 = l14 + seq![':'];
    let l16 = l15 + enc_bool(t.archived);
    let l17 = l16 + seq![','];
    let l18 = l17 + crate::codec::key_pomodoros();
    let l19 = l18 + seq![':', '['];
    let l20 = l19 + sf;
    let l21 = l20 + seq![']', '}'];

    lemma_split(s, pos, l16, seq![',']);
    lemma_split(s, pos, l15, enc_bool(t.archived));
    lemma_split(s, pos, l14, seq![':']);
    lemma_split(s, pos, l13, crate::codec::key_archived());
    lemma_split(s, pos, l12, seq![',']);
    lemma_split(s, pos, l11, enc_bool(t.done));
    lemma_split(s, pos, l10, seq![':']);
    lemma_split(s, pos, l9, crate::codec::key_done());
    let q9 = pos + l8.len();
    assert(s[q9 + 1] == ',') by {
        assert(s.subrange(pos, pos + l9.len())[l9.len() - 1] == s[pos + l9.len() - 1]);
    }
    assert(sw(s, q9 + 1) == q9 + 1);
    let q10 = pos + l9.len();
    lemma_char_at_of(s, q10, 6, '"', 0);
    assert(sw(s, q10) == q10);
    let q11 = pos + l10.len();
    lemma_char_at_of(s, q11, 1, ':', 0);
    assert(sw(s, q11) == q11);
    let q12 = pos + l11.len();
    lemma_rt_bool(t.done, s, q12);
    let q13 = pos + l12.len();
    lemma_char_at_of(s, q13, 1, ',', 0);
    assert(sw(s, q13) == q13);
    let q14 = pos + l13.len();
    lemma_char_at_of(s, q14, 10, '"', 0);
    assert(sw(s, q14) == q14);
    let q15 = pos + l14.len();
    lemma_char_at_of(s, q15, 1, ':', 0);
    assert(sw(s, q15) == q15);
    let q16 = pos + l15.len();
    lemma_rt_bool(t.archived, s, q16);
    let q17 = pos + l16.len();
    lemma_char_at_of(s, q17, 1, ',', 0);
    assert(sw(s, q17) == q17);
}

/// Layout of the front half of an encoded task object: id and
/// description parse at their places.
#[verifier::rlimit(100)]
#[verifier::spinoff_prover]
proof fn lemma_rt_task_layout_front(t: TaskV, s: Seq<char>, pos: int)
    requires
        task_wf(t),
        0 <= pos,
        ({
            let dd = dec_digits(t.id);
            let es = enc_string(t.description);
            let sf = enc_sessions_from(t.sessions, 0);
            let l1 = seq!['{'];
            let l2 = l1 + key_id();
            let l3 = l2 + seq![':'];
            let l4 = l3 + dd;
            let l5 = l4 + seq![','];
            let l6 = l5 + crate::codec::key_description();
            let l7 = l6 + seq![':', '"'];
            let l8 = l7 + es;
            let l9 = l8 + seq!['"', ','];
            let l10 = l9 + crate::codec::key_done();
            let l11 = l10 + seq![':'];
            let l12 = l11 + enc_bool(t.done);
            let l13 = l12 + seq![','];
            let l14 = l13 + crate::codec::key_archived();
            let l15 = l14 + seq![':'];
            let l16 = l15 + enc_bool(t.archived);
            let l17 = l16 + seq![','];
            let l18 = l17 + crate::codec::key_pomodoros();
            let l19 = l18 + seq![':', '['];
            let l20 = l19 + sf;
            let l21 = l20 + seq![']', '}'];

            &&& pos + l9.len() < s.len()
            &&& s.subrange(pos, pos + l9.len()) == l9
        }),
    ensures
        ({
            let dd = dec_digits(t.id);
            let es = enc_string(t.description);
            let sf = enc_sessions_from(t.sessions, 0);
            let l1 = seq!['{'];
            let l2 = l1 + key_id();
            let l3 = l2 + seq![':'];
            let l4 = l3 + dd;
            let l5 = l4 + seq![','];
            let l6 = l5 + crate::codec::key_description();
            let l7 = l6 + seq![':', '"'];
            let l8 = l7 + es;
            let l9 = l8 + seq!['"', ','];
            let l10 = l9 + crate::codec::key_done();
            let l11 = l10 + seq![':'];
            let l12 = l11 + enc_bool(t.done);
            let l13 = l12 + seq![','];
            let l14 = l13 + crate::codec::key_archived();
            let l15 = l14 + seq![':'];
            let l16 = l15 + enc_bool(t.archived);
            let l17 = l16 + seq![','];
            let l18 = l17 + crate::codec::key_pomodoros();
            let l19 = l18 + seq![':', '['];
            let l20 = l19 + sf;
            let l21 = l20 + seq![']', '}'];
            &&& crate::codec::tokc(s, pos, '{') == Some(pos + 1)
            &&& crate::codec::tokl(s, pos + 1, key_id()) == Some(pos + l2.len())
            &&& crate::codec::tokc(s, pos + l2.len(), ':') == Some(pos + l3.len())
            &&& parse_nat(s, pos + l3.len()) == Some((t.id, pos + l4.len()))
            &&& crate::codec::tokc(s, pos + l4.len(), ',') == Some(pos + l5.len())
            &&& crate::codec::tokl(s, pos + l5.len(), crate::codec::key_description()) == Some(
                pos + l6.len(),
            )
            &&& crate::codec::tokc(s, pos + l6.len(), ':') == Some(pos + l6.len() + 1)
            &&& crate::codec::tokc(s, pos + l6.len() + 1, '"') == Some(pos + l7.len())
            &&& parse_str_body(s, pos + l7.len()) == Some((t.description, pos + l9.len() - 1))
        }),
{
    lemma_dec_digits(t.id);
    let dd = dec_digits(t.id);
    let es = enc_string(t.description);
    let sf = enc_sessions_from(t.sessions, 0);
    let l1 = seq!['{'];
    let l2 = l1 + key_id();
    let l3 = l2 + seq![':'];
    let l4 = l3 + dd;
    let l5 = l4 + seq![','];
    let l6 = l5 + crate::codec::key_description();
    let l7 = l6 + seq![':', '"'];
    let l8 = l7 + es;
    let l9 = l8 + seq!['"', ','];
    let l10 = l9 + crate::codec::key_done();
    let l11 = l10 + seq![':'];
    let l12 = l11 + enc_bool(t.done);
    let l13 = l12 + seq![','];
    let l14 = l13 + crate::codec::key_archived();
    let l15 = l14 + seq![':'];
    let l16 = l15 + enc_bool(t.archived);
    let l17 = l16 + seq![','];
    let l18 = l17 + crate::codec::key_pomodoros();
    let l19 = l18 + seq![':', '['];
    let l20 = l19 + sf;
    let l21 = l20 + seq![']', '}'];

    lemma_split(s, pos, l8, seq!['"', ',']);
    lemma_split(s, pos, l7, es);
    lemma_split(s, pos, l6, seq![':', '"']);
    lemma_split(s, pos, l5, crate::codec::key_description());
    lemma_split(s, pos, l4, seq![',']);
    lemma_split(s, pos, l3, dd);
    lemma_split(s, pos, l2, seq![':']);
    lemma_split(s, pos, l1, key_id());
    let q1 = pos;
    lemma_char_at_of(s, q1, 1, '{', 0);
    assert(sw(s, q1) == q1);
    let q2 = pos + l1.len();
    lemma_char_at_of(s, q2, 4, '"', 0);
    assert(sw(s, q2) == q2);
    let q3 = pos + l2.len();
    lemma_char_at_of(s, q3, 1, ':', 0);
    assert(sw(s, q3) == q3);
    let q4 = pos + l3.len();
    let q5 = pos + l4.len();
    lemma_char_at_of(s, q5, 1, ',', 0);
    assert(!is_digit(','));
    lemma_rt_nat(t.id, s, q4);
    assert(sw(s, q5) == q5);
    let q6 = pos + l5.len();
    lemma_char_at_of(s, q6, 13, '"', 0);
    assert(sw(s, q6) == q6);
    let q7 = pos + l6.len();
    lemma_char_at_of(s, q7, 2, ':', 0);
    lemma_char_at_of(s, q7, 2, '"', 1);
    assert(sw(s, q7) == q7);
    assert(sw(s, q7 + 1) == q7 + 1);
    let q8 = pos + l7.len();
    let q9 = pos + l8.len();
    lemma_char_at_of(s, q9, 2, '"', 0);
    assert(s.subrange(q9, q9 + 1) =~= seq!['"']);
    lemma_join(s, q8, es, seq!['"']);
    assert(es + seq!['"'] =~= es.push('"'));
    lemma_rt_string(t.description, s, q8);
}

/// The rear half of an encoded task object assembles into the task.
#[verifier::rlimit(100)]
#[verifier::spinoff_prover]
proof fn lemma_rt_task_assemble_tail(t: TaskV, s: Seq<char>, pos: int, fuel: nat)
    requires
        task_wf(t),
        fuel >= t.sessions.len(),
        0 <= pos,
        pos + enc_task(t).len() <= s.len(),
        s.subrange(pos, pos + enc_task(t).len()) == enc_task(t),
    ensures
        ({
            let dd = dec_digits(t.id);
            let es = enc_string(t.description);
            let sf = enc_sessions_from(t.sessions, 0);
            let l1 = seq!['{'];
            let l2 = l1 + key_id();
            let l3 = l2 + seq![':'];
            let l4 = l3 + dd;
            let l5 = l4 + seq![','];
            let l6 = l5 + crate::codec::key_description();
            let l7 = l6 + seq![':', '"'];
            let l8 = l7 + es;
            let l9 = l8 + seq!['"', ','];
            let l10 = l9 + crate::codec::key_done();
            let l11 = l10 + seq![':'];
            let l12 = l11 + enc_bool(t.done);
            let l13 = l12 + seq![','];
            let l14 = l13 + crate::codec::key_archived();
            let l15 = l14 + seq![':'];
            let l16 = l15 + enc_bool(t.archived);
            let l17 = l16 + seq![','];
            let l18 = l17 + crate::codec::key_pomodoros();
            let l19 = l18 + seq![':', '['];
            let l20 = l19 + sf;
            let l21 = l20 + seq![']', '}'];


            &&& pos + l9.len() < s.len()
            &&& s.subrange(pos, pos + l9.len()) == l9
            &&& crate::codec::parse_task_tail(
                s,
                pos + l9.len() - 1,
                t.id,
                t.description,
                fuel,
            ) == Some((t, pos + enc_task(t).len()))
        }),
{
    lemma_rt_task_layout_pom(t, s, pos);
    ({
        let l19len = 57 + dec_digits(t.id).len() + enc_string(t.description).len() + enc_bool(
            t.done,
        ).len() + enc_bool(t.archived).len();
        lemma_rt_sessions(t.sessions, s, pos + l19len, fuel);
    });
    lemma_rt_task_layout_flags(t, s, pos);
    let dd = dec_digits(t.id);
    let es = enc_string(t.description);
    let sf = enc_sessions_from(t.sessions, 0);
    let l1 = seq!['{'];
    let l2 = l1 + key_id();
    let l3 = l2 + seq![':'];
    let l4 = l3 + dd;
    let l5 = l4 + seq![','];
    let l6 = l5 + crate::codec::key_description();
    let l7 = l6 + seq![':', '"'];
    let l8 = l7 + es;
    let l9 = l8 + seq!['"', ','];
    let l10 = l9 + crate::codec::key_done();
    let l11 = l10 + seq![':'];
    let l12 = l11 + enc_bool(t.done);
    let l13 = l12 + seq![','];
    let l14 = l13 + crate::codec::key_archived();
    let l15 = l14 + seq![':'];
    let l16 = l15 + enc_bool(t.archived);
    let l17 = l16 + seq![','];
    let l18 = l17 + crate::codec::key_pomodoros();
    let l19 = l18 + seq![':', '['];
    let l20 = l19 + sf;
    let l21 = l20 + seq![']', '}'];


    assert(enc_task(t) == l21);
    assert(t =~~= (TaskV {
        id: t.id,
        description: t.description,
        done: t.done,
        archived: t.archived,
        sessions: t.sessions,
    }));
}

/// Parsing a task over what `enc_task` wrote gives it back.
#[verifier::rlimit(100)]
#[verifier::spinoff_prover]
proof fn lemma_rt_task(t: TaskV, s: Seq<char>, pos: int, fuel: nat)
    requires
        task_wf(t),
        fuel >= t.sessions.len(),
        0 <= pos,
        pos + enc_task(t).len() <= s.len(),
        s.subrange(pos, pos + enc_task(t).len()) == enc_task(t),
    ensures
        parse_task(s, pos, fuel) == Some((t, pos + enc_task(t).len())),
        enc_task(t).len() >= 1,
{
    lemma_rt_task_assemble_tail(t, s, pos, fuel);
    lemma_rt_task_layout_front(t, s, pos);
    let dd = dec_digits(t.id);
    let es = enc_string(t.description);
    let sf = enc_sessions_from(t.sessions, 0);
    let l1 = seq!['{'];
    let l2 = l1 + key_id();
    let l3 = l2 + seq![':'];
    let l4 = l3 + dd;
    let l5 = l4 + seq![','];
    let l6 = l5 + crate::codec::key_description();
    let l7 = l6 + seq![':', '"'];
    let l8 = l7 + es;
    let l9 = l8 + seq!['"', ','];
    let l10 = l9 + crate::codec::key_done();
    let l11 = l10 + seq![':'];
    let l12 = l11 + enc_bool(t.done);
    let l13 = l12 + seq![','];
    let l14 = l13 + crate::codec::key_archived();
    let l15 = l14 + seq![':'];
    let l16 = l15 + enc_bool(t.archived);
    let l17 = l16 + seq![','];
    let l18 = l17 + crate::codec::key_pomodoros();
    let l19 = l18 + seq![':', '['];
    let l20 = l19 + sf;
    let l21 = l20 + seq![']', '}'];


    assert(enc_task(t) == l21);
}

/// A task's encoding is at least two characters longer than its
/// session count, so the parsing fuel a text's length supplies never
/// runs out.
proof fn lemma_enc_task_len(t: TaskV)
    ensures
        enc_task(t).len() >= t.sessions.len() + 2,
{
    lemma_enc_sessions_len(t.sessions, 0);
}

/// One `, task` step of the task array.
#[verifier::rlimit(100)]
#[verifier::spinoff_prover]
proof fn lemma_rt_tasks_cons(v: TaskV, tail: Seq<char>, s: Seq<char>, pos: int, fuel: nat)
    requires
        task_wf(v),
        fuel >= v.sessions.len(),
        0 <= pos,
        pos + 1 + enc_task(v).len() + tail.len() + 1 <= s.len(),
        s.subrange(pos, pos + 1 + enc_task(v).len() + tail.len() + 1) == (seq![','] + enc_task(v)
            + tail).push(']'),
    ensures
        s[pos] == ',',
        sw(s, pos) == pos,
        parse_task(s, pos + 1, fuel) == Some((v, pos + 1 + enc_task(v).len())),
        s.subrange(
            pos + 1 + enc_task(v).len(),
            pos + 1 + enc_task(v).len() + tail.len() + 1,
        ) == tail.push(']'),
{
    let te = enc_task(v);
    assert((seq![','] + te + tail).push(']') =~= seq![','] + (te + tail.push(']')));
    lemma_split(s, pos, seq![','], te + tail.push(']'));
    lemma_char_at(s, pos, ',');
    lemma_split(s, pos + 1, te, tail.push(']'));
    lemma_rt_task(v, s, pos + 1, fuel);
}

/// Parsing the rest of the task array over its encoding returns the
/// remaining tasks.
#[verifier::rlimit(100)]
#[verifier::spinoff_prover]
proof fn lemma_rt_tasks_rest(ts: Seq<TaskV>, i: int, s: Seq<char>, pos: int, fuel: nat)
    requires
        forall|j: int| 0 <= j < ts.len() ==> task_wf(#[trigger] ts[j]),
        1 <= i <= ts.len(),
        fuel >= enc_tasks_from(ts, i).len(),
        0 <= pos,
        pos + enc_tasks_from(ts, i).len() + 1 <= s.len(),
        s.subrange(pos, pos + enc_tasks_from(ts, i).len() + 1) == enc_tasks_from(ts, i).push(']'),
    ensures
        parse_tasks_rest(s, pos, fuel) == Some(
            (ts.skip(i), pos + enc_tasks_from(ts, i).len() + 1),
        ),
    decreases ts.len() - i,
{
    if i == ts.len() {
        assert(enc_tasks_from(ts, i) =~= Seq::<char>::empty());
        assert(enc_tasks_from(ts, i).push(']') =~= seq![']']);
        lemma_char_at(s, pos, ']');
        assert(sw(s, pos) == pos);
        assert(ts.skip(i) =~= Seq::<TaskV>::empty());
    } else {
        let te = enc_task(ts[i]);
        let rest = enc_tasks_from(ts, i + 1);
        assert(enc_tasks_from(ts, i) == seq![','] + te + rest);
        lemma_enc_task_len(ts[i]);
        lemma_rt_tasks_cons(ts[i], rest, s, pos, fuel);
        let q = pos + 1 + te.len();
        lemma_rt_tasks_rest(ts, i + 1, s, q, (fuel - 1) as nat);
        assert(seq![ts[i]] + ts.skip(i + 1) =~= ts.skip(i));
    }
}

/// Parsing a whole task array body over its encoding returns the tasks.
#[verifier::rlimit(100)]
#[verifier::spinoff_prover]
proof fn lemma_rt_tasks(ts: Seq<TaskV>, s: Seq<char>, pos: int, fuel: nat)
    requires
        forall|j: int| 0 <= j < ts.len() ==> task_wf(#[trigger] ts[j]),
        fuel >= enc_tasks_from(ts, 0).len(),
        0 <= pos,
        pos + enc_tasks_from(ts, 0).len() + 1 <= s.len(),
        s.subrange(pos, pos + enc_tasks_from(ts, 0).len() + 1) == enc_tasks_from(ts, 0).push(']'),
    ensures
        parse_tasks(s, pos, fuel) == Some((ts, pos + enc_tasks_from(ts, 0).len() + 1)),
{
    if ts.len() == 0 {
        assert(enc_tasks_from(ts, 0) =~= Seq::<char>::empty());
        assert(enc_tasks_from(ts, 0).push(']') =~= seq![']']);
        lemma_char_at(s, pos, ']');
        assert(sw(s, pos) == pos);
        assert(ts =~= Seq::<TaskV>::empty());
    } else {
        let te = enc_task(ts[0]);
        let rest = enc_tasks_from(ts, 1);
        assert(enc_tasks_from(ts, 0) == te + rest);
        lemma_enc_task_len(ts[0]);
        lemma_rt_tasks_first(ts[0], rest, s, pos, fuel);
        let q = pos + te.len();
        lemma_rt_tasks_rest(ts, 1, s, q, fuel);
        assert(seq![ts[0]] + ts.skip(1) =~= ts);
    }
}

/// The first task of a non-empty array: no comma before it.
#[verifier::rlimit(100)]
#[verifier::spinoff_prover]
proof fn lemma_rt_tasks_first(v: TaskV, tail: Seq<char>, s: Seq<char>, pos: int, fuel: nat)
    requires
        task_wf(v),
        fuel >= v.sessions.len(),
        0 <= pos,
        pos + enc_task(v).len() + tail.len() + 1 <= s.len(),
        s.subrange(pos, pos + enc_task(v).len() + tail.len() + 1) == (enc_task(v) + tail).push(
            ']',
        ),
    ensures
        s[pos] == '{',
        sw(s, pos) == pos,
        parse_task(s, pos, fuel) == Some((v, pos + enc_task(v).len())),
        s.subrange(pos + enc_task(v).len(), pos + enc_task(v).len() + tail.len() + 1)
            == tail.push(']'),
{
    let te = enc_task(v);
    assert((te + tail).push(']') =~= te + tail.push(']'));
    lemma_split(s, pos, te, tail.push(']'));
    lemma_rt_task(v, s, pos, fuel);
    assert(te[0] == '{') by {
        assert(enc_task(v) =~= seq!['{'] + enc_task(v).skip(1));
    }
    assert(s.subrange(pos, pos + te.len())[0] == s[pos]);
}

/// The round-trip law: decoding the encoding of any well-formed store
/// yields exactly that store.
#[verifier::rlimit(100)]
#[verifier::spinoff_prover]
pub proof fn lemma_store_round_trip(ts: Seq<TaskV>)
    requires
        store_wf(ts),
    ensures
        decode_store_spec(enc_store(ts)) == Some(ts),
{
    let s = enc_store(ts);
    let body = enc_tasks_from(ts, 0);
    assert(s =~= seq!['['] + body.push(']'));
    assert(s.subrange(0, s.len() as int) =~= s);
    lemma_split(s, 0, seq!['['], body.push(']'));
    lemma_char_at(s, 0, '[');
    assert(sw(s, 0) == 0);
    assert(s.len() > 0);
    lemma_rt_tasks(ts, s, 1, s.len() as nat);
    assert(parse_tasks(s, 1, s.len() as nat) == Some((ts, s.len() as int)));
    assert(sw(s, s.len() as int) == s.len());
    assert(parse_store(s) == Some(ts));
}

} // verus!
