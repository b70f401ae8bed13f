//! Timestamps and proleptic-Gregorian calendar arithmetic.
//!
//! A timestamp is a number of seconds since the Unix epoch
//! (1970-01-01T00:00:00Z), kept between 0 and `TS_MAX`, the last
//! second of year 9999 — the range a four-digit RFC 3339 year can
//! express.

use vstd::prelude::*;

verus! {

/// Length of one pomodoro work session, in seconds (25 minutes).
pub const POMODORO_SECONDS: i64 = 1500;

/// Last representable timestamp: 9999-12-31T23:59:59Z.
pub const TS_MAX: i64 = 253402300799;

pub open spec fn valid_ts(t: int) -> bool {
    0 <= t <= TS_MAX
}

pub open spec fn is_leap_year(y: int) -> bool {
    y % 4 == 0 && (y % 100 != 0 || y % 400 == 0)
}

pub open spec fn days_in_year(y: int) -> int {
    if is_leap_year(y) {
        366
    } else {
        365
    }
}

pub open spec fn days_in_month(y: int, m: int) -> int {
    if m == 2 {
        if is_leap_year(y) {
            29
        } else {
            28
        }
    } else if m == 4 || m == 6 || m == 9 || m == 11 {
        30
    } else {
        31
    }
}

/// Days between 1970-01-01 and the first day of year `y`.
pub open spec fn days_before_year(y: int) -> int
    decreases y,
{
    if y <= 1970 {
        0
    } else {
        days_before_year(y - 1) + days_in_year(y - 1)
    }
}

/// Days between the first day of year `y` and the first day of its month `m`.
pub open spec fn days_before_month(y: int, m: int) -> int
    decreases m,
{
    if m <= 1 {
        0
    } else {
        days_before_month(y, m - 1) + days_in_month(y, m - 1)
    }
}

/// Day index (days since 1970-01-01) of the civil date y-m-d.
pub open spec fn days_from_civil(y: int, m: int, d: int) -> int {
    days_before_year(y) + days_before_month(y, m) + (d - 1)
}

pub open spec fn valid_civil(y: int, m: int, d: int, h: int, mi: int, s: int) -> bool {
    1970 <= y <= 9999 && 1 <= m <= 12 && 1 <= d <= days_in_month(y, m) && 0 <= h < 24 && 0 <= mi
        < 60 && 0 <= s < 60
}

pub open spec fn secs_from_civil(y: int, m: int, d: int, h: int, mi: int, s: int) -> int {
    days_from_civil(y, m, d) * 86400 + h * 3600 + mi * 60 + s
}

/// Peel whole years off a day count, starting at year `y`.
pub open spec fn year_split(y: int, z: int) -> (int, int)
    decreases z,
{
    if 0 <= z && z >= days_in_year(y) {
        year_split(y + 1, z - days_in_year(y))
    } else {
        (y, z)
    }
}

/// Peel whole months off a day count within year `y`, starting at month `m`.
pub open spec fn month_split(y: int, m: int, z: int) -> (int, int)
    decreases z,
{
    if 0 <= z && z >= days_in_month(y, m) && m <= 12 {
        month_split(y, m + 1, z - days_in_month(y, m))
    } else {
        (m, z)
    }
}

/// Civil date and time-of-day of a timestamp, as (y, m, d, h, mi, s).
pub open spec fn civil_of_secs(t: int) -> (int, int, int, int, int, int) {
    let z = t / 86400;
    let sod = t % 86400;
    let (y, zr) = year_split(1970, z);
    let (m, zm) = month_split(y, 1, zr);
    (y, m, zm + 1, sod / 3600, (sod % 3600) / 60, sod % 60)
}

/// Leap years strictly before year `y` (for y >= 1).
pub open spec fn leaps_before(y: int) -> int {
    (y - 1) / 4 - (y - 1) / 100 + (y - 1) / 400
}

pub proof fn lemma_dby_closed(y: int)
    requires
        1970 <= y,
    ensures
        days_before_year(y) == 365 * (y - 1970) + leaps_before(y) - leaps_before(1970),
    decreases y,
{
    if y > 1970 {
        lemma_dby_closed(y - 1);
    }
}

pub proof fn lemma_dby_10000()
    ensures
        days_before_year(10000) == 2932897,
{
    lemma_dby_closed(10000);
}

pub proof fn lemma_dby_mono(a: int, b: int)
    requires
        1970 <= a <= b,
    ensures
        days_before_year(a) <= days_before_year(b),
        a < b ==> days_before_year(a) + days_in_year(a) <= days_before_year(b),
    decreases b - a,
{
    if a < b {
        lemma_dby_mono(a + 1, b);
    }
}

pub proof fn lemma_dby_le(y: int)
    requires
        1970 <= y,
    ensures
        days_before_year(y) <= 366 * (y - 1970),
    decreases y,
{
    if y > 1970 {
        lemma_dby_le(y - 1);
    }
}

pub proof fn lemma_dbm_le(y: int, m: int)
    requires
        1 <= m <= 13,
    ensures
        days_before_month(y, m) <= days_before_month(y, 13),
        days_before_month(y, 13) == days_in_year(y),
        0 <= days_before_month(y, m),
    decreases 13 - m,
{
    reveal_with_fuel(days_before_month, 14);
    if m < 13 {
        lemma_dbm_le(y, m + 1);
    }
}

pub proof fn lemma_year_split(y: int, z: int)
    requires
        1970 <= y,
        0 <= z,
    ensures
        ({
            let (y2, z2) = year_split(y, z);
            &&& y <= y2
            &&& 0 <= z2 < days_in_year(y2)
            &&& days_before_year(y2) + z2 == days_before_year(y) + z
        }),
    decreases z,
{
    if z >= days_in_year(y) {
        lemma_year_split(y + 1, z - days_in_year(y));
    }
}

pub proof fn lemma_month_split(y: int, m: int, z: int)
    requires
        1 <= m <= 12,
        0 <= z,
        days_before_month(y, m) + z < days_in_year(y),
    ensures
        ({
            let (m2, z2) = month_split(y, m, z);
            &&& m <= m2 <= 12
            &&& 0 <= z2 < days_in_month(y, m2)
            &&& days_before_month(y, m2) + z2 == days_before_month(y, m) + z
        }),
    decreases z,
{
    lemma_dbm_le(y, m);
    if z >= days_in_month(y, m) && m <= 12 {
        if m == 12 {
            assert(days_before_month(y, 13) == days_before_month(y, 12) + days_in_month(y, 12));
            assert(false);
        } else {
            lemma_month_split(y, m + 1, z - days_in_month(y, m));
        }
    } else {
        if m == 12 {
            assert(days_before_month(y, 13) == days_before_month(y, 12) + days_in_month(y, 12));
        }
    }
}

/// The civil decomposition of a valid timestamp is a valid date and
/// converts back to the same timestamp.
pub proof fn lemma_civil_inverse(t: int)
    requires
        valid_ts(t),
    ensures
        ({
            let (y, m, d, h, mi, s) = civil_of_secs(t);
            &&& valid_civil(y, m, d, h, mi, s)
            &&& secs_from_civil(y, m, d, h, mi, s) == t
        }),
{
    let z = t / 86400;
    let sod = t % 86400;
    assert(0 <= z <= 2932896 && 0 <= sod < 86400 && z * 86400 + sod == t) by (nonlinear_arith)
        requires
            0 <= t <= 253402300799,
            z == t / 86400,
            sod == t % 86400,
    ;
    let (y, zr) = year_split(1970, z);
    lemma_year_split(1970, z);
    lemma_dby_10000();
    if y >= 10000 {
        lemma_dby_mono(10000, y);
        assert(false);
    }
    let (m, zm) = month_split(y, 1, zr);
    lemma_month_split(y, 1, zr);
    let h = sod / 3600;
    let mi = (sod % 3600) / 60;
    let s = sod % 60;
    assert(0 <= h < 24 && 0 <= mi < 60 && 0 <= s < 60 && h * 3600 + mi * 60 + s == sod)
        by (nonlinear_arith)
        requires
            0 <= sod < 86400,
            h == sod / 3600,
            mi == (sod % 3600) / 60,
            s == sod % 60,
    ;
}

pub proof fn lemma_dfc_bound(y: int, m: int, d: int)
    requires
        1970 <= y <= 9999,
        1 <= m <= 12,
        1 <= d <= days_in_month(y, m),
    ensures
        0 <= days_from_civil(y, m, d) <= 2932896,
{
    lemma_dbm_le(y, m);
    lemma_dbm_le(y, m + 1);
    assert(days_before_month(y, m + 1) == days_before_month(y, m) + days_in_month(y, m));
    lemma_dby_mono(1970, y);
    lemma_dby_mono(y + 1, 10000);
    lemma_dby_10000();
    assert(days_before_year(y + 1) == days_before_year(y) + days_in_year(y));
}

fn days_in_year_exec(y: i64) -> (r: i64)
    ensures
        r == days_in_year(y as int),
{
    if y % 4 == 0 && (y % 100 != 0 || y % 400 == 0) {
        366
    } else {
        365
    }
}

pub fn days_in_month_exec(y: i64, m: i64) -> (r: i64)
    ensures
        r == days_in_month(y as int, m as int),
{
    if m == 2 {
        if y % 4 == 0 && (y % 100 != 0 || y % 400 == 0) {
            29
        } else {
            28
        }
    } else if m == 4 || m == 6 || m == 9 || m == 11 {
        30
    } else {
        31
    }
}

/// Day index of a valid civil date.
pub fn days_from_civil_exec(y: i64, m: i64, d: i64) -> (r: i64)
    requires
        1970 <= y <= 9999,
        1 <= m <= 12,
        1 <= d <= days_in_month(y as int, m as int),
    ensures
        r == days_from_civil(y as int, m as int, d as int),
        0 <= r <= 2932896,
{
    proof {
        lemma_dfc_bound(y as int, m as int, d as int);
    }
    let mut acc: i64 = 0;
    let mut yy: i64 = 1970;
    while yy < y
        invariant
            1970 <= yy <= y <= 9999,
            acc == days_before_year(yy as int),
            0 <= acc <= 366 * (yy - 1970),
        decreases y - yy,
    {
        proof {
            lemma_dby_le(yy as int);
        }
        acc = acc + days_in_year_exec(yy);
        yy = yy + 1;
    }
    let mut mm: i64 = 1;
    let mut macc: i64 = 0;
    while mm < m
        invariant
            1 <= mm <= m <= 12,
            macc == days_before_month(y as int, mm as int),
            0 <= macc <= 366,
        decreases m - mm,
    {
        proof {
            lemma_dbm_le(y as int, mm + 1);
        }
        macc = macc + days_in_month_exec(y, mm);
        mm = mm + 1;
    }
    acc + macc + (d - 1)
}

/// Civil decomposition of a valid timestamp.
pub fn civil_from_secs(t: i64) -> (r: (i64, i64, i64, i64, i64, i64))
    requires
        valid_ts(t as int),
    ensures
        ({
            let (y, m, d, h, mi, s) = r;
            (y as int, m as int, d as int, h as int, mi as int, s as int) == civil_of_secs(
                t as int,
            ) && valid_civil(y as int, m as int, d as int, h as int, mi as int, s as int)
                && secs_from_civil(y as int, m as int, d as int, h as int, mi as int, s as int)
                == t as int
        }),
{
    proof {
        lemma_civil_inverse(t as int);
        lemma_dby_10000();
    }
    proof {
        assert(0 <= t as int / 86400 <= 2932896 && 0 <= t as int % 86400 < 86400)
            by (nonlinear_arith)
            requires
                0 <= t as int <= 253402300799,
        ;
    }
    let z = t / 86400;
    let sod = t % 86400;
    let mut y: i64 = 1970;
    let mut rem: i64 = z;
    while rem >= days_in_year_exec(y)
        invariant
            1970 <= y <= 9999,
            0 <= rem,
            days_before_year(y as int) + rem == z,
            year_split(1970, z as int) == year_split(y as int, rem as int),
            z <= 2932896,
        decreases rem,
    {
        proof {
            if y + 1 >= 10000 {
                lemma_dby_10000();
                lemma_dby_mono(10000, y as int + 1);
                assert(false);
            }
        }
        rem = rem - days_in_year_exec(y);
        y = y + 1;
    }
    let mut m: i64 = 1;
    while m <= 12 && rem >= days_in_month_exec(y, m)
        invariant
            1 <= m <= 13,
            0 <= rem,
            month_split(y as int, 1, year_split(1970, z as int).1) == month_split(
                y as int,
                m as int,
                rem as int,
            ),
            rem < days_in_year(y as int),
        decreases 13 - m,
    {
        rem = rem - days_in_month_exec(y, m);
        m = m + 1;
    }
    proof {
        lemma_year_split(1970, z as int);
        lemma_month_split(y as int, 1, year_split(1970, z as int).1);
    }
    let d = rem + 1;
    let h = sod / 3600;
    let mi = (sod % 3600) / 60;
    let s = sod % 60;
    (y, m, d, h, mi, s)
}

/// Relies on chrono's `Utc::now` (a reading of the system clock) and
/// `DateTime::timestamp` (whole seconds since the Unix epoch of that
/// reading). Nothing can be promised of a clock reading.
#[verifier::external_body]
fn system_now_seconds() -> i64 {
    chrono::Utc::now().timestamp()
}

/// The current time as a timestamp in the representable range, or
/// `None` when the system clock is outside it.
pub fn current_timestamp() -> (r: Option<i64>)
    ensures
        r matches Some(t) ==> valid_ts(t as int),
{
    let t = system_now_seconds();
    if 0 <= t && t <= TS_MAX {
        Some(t)
    } else {
        None
    }
}

} // verus!
