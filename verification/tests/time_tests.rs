use pomotask::time::{civil_from_secs, current_timestamp, days_from_civil_exec, POMODORO_SECONDS, TS_MAX};

#[test]
fn pomodoro_duration_is_25_minutes() {
    assert_eq!(POMODORO_SECONDS, 25 * 60);
}

#[test]
fn civil_of_epoch() {
    assert_eq!(civil_from_secs(0), (1970, 1, 1, 0, 0, 0));
}

#[test]
fn civil_of_known_instant() {
    assert_eq!(civil_from_secs(1_700_000_000), (2023, 11, 14, 22, 13, 20));
}

#[test]
fn civil_of_last_second() {
    assert_eq!(civil_from_secs(TS_MAX), (9999, 12, 31, 23, 59, 59));
}

#[test]
fn day_index_of_civil_dates() {
    assert_eq!(days_from_civil_exec(1970, 1, 1), 0);
    assert_eq!(days_from_civil_exec(1970, 2, 1), 31);
    // 1972 is the first leap year after the epoch
    assert_eq!(days_from_civil_exec(1973, 1, 1), 365 * 3 + 1);
}

#[test]
fn current_timestamp_is_in_range() {
    let t = current_timestamp().unwrap();
    assert!(0 <= t && t <= TS_MAX);
    // the clock reads a time after 2020-01-01T00:00:00Z
    assert!(t > 1_577_836_800);
}
