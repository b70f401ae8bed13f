use pomotask::decode::{decode_store, DecodeError};
use pomotask::encode::encode_store;
use pomotask::model::{Session, Task};
use pomotask::store::add;

fn desc(s: &str) -> Vec<char> {
    s.chars().collect()
}

fn chars(s: &str) -> Vec<char> {
    s.chars().collect()
}

fn text(v: &[char]) -> String {
    v.iter().collect()
}

#[test]
fn encode_exact_text() {
    let mut tasks: Vec<Task> = Vec::new();
    add(&mut tasks, desc("Write report"));
    tasks[0].sessions.push(Session { start: 0, end: Some(1500) });
    tasks[0].sessions.push(Session { start: 1_700_000_000, end: None });
    let out = encode_store(&tasks);
    let expected = "[{\"id\":1,\"description\":\"Write report\",\"done\":false,\
                    \"archived\":false,\"pomodoros\":[{\"start_time\":\"1970-01-01T00:00:00Z\",\
                    \"end_time\":\"1970-01-01T00:25:00Z\"},{\"start_time\":\"2023-11-14T22:13:20Z\",\
                    \"end_time\":null}]}]";
    assert_eq!(text(&out), expected);
}

#[test]
fn encode_empty_store() {
    let tasks: Vec<Task> = Vec::new();
    assert_eq!(text(&encode_store(&tasks)), "[]");
}

#[test]
fn round_trip_reproduces_store() {
    let mut tasks: Vec<Task> = Vec::new();
    add(&mut tasks, desc("first \"quoted\" \\ task\nwith control"));
    add(&mut tasks, desc("second"));
    add(&mut tasks, desc("third"));
    tasks[0].done = true;
    tasks[1].archived = true;
    tasks[0].sessions.push(Session { start: 1_700_000_000, end: Some(1_700_000_900) });
    tasks[0].sessions.push(Session { start: 1_700_100_000, end: None });
    tasks[2].sessions.push(Session { start: 0, end: Some(253_402_300_799) });
    let out = encode_store(&tasks);
    let back = decode_store(&out).unwrap();
    assert_eq!(back, tasks);
}

#[test]
fn decode_empty_input_is_empty_store() {
    assert_eq!(decode_store(&chars("")), Ok(Vec::new()));
    assert_eq!(decode_store(&chars("  \n\t ")), Ok(Vec::new()));
    assert_eq!(decode_store(&chars("[]")), Ok(Vec::new()));
}

#[test]
fn decode_accepts_pretty_printed_text() {
    let input = chars(
        "[\n  {\n    \"id\": 7,\n    \"description\": \"hello world\",\n    \"done\": true,\n    \
         \"archived\": false,\n    \"pomodoros\": [\n      {\n        \"start_time\": \
         \"2023-11-14T22:13:20.123456789Z\",\n        \"end_time\": null\n      }\n    ]\n  }\n]\n",
    );
    let tasks = decode_store(&input).unwrap();
    assert_eq!(tasks.len(), 1);
    assert_eq!(tasks[0].id, 7);
    assert!(tasks[0].done);
    assert_eq!(text(&tasks[0].description), "hello world");
    assert_eq!(tasks[0].sessions.len(), 1);
    // fractional seconds are ignored; the whole seconds survive
    assert_eq!(tasks[0].sessions[0].start, 1_700_000_000);
    assert_eq!(tasks[0].sessions[0].end, None);
}

#[test]
fn decode_accepts_utc_offset_form() {
    let input = chars(
        "[{\"id\":1,\"description\":\"x\",\"done\":false,\"archived\":false,\
         \"pomodoros\":[{\"start_time\":\"1970-01-01T00:00:00+00:00\",\"end_time\":null}]}]",
    );
    let tasks = decode_store(&input).unwrap();
    assert_eq!(tasks[0].sessions[0].start, 0);
}

#[test]
fn decode_unescapes_strings() {
    let input = chars(
        "[{\"id\":1,\"description\":\"a\\\"b\\\\c\\nd\\u0009e\",\"done\":false,\
         \"archived\":false,\"pomodoros\":[]}]",
    );
    let tasks = decode_store(&input).unwrap();
    assert_eq!(text(&tasks[0].description), "a\"b\\c\nd\te");
}

#[test]
fn decode_rejects_malformed_text() {
    assert_eq!(decode_store(&chars("[")), Err(DecodeError::Malformed));
    assert_eq!(decode_store(&chars("{}")), Err(DecodeError::Malformed));
    assert_eq!(decode_store(&chars("[{\"id\":0}]")), Err(DecodeError::Malformed));
    assert_eq!(decode_store(&chars("[] trailing")), Err(DecodeError::Malformed));
    // ids must be unique
    let dup = "[{\"id\":1,\"description\":\"a\",\"done\":false,\"archived\":false,\"pomodoros\":[]},\
               {\"id\":1,\"description\":\"b\",\"done\":false,\"archived\":false,\"pomodoros\":[]}]";
    assert_eq!(decode_store(&chars(dup)), Err(DecodeError::Malformed));
    // an end before its start is not a well-formed session
    let skew = "[{\"id\":1,\"description\":\"a\",\"done\":false,\"archived\":false,\
                \"pomodoros\":[{\"start_time\":\"1970-01-01T00:25:00Z\",\
                \"end_time\":\"1970-01-01T00:00:00Z\"}]}]";
    assert_eq!(decode_store(&chars(skew)), Err(DecodeError::Malformed));
    // an empty description is rejected
    let empty = "[{\"id\":1,\"description\":\"\",\"done\":false,\"archived\":false,\"pomodoros\":[]}]";
    assert_eq!(decode_store(&chars(empty)), Err(DecodeError::Malformed));
    // a date that does not exist is rejected
    let bad_date = "[{\"id\":1,\"description\":\"a\",\"done\":false,\"archived\":false,\
                   \"pomodoros\":[{\"start_time\":\"2023-02-29T00:00:00Z\",\"end_time\":null}]}]";
    assert_eq!(decode_store(&chars(bad_date)), Err(DecodeError::Malformed));
}

#[test]
fn encode_last_representable_second() {
    let mut tasks: Vec<Task> = Vec::new();
    add(&mut tasks, desc("edge"));
    tasks[0].sessions.push(Session { start: 253_402_300_799, end: None });
    let out = encode_store(&tasks);
    assert!(text(&out).contains("9999-12-31T23:59:59Z"));
    let back = decode_store(&out).unwrap();
    assert_eq!(back, tasks);
}

#[test]
fn leap_year_dates_round_trip() {
    // 2024-02-29T12:00:00Z
    let t = 1_709_208_000;
    let mut tasks: Vec<Task> = Vec::new();
    add(&mut tasks, desc("leap"));
    tasks[0].sessions.push(Session { start: t, end: Some(t + 1) });
    let out = encode_store(&tasks);
    assert!(text(&out).contains("2024-02-29T12:00:00Z"));
    let back = decode_store(&out).unwrap();
    assert_eq!(back, tasks);
}
