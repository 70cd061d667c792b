//! Tests for the record codec: exact encodings, round trips, and
//! rejection of malformed lines.
use kvs::record::{decode_line, encode_line, LogLine};
use kvs::KvError;

fn line(cmd: &str, key: &str, value: &str) -> LogLine {
    LogLine::new(cmd.to_string(), key.to_string(), value.to_string())
}

#[test]
fn encode_plain_record_exactly() {
    let rec = line("set", "a", "1");
    assert_eq!(encode_line(&rec), "set\ta\t1");
}

#[test]
fn encode_escapes_tabs_and_backslashes() {
    let rec = line("set", "a\tb", "c\\d");
    assert_eq!(encode_line(&rec), "set\ta\\tb\tc\\\\d");
}

#[test]
fn encode_escapes_newlines() {
    let rec = line("set", "k", "two\nlines");
    assert_eq!(encode_line(&rec), "set\tk\ttwo\\nlines");
}

#[test]
fn decode_inverts_encode_on_plain_fields() {
    let rec = line("set", "key1", "value1");
    let back = decode_line(&encode_line(&rec)).unwrap();
    assert_eq!(back.cmd, "set");
    assert_eq!(back.key, "key1");
    assert_eq!(back.value, "value1");
}

#[test]
fn decode_inverts_encode_on_special_characters() {
    let rec = line("rm", "ta\tb\\na\nme", "v\\\\t\n\t");
    let back = decode_line(&encode_line(&rec)).unwrap();
    assert_eq!(back.cmd, "rm");
    assert_eq!(back.key, "ta\tb\\na\nme");
    assert_eq!(back.value, "v\\\\t\n\t");
}

#[test]
fn decode_inverts_encode_on_empty_fields() {
    let rec = line("rm", "", "");
    let back = decode_line(&encode_line(&rec)).unwrap();
    assert_eq!(back.cmd, "rm");
    assert_eq!(back.key, "");
    assert_eq!(back.value, "");
}

#[test]
fn decode_rejects_too_few_fields() {
    assert!(matches!(decode_line("set\ta"), Err(KvError::CorruptRecord)));
}

#[test]
fn decode_rejects_too_many_fields() {
    assert!(matches!(decode_line("set\ta\t1\tx"), Err(KvError::CorruptRecord)));
}

#[test]
fn decode_rejects_dangling_escape() {
    assert!(matches!(decode_line("set\ta\t1\\"), Err(KvError::CorruptRecord)));
}

#[test]
fn decode_rejects_unknown_escape() {
    assert!(matches!(decode_line("set\ta\t\\q"), Err(KvError::CorruptRecord)));
}

#[test]
fn log_line_new_keeps_fields() {
    let rec = LogLine::new("set".to_string(), "k".to_string(), "v".to_string());
    assert_eq!(rec.cmd, "set");
    assert_eq!(rec.key, "k");
    assert_eq!(rec.value, "v");
}
