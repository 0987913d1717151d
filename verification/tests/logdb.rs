use rewind_kv::logdb::{encode_record, find_record, RecordError};

fn log_of(records: &[(&str, &str)]) -> Vec<u8> {
    let mut log = Vec::new();
    for (k, v) in records {
        log.extend(encode_record(k, v));
    }
    log
}

#[test]
fn record_layout_is_lengths_then_bytes() {
    let r = encode_record("ab", "c");
    assert_eq!(r, vec![2, 0, 0, 0, 1, 0, 0, 0, 0, 0, 0, 0, b'a', b'b', b'c']);
}

#[test]
fn record_lengths_count_utf8_bytes() {
    let r = encode_record("é", "");
    assert_eq!(r[0..4], [2, 0, 0, 0]);
    assert_eq!(r[4..12], [0; 8]);
    assert_eq!(r[12..], [0xc3, 0xa9]);
}

#[test]
fn get_after_set_gives_value() {
    let log = log_of(&[("key1", "value1")]);
    assert_eq!(find_record(&log, "key1"), Ok(Some("value1".to_string())));
}

#[test]
fn get_after_set_behind_other_keys() {
    let log = log_of(&[("a", "1"), ("bb", "22"), ("key", "välue")]);
    assert_eq!(find_record(&log, "key"), Ok(Some("välue".to_string())));
    assert_eq!(find_record(&log, "bb"), Ok(Some("22".to_string())));
}

#[test]
fn first_write_wins() {
    let log = log_of(&[("k", "old"), ("k", "new")]);
    assert_eq!(find_record(&log, "k"), Ok(Some("old".to_string())));
}

#[test]
fn missing_key_gives_none() {
    let log = log_of(&[("a", "1"), ("b", "2")]);
    assert_eq!(find_record(&log, "c"), Ok(None));
    assert_eq!(find_record(&[], "c"), Ok(None));
}

#[test]
fn set_keeps_other_keys() {
    let before = log_of(&[("a", "1")]);
    let after = log_of(&[("a", "1"), ("b", "2")]);
    assert_eq!(find_record(&before, "a"), find_record(&after, "a"));
    assert_eq!(find_record(&before, "z"), find_record(&after, "z"));
}

#[test]
fn empty_key_and_value() {
    let log = log_of(&[("", "")]);
    assert_eq!(log.len(), 12);
    assert_eq!(find_record(&log, ""), Ok(Some(String::new())));
}

#[test]
fn short_tail_reads_as_end() {
    let mut log = log_of(&[("a", "1")]);
    log.extend([9, 9, 9]);
    assert_eq!(find_record(&log, "b"), Ok(None));
}

#[test]
fn truncated_value_length_is_refused() {
    let mut log = log_of(&[("a", "1")]);
    log.extend([1, 0, 0, 0, 5]);
    assert_eq!(find_record(&log, "b"), Err(RecordError::TruncatedValueLength));
}

#[test]
fn truncated_key_is_refused() {
    let mut log = encode_record("abc", "x");
    log.truncate(13);
    assert_eq!(find_record(&log, "abc"), Err(RecordError::TruncatedKey));
}

#[test]
fn invalid_key_is_refused() {
    let log = vec![1, 0, 0, 0, 0, 0, 0, 0, 0, 0, 0, 0, 0xff];
    assert_eq!(find_record(&log, "a"), Err(RecordError::InvalidKeyUtf8));
}

#[test]
fn truncated_value_is_refused() {
    let mut log = encode_record("a", "value");
    log.pop();
    assert_eq!(find_record(&log, "b"), Err(RecordError::TruncatedValue));
}

#[test]
fn invalid_value_is_refused_only_when_read() {
    let log = vec![1, 0, 0, 0, 1, 0, 0, 0, 0, 0, 0, 0, b'a', 0xff];
    assert_eq!(find_record(&log, "a"), Err(RecordError::InvalidValueUtf8));
    assert_eq!(find_record(&log, "b"), Ok(None));
}

#[test]
fn reads_after_a_run_of_writes() {
    let writes = [("x", "1"), ("y", "2"), ("x", "3"), ("zz", ""), ("y", "4")];
    let log = log_of(&writes);
    assert_eq!(find_record(&log, "x"), Ok(Some("1".to_string())));
    assert_eq!(find_record(&log, "y"), Ok(Some("2".to_string())));
    assert_eq!(find_record(&log, "zz"), Ok(Some(String::new())));
    assert_eq!(find_record(&log, "w"), Ok(None));
}
