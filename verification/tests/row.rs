use rewind_kv::memtable::MemTable;
use rewind_kv::row::{Log, LogAction, LogError};

fn entry(key_len: u32, tag: u8, value_len: Option<u64>, timestamp: u64) -> Vec<u8> {
    let mut b = key_len.to_le_bytes().to_vec();
    b.push(tag);
    if let Some(v) = value_len {
        b.extend(v.to_le_bytes());
    }
    b.extend(timestamp.to_le_bytes());
    b
}

#[test]
fn action_tags() {
    let input = [0u8, 7, 0, 0, 0, 0, 0, 0, 0];
    match LogAction::from_reader(&input, 0) {
        Ok((LogAction::Insert(v), next)) => {
            assert!(v.is_empty());
            assert_eq!(next, 9);
        }
        _ => panic!("expected an insert"),
    }
    let input = [1u8, 0, 0, 0, 0, 0, 0, 0, 0];
    assert!(matches!(LogAction::from_reader(&input, 0), Ok((LogAction::Update(_), 9))));
    let input = [2u8, 5];
    assert!(matches!(LogAction::from_reader(&input, 0), Ok((LogAction::Delete, 1))));
    let input = [3u8];
    assert!(matches!(LogAction::from_reader(&input, 0), Err(LogError::UnknownLogAction)));
}

#[test]
fn action_at_end_reads_as_insert() {
    let input: [u8; 0] = [];
    assert!(matches!(LogAction::from_reader(&input, 0), Ok((LogAction::Insert(_), 0))));
}

#[test]
fn log_entry_is_read() {
    let input = entry(3, 2, None, 42);
    match Log::from_reader(&input, 0) {
        Ok(Some((log, next))) => {
            assert_eq!(log.key, "");
            assert!(matches!(log.action, LogAction::Delete));
            assert_eq!(log.timestamp, 42);
            assert_eq!(next, input.len());
        }
        _ => panic!("expected an entry"),
    }
}

#[test]
fn zero_key_length_ends_the_log() {
    let input = entry(0, 1, Some(0), 7);
    assert!(matches!(Log::from_reader(&input, 0), Ok(None)));
}

#[test]
fn unknown_action_is_refused() {
    let input = entry(1, 9, None, 0);
    assert!(matches!(Log::from_reader(&input, 0), Err(LogError::UnknownLogAction)));
}

#[test]
fn memtable_reads_entries_in_order() {
    let mut input = entry(1, 0, Some(4), 10);
    input.extend(entry(2, 2, None, 11));
    input.extend(entry(5, 1, Some(0), 12));
    input.extend([0, 0, 0, 0, 99]);
    let table = MemTable::from_reader(&input).unwrap();
    let stamps: Vec<u64> = table.logs.iter().map(|l| l.timestamp).collect();
    assert_eq!(stamps, vec![10, 11, 12]);
    assert!(matches!(table.logs[0].action, LogAction::Insert(_)));
    assert!(matches!(table.logs[1].action, LogAction::Delete));
    assert!(matches!(table.logs[2].action, LogAction::Update(_)));
}

#[test]
fn memtable_of_nothing_is_empty() {
    let table = MemTable::from_reader(&[]).unwrap();
    assert!(table.logs.is_empty());
}

#[test]
fn memtable_stops_on_unknown_action() {
    let mut input = entry(1, 2, None, 1);
    input.extend(entry(1, 4, None, 2));
    assert!(matches!(MemTable::from_reader(&input), Err(LogError::UnknownLogAction)));
}

#[test]
fn memtable_pads_a_short_tail_with_zeros() {
    let input = [1u8, 0, 2];
    let table = MemTable::from_reader(&input).unwrap();
    assert_eq!(table.logs.len(), 1);
    assert!(matches!(table.logs[0].action, LogAction::Insert(_)));
    assert_eq!(table.logs[0].timestamp, 0);
}
