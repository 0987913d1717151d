use rewind_kv::instance::memory::heap::HeapMemory;
use rewind_kv::instance::memory::{Memory, MemoryType};
use rewind_kv::instance::metadata::version::{InstanceVersion, VersionError};
use rewind_kv::instance::metadata::{InstanceMetadata, MetadataError};

fn version(pre: Option<&str>) -> InstanceVersion {
    InstanceVersion { major: 1, minor: 2, patch: 3, pre: pre.map(|s| s.to_string()) }
}

fn saved(v: &InstanceVersion) -> Vec<u8> {
    let mut out = Vec::new();
    v.save_to_writer(&mut out);
    out
}

#[test]
fn current_version_is_alpha() {
    let v = InstanceVersion::current();
    assert_eq!((v.major, v.minor, v.patch), (0, 0, 0));
    assert_eq!(v.pre.as_deref(), Some("alpha"));
}

#[test]
fn version_record_layout() {
    assert_eq!(saved(&version(Some("rc"))), vec![2, 1, 0, 2, 0, 3, 0, b'r', b'c']);
    assert_eq!(saved(&version(None)), vec![0, 1, 0, 2, 0, 3, 0]);
}

#[test]
fn version_round_trips() {
    for pre in [None, Some("alpha"), Some("ünïcode")] {
        let v = version(pre);
        let bytes = saved(&v);
        let (back, next) = InstanceVersion::from_reader(&bytes, 0).unwrap();
        assert_eq!(back, v);
        assert_eq!(next, bytes.len());
    }
}

#[test]
fn empty_tag_reads_back_as_none() {
    let bytes = saved(&version(Some("")));
    let (back, _) = InstanceVersion::from_reader(&bytes, 0).unwrap();
    assert_eq!(back.pre, None);
}

#[test]
fn version_at_end_is_current() {
    let (v, next) = InstanceVersion::from_reader(&[], 0).unwrap();
    assert_eq!(v, InstanceVersion::current());
    assert_eq!(next, 0);
}

#[test]
fn truncated_version_is_refused() {
    let mut bytes = saved(&version(Some("abc")));
    bytes.pop();
    assert!(matches!(InstanceVersion::from_reader(&bytes, 0), Err(VersionError::Truncated)));
}

#[test]
fn invalid_tag_is_decoded_lossily() {
    let bytes = vec![2, 0, 0, 0, 0, 0, 0, b'a', 0xff];
    let (v, _) = InstanceVersion::from_reader(&bytes, 0).unwrap();
    assert_eq!(v.pre.as_deref(), Some("a\u{fffd}"));
}

#[test]
fn version_equality_compares_all_fields() {
    assert_eq!(version(Some("x")), version(Some("x")));
    assert_ne!(version(Some("x")), version(Some("y")));
    assert_ne!(version(Some("x")), version(None));
    let mut other = version(None);
    other.patch = 9;
    assert_ne!(version(None), other);
}

#[test]
fn empty_metadata_is_current_without_names() {
    let m = InstanceMetadata::new(&[]).unwrap();
    assert_eq!(m.version, InstanceVersion::current());
    assert!(m.databases().is_empty());
}

#[test]
fn metadata_without_names_round_trips() {
    let m = InstanceMetadata { version: InstanceVersion::current(), database_names: vec![] };
    let bytes = m.save();
    assert_eq!(bytes, vec![5, 0, 0, 0, 0, 0, 0, b'a', b'l', b'p', b'h', b'a', 0, 0, 0, 0]);
    let back = InstanceMetadata::new(&bytes).unwrap();
    assert_eq!(back.version, m.version);
    assert!(back.databases().is_empty());
}

#[test]
fn metadata_names_are_read() {
    let mut bytes = saved(&InstanceVersion::current());
    bytes.extend(9u32.to_le_bytes());
    bytes.extend([3, 0, b'd', b'e', b'v', 2, 0, b'q', b'a']);
    let m = InstanceMetadata::new(&bytes).unwrap();
    assert_eq!(m.databases(), &["dev".to_string(), "qa".to_string()]);
}

#[test]
fn metadata_save_writes_names_without_lengths() {
    let m = InstanceMetadata {
        version: InstanceVersion::current(),
        database_names: vec!["dev".to_string(), "qa".to_string()],
    };
    let bytes = m.save();
    let head = saved(&InstanceVersion::current());
    assert_eq!(bytes[..head.len()], head[..]);
    assert_eq!(bytes[head.len()..head.len() + 4], 9u32.to_le_bytes());
    assert_eq!(&bytes[head.len() + 4..], b"devqa");
    assert!(matches!(InstanceMetadata::new(&bytes), Err(MetadataError::NameTruncated)));
}

#[test]
fn add_database_appends_a_name() {
    let mut m = InstanceMetadata { version: InstanceVersion::current(), database_names: vec![] };
    m.add_database("dev");
    m.add_database("qa");
    assert_eq!(m.databases(), &["dev".to_string(), "qa".to_string()]);
    assert_eq!(m.version, InstanceVersion::current());
}

#[test]
fn metadata_short_block_is_padded_with_zeros() {
    let mut bytes = saved(&InstanceVersion::current());
    bytes.extend(6u32.to_le_bytes());
    bytes.extend([1, 0, b'x']);
    let m = InstanceMetadata::new(&bytes).unwrap();
    assert_eq!(m.databases(), &["x".to_string(), String::new()]);
}

#[test]
fn metadata_errors() {
    assert!(matches!(InstanceMetadata::new(&[3, 0]), Err(MetadataError::VersionTruncated)));
    let bytes = saved(&version(None));
    assert!(matches!(InstanceMetadata::new(&bytes), Err(MetadataError::VersionMismatch)));
    let mut bytes = saved(&InstanceVersion::current());
    bytes.extend(4u32.to_le_bytes());
    bytes.extend([9, 0, b'x', b'y']);
    assert!(matches!(InstanceMetadata::new(&bytes), Err(MetadataError::NameTruncated)));
}

#[test]
fn heap_memory_makes_buffers_on_first_use() {
    let mut h = HeapMemory::new();
    assert!(h.metadata.is_none());
    assert!(h.get_for_read(MemoryType::Metadata).is_empty());
    assert_eq!(h.metadata, Some(vec![]));
}

#[test]
fn heap_memory_reads_what_was_written() {
    let mut h = HeapMemory::new();
    h.get_for_write(MemoryType::Metadata).extend([1, 2, 3]);
    assert_eq!(h.get_for_read(MemoryType::Metadata), &vec![1, 2, 3]);
    h.get_for_write(MemoryType::Metadata).push(4);
    assert_eq!(h.get_for_read(MemoryType::Metadata), &vec![1, 2, 3, 4]);
    assert_eq!(h.metadata, Some(vec![1, 2, 3, 4]));
}
