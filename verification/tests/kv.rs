use rewind_kv::kv::memory::heap::HeapMemory;
use rewind_kv::kv::memory::{Memory, MemoryType};
use rewind_kv::kv::DatabaseVersion;
use rewind_kv::database::KValue;

#[test]
fn current_database_version_is_zero() {
    let v = DatabaseVersion::current();
    assert_eq!((v.major, v.minor, v.patch), (0, 0, 0));
}

#[test]
fn compatibility_needs_same_major_and_no_older_minor() {
    let v = DatabaseVersion { major: 1, minor: 2, patch: 0 };
    assert!(v.is_compatible(DatabaseVersion { major: 1, minor: 2, patch: 9 }));
    assert!(v.is_compatible(DatabaseVersion { major: 1, minor: 0, patch: 0 }));
    assert!(!v.is_compatible(DatabaseVersion { major: 1, minor: 3, patch: 0 }));
    assert!(!v.is_compatible(DatabaseVersion { major: 2, minor: 0, patch: 0 }));
    assert!(DatabaseVersion::current().is_compatible(DatabaseVersion::current()));
}

#[test]
fn heap_regions_are_separate() {
    let mut h = HeapMemory { data: vec![1], wal: vec![2], metadata: vec![3] };
    assert_eq!(h.read(MemoryType::Data), &vec![1]);
    assert_eq!(h.read(MemoryType::Wal), &vec![2]);
    assert_eq!(h.read(MemoryType::Metadata), &vec![3]);
    h.write(MemoryType::Wal).push(5);
    assert_eq!(h.read(MemoryType::Wal), &vec![2, 5]);
    assert_eq!(h.read(MemoryType::Data), &vec![1]);
}

#[test]
fn kvalue_holds_its_fields() {
    let kv = KValue { checksum: 7, key: vec![1], value: vec![2, 3] };
    assert_eq!((kv.checksum, kv.key.len(), kv.value.len()), (7, 1, 2));
}
