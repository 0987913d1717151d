//! The record log of the file-backed key-value database.
//!
//! A log is a concatenation of records. A record is the key's byte length
//! (u32, little endian), the value's byte length (u64, little endian), the
//! key's UTF-8 bytes and the value's UTF-8 bytes. Writing appends a record;
//! reading scans from the start and answers with the first record whose key
//! matches.
use vstd::prelude::*;
use vstd::bytes::*;
use vstd::slice::slice_to_vec;
use vstd::utf8::*;
use crate::text::{utf8_str, lemma_decode_encode};

verus! {

/// Why a record log could not be read.
#[derive(Debug, Clone, Copy, PartialEq, Eq, Structural)]
pub enum RecordError {
    /// A record header ends before its value length.
    TruncatedValueLength,
    /// The log ends inside a record's key.
    TruncatedKey,
    /// A record's key is not valid UTF-8.
    InvalidKeyUtf8,
    /// The log ends inside a record's value.
    TruncatedValue,
    /// The value of the matching record is not valid UTF-8.
    InvalidValueUtf8,
}

/// The key length that the record at the start of `log` announces.
pub open spec fn header_key_len(log: Seq<u8>) -> nat {
    spec_u32_from_le_bytes(log.subrange(0, 4)) as nat
}

/// The value length that the record at the start of `log` announces.
pub open spec fn header_value_len(log: Seq<u8>) -> nat {
    spec_u64_from_le_bytes(log.subrange(4, 12)) as nat
}

/// The full length of the record at the start of `log`.
pub open spec fn record_len(log: Seq<u8>) -> nat {
    12 + header_key_len(log) + header_value_len(log)
}

/// The record that stores `value` under `key`.
pub open spec fn record_bytes(key: Seq<char>, value: Seq<char>) -> Seq<u8> {
    let kb = encode_utf8(key);
    let vb = encode_utf8(value);
    spec_u32_to_le_bytes(kb.len() as u32) + spec_u64_to_le_bytes(vb.len() as u64) + kb + vb
}

/// What a lookup of `key` in `log` answers: the value of the first record
/// whose key is `key`, `None` when the log runs out first (fewer than four
/// bytes left), or the first defect met on the way.
pub open spec fn lookup(log: Seq<u8>, key: Seq<char>) -> Result<Option<Seq<char>>, RecordError>
    decreases log.len(),
{
    if log.len() < 4 {
        Ok(None)
    } else if log.len() < 12 {
        Err(RecordError::TruncatedValueLength)
    } else if log.len() < 12 + header_key_len(log) {
        Err(RecordError::TruncatedKey)
    } else {
        let kend = 12 + header_key_len(log);
        let kb = log.subrange(12, kend as int);
        if !valid_utf8(kb) {
            Err(RecordError::InvalidKeyUtf8)
        } else if log.len() < record_len(log) {
            Err(RecordError::TruncatedValue)
        } else if decode_utf8(kb) == key {
            let vb = log.subrange(kend as int, record_len(log) as int);
            if valid_utf8(vb) {
                Ok(Some(decode_utf8(vb)))
            } else {
                Err(RecordError::InvalidValueUtf8)
            }
        } else {
            lookup(log.skip(record_len(log) as int), key)
        }
    }
}

/// `log` is made of complete records, with nothing left over.
pub open spec fn whole_records(log: Seq<u8>) -> bool
    decreases log.len(),
{
    if log.len() == 0 {
        true
    } else if log.len() < 12 || log.len() < record_len(log) {
        false
    } else {
        whole_records(log.skip(record_len(log) as int))
    }
}

/// The bytes that writing `value` under `key` appends to the log.
pub fn encode_record(key: &str, value: &str) -> (r: Vec<u8>)
    ensures
        r@ == record_bytes(key@, value@),
{
    let kb = key.as_bytes();
    let vb = value.as_bytes();
    let mut buf = u32_to_le_bytes(kb.len() as u32);
    let mut value_len = u64_to_le_bytes(vb.len() as u64);
    buf.append(&mut value_len);
    let mut key_bytes = slice_to_vec(kb);
    buf.append(&mut key_bytes);
    let mut value_bytes = slice_to_vec(vb);
    buf.append(&mut value_bytes);
    buf
}

/// Looks `key` up in `log` as a read of the database file does.
pub fn find_record(log: &[u8], key: &str) -> (r: Result<Option<String>, RecordError>)
    ensures
        match r {
            Ok(Some(v)) => lookup(log@, key@) == Ok::<Option<Seq<char>>, RecordError>(Some(v@)),
            Ok(None) => lookup(log@, key@) == Ok::<Option<Seq<char>>, RecordError>(None),
            Err(e) => lookup(log@, key@) == Err::<Option<Seq<char>>, RecordError>(e),
        },
{
    let wanted: String = key.to_owned();
    let mut pos: usize = 0;
    assert(log@.skip(0) =~= log@);
    loop
        invariant
            pos <= log@.len(),
            wanted@ == key@,
            lookup(log@, key@) == lookup(log@.skip(pos as int), key@),
        decreases log@.len() - pos,
    {
        let ghost rest = log@.skip(pos as int);
        let left = log.len() - pos;
        if left < 4 {
            return Ok(None);
        }
        if left < 12 {
            return Err(RecordError::TruncatedValueLength);
        }
        let key_len = u32_from_le_bytes(&log[pos..pos + 4]);
        let value_len = u64_from_le_bytes(&log[pos + 4..pos + 12]);
        assert(log@.subrange(pos as int, pos + 4) =~= rest.subrange(0, 4));
        assert(log@.subrange(pos + 4, pos + 12) =~= rest.subrange(4, 12));
        let body = left - 12;
        let kl = key_len as usize;
        if kl > body {
            return Err(RecordError::TruncatedKey);
        }
        let kstart = pos + 12;
        let kend = kstart + kl;
        assert(log@.subrange(kstart as int, kend as int) =~= rest.subrange(12, 12 + kl));
        let record_key = match utf8_str(&log[kstart..kend]) {
            Some(s) => s,
            None => {
                return Err(RecordError::InvalidKeyUtf8);
            },
        };
        if value_len > (body - kl) as u64 {
            return Err(RecordError::TruncatedValue);
        }
        let vl = value_len as usize;
        let vend = kend + vl;
        assert(log@.subrange(kend as int, vend as int) =~= rest.subrange(12 + kl, 12 + kl + vl));
        let found: String = record_key.to_owned();
        if found == wanted {
            match utf8_str(&log[kend..vend]) {
                Some(v) => {
                    return Ok(Some(v.to_owned()));
                },
                None => {
                    return Err(RecordError::InvalidValueUtf8);
                },
            }
        }
        assert(rest.skip(record_len(rest) as int) =~= log@.skip(vend as int));
        pos = vend;
    }
}

/// A lookup in a log of whole records followed by more bytes answers from
/// the first part unless the key is absent there; then it answers from the
/// rest.
pub proof fn lemma_lookup_concat(a: Seq<u8>, b: Seq<u8>, key: Seq<char>)
    requires
        whole_records(a),
    ensures
        lookup(a + b, key) == (if lookup(a, key) == Ok::<Option<Seq<char>>, RecordError>(None) {
            lookup(b, key)
        } else {
            lookup(a, key)
        }),
    decreases a.len(),
{
    if a.len() == 0 {
        assert(a + b =~= b);
    } else {
        let ab = a + b;
        assert(ab.subrange(0, 4) =~= a.subrange(0, 4));
        assert(ab.subrange(4, 12) =~= a.subrange(4, 12));
        let kend = 12 + header_key_len(a);
        let rl = record_len(a);
        assert(ab.subrange(12, kend as int) =~= a.subrange(12, kend as int));
        assert(ab.subrange(kend as int, rl as int) =~= a.subrange(kend as int, rl as int));
        assert(ab.skip(rl as int) =~= a.skip(rl as int) + b);
        lemma_lookup_concat(a.skip(rl as int), b, key);
    }
}

/// The record written for a key and value, read alone.
proof fn lemma_record_header(key: Seq<char>, value: Seq<char>)
    requires
        encode_utf8(key).len() <= u32::MAX,
        encode_utf8(value).len() <= u64::MAX,
    ensures
        record_bytes(key, value).len() >= 12,
        header_key_len(record_bytes(key, value)) == encode_utf8(key).len(),
        header_value_len(record_bytes(key, value)) == encode_utf8(value).len(),
        record_len(record_bytes(key, value)) == record_bytes(key, value).len(),
        record_bytes(key, value).subrange(12, 12 + encode_utf8(key).len() as int) == encode_utf8(key),
        record_bytes(key, value).subrange(
            12 + encode_utf8(key).len() as int,
            record_bytes(key, value).len() as int,
        ) == encode_utf8(value),
{
    let kb = encode_utf8(key);
    let vb = encode_utf8(value);
    let r = record_bytes(key, value);
    lemma_auto_spec_u32_to_from_le_bytes();
    lemma_auto_spec_u64_to_from_le_bytes();
    let h1 = spec_u32_to_le_bytes(kb.len() as u32);
    let h2 = spec_u64_to_le_bytes(vb.len() as u64);
    assert(r.subrange(0, 4) =~= h1);
    assert(r.subrange(4, 12) =~= h2);
    assert(r.subrange(12, 12 + kb.len() as int) =~= kb);
    assert(r.subrange(12 + kb.len() as int, r.len() as int) =~= vb);
}

/// One record is a log of whole records.
pub proof fn lemma_record_is_whole(key: Seq<char>, value: Seq<char>)
    requires
        encode_utf8(key).len() <= u32::MAX,
        encode_utf8(value).len() <= u64::MAX,
    ensures
        whole_records(record_bytes(key, value)),
{
    lemma_record_header(key, value);
    let r = record_bytes(key, value);
    assert(r.skip(record_len(r) as int) =~= Seq::<u8>::empty());
    assert(whole_records(Seq::<u8>::empty()));
}

/// Appending whole records to whole records gives whole records.
pub proof fn lemma_whole_concat(a: Seq<u8>, b: Seq<u8>)
    requires
        whole_records(a),
        whole_records(b),
    ensures
        whole_records(a + b),
    decreases a.len(),
{
    if a.len() == 0 {
        assert(a + b =~= b);
    } else {
        let ab = a + b;
        assert(ab.subrange(0, 4) =~= a.subrange(0, 4));
        assert(ab.subrange(4, 12) =~= a.subrange(4, 12));
        let rl = record_len(a);
        assert(ab.skip(rl as int) =~= a.skip(rl as int) + b);
        lemma_whole_concat(a.skip(rl as int), b);
    }
}

/// A record read alone answers for its own key with its value, and for
/// any other key with nothing.
pub proof fn lemma_lookup_record(key: Seq<char>, value: Seq<char>, wanted: Seq<char>)
    requires
        encode_utf8(key).len() <= u32::MAX,
        encode_utf8(value).len() <= u64::MAX,
    ensures
        lookup(record_bytes(key, value), wanted) == (if wanted == key {
            Ok::<Option<Seq<char>>, RecordError>(Some(value))
        } else {
            Ok::<Option<Seq<char>>, RecordError>(None)
        }),
{
    lemma_record_header(key, value);
    lemma_decode_encode(key);
    lemma_decode_encode(value);
    let r = record_bytes(key, value);
    assert(r.skip(record_len(r) as int) =~= Seq::<u8>::empty());
    assert(lookup(Seq::<u8>::empty(), wanted) == Ok::<Option<Seq<char>>, RecordError>(None));
}

/// Reading a key right after writing it, to a log of whole records in
/// which the key was absent, gives back the value written.
pub proof fn lemma_get_after_set(log: Seq<u8>, key: Seq<char>, value: Seq<char>)
    requires
        whole_records(log),
        lookup(log, key) == Ok::<Option<Seq<char>>, RecordError>(None),
        encode_utf8(key).len() <= u32::MAX,
        encode_utf8(value).len() <= u64::MAX,
    ensures
        lookup(log + record_bytes(key, value), key)
            == Ok::<Option<Seq<char>>, RecordError>(Some(value)),
{
    lemma_lookup_concat(log, record_bytes(key, value), key);
    lemma_lookup_record(key, value, key);
}

/// Writing under one key leaves what a read of any other key gives.
pub proof fn lemma_set_keeps_other_keys(
    log: Seq<u8>,
    key: Seq<char>,
    value: Seq<char>,
    other: Seq<char>,
)
    requires
        whole_records(log),
        other != key,
        encode_utf8(key).len() <= u32::MAX,
        encode_utf8(value).len() <= u64::MAX,
    ensures
        lookup(log + record_bytes(key, value), other) == lookup(log, other),
{
    lemma_lookup_concat(log, record_bytes(key, value), other);
    lemma_lookup_record(key, value, other);
}

/// Once a read finds a value, writing more leaves that answer unchanged:
/// the first record written under a key is the one read.
pub proof fn lemma_first_write_wins(log: Seq<u8>, more: Seq<u8>, key: Seq<char>, value: Seq<char>)
    requires
        lookup(log, key) == Ok::<Option<Seq<char>>, RecordError>(Some(value)),
    ensures
        lookup(log + more, key) == Ok::<Option<Seq<char>>, RecordError>(Some(value)),
    decreases log.len(),
{
    let lm = log + more;
    assert(lm.subrange(0, 4) =~= log.subrange(0, 4));
    assert(lm.subrange(4, 12) =~= log.subrange(4, 12));
    let kend = 12 + header_key_len(log);
    let rl = record_len(log);
    assert(lm.subrange(12, kend as int) =~= log.subrange(12, kend as int));
    assert(lm.subrange(kend as int, rl as int) =~= log.subrange(kend as int, rl as int));
    if decode_utf8(log.subrange(12, kend as int)) != key {
        assert(lm.skip(rl as int) =~= log.skip(rl as int) + more);
        lemma_first_write_wins(log.skip(rl as int), more, key, value);
    }
}

/// The log that a run of writes leaves, each `(key, value)` appended in
/// turn.
pub open spec fn log_of(writes: Seq<(Seq<char>, Seq<char>)>) -> Seq<u8>
    decreases writes.len(),
{
    if writes.len() == 0 {
        Seq::empty()
    } else {
        log_of(writes.drop_last()) + record_bytes(writes.last().0, writes.last().1)
    }
}

/// The value of the first write under `key`, if any.
pub open spec fn first_value(writes: Seq<(Seq<char>, Seq<char>)>, key: Seq<char>) -> Option<
    Seq<char>,
>
    decreases writes.len(),
{
    if writes.len() == 0 {
        None
    } else {
        match first_value(writes.drop_last(), key) {
            Some(v) => Some(v),
            None => if writes.last().0 == key {
                Some(writes.last().1)
            } else {
                None
            },
        }
    }
}

/// Every key and value of the writes fits the record's length fields.
pub open spec fn writes_fit(writes: Seq<(Seq<char>, Seq<char>)>) -> bool {
    forall|i: int|
        0 <= i < writes.len() ==> encode_utf8((#[trigger] writes[i]).0).len() <= u32::MAX
            && encode_utf8(writes[i].1).len() <= u64::MAX
}

/// After any run of writes, a read of a key gives the value of the first
/// write under that key, or nothing if there was none.
pub proof fn lemma_reads_after_writes(writes: Seq<(Seq<char>, Seq<char>)>, key: Seq<char>)
    requires
        writes_fit(writes),
    ensures
        whole_records(log_of(writes)),
        lookup(log_of(writes), key) == Ok::<Option<Seq<char>>, RecordError>(
            first_value(writes, key),
        ),
    decreases writes.len(),
{
    if writes.len() == 0 {
        assert(whole_records(Seq::<u8>::empty()));
        assert(lookup(Seq::<u8>::empty(), key) == Ok::<Option<Seq<char>>, RecordError>(None));
    } else {
        let init = writes.drop_last();
        let (k, v) = writes.last();
        assert(writes_fit(init)) by {
            assert forall|i: int| 0 <= i < init.len() implies encode_utf8((#[trigger] init[i]).0).len()
                <= u32::MAX && encode_utf8(init[i].1).len() <= u64::MAX by {
                assert(init[i] == writes[i]);
            }
        }
        assert(writes[writes.len() - 1] == writes.last());
        lemma_reads_after_writes(init, key);
        lemma_record_is_whole(k, v);
        lemma_whole_concat(log_of(init), record_bytes(k, v));
        lemma_lookup_concat(log_of(init), record_bytes(k, v), key);
        lemma_lookup_record(k, v, key);
    }
}

} // verus!
