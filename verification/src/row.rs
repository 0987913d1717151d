//! Write-ahead log entries, read from a byte source.
//!
//! An entry is read as: the key length (u32, little endian; 0 ends the log),
//! an action tag byte (0 insert, 1 update, 2 delete), for an insert or an
//! update the value length (u64, little endian), then the timestamp (u64,
//! little endian). The key and value buffers are read with the capacity the
//! lengths announce and no length, so they stay empty and their bytes are
//! not consumed.
use vstd::prelude::*;
use vstd::bytes::*;
use crate::reader::{read_at, read_buf, read_len};

verus! {

/// Why a log entry could not be read.
#[derive(Debug, Clone, Copy, PartialEq, Eq, Structural)]
pub enum LogError {
    /// The action tag is none of 0, 1, 2.
    UnknownLogAction,
}

/// What an entry does to its key.
#[derive(Debug)]
pub enum LogAction {
    Insert(Vec<u8>),
    Update(Vec<u8>),
    Delete,
}

/// One write-ahead log entry.
#[derive(Debug)]
pub struct Log {
    pub key: String,
    pub action: LogAction,
    pub timestamp: u64,
}

/// Reading an action at `pos`: `None` where the read panics (a buffer
/// capacity over `isize::MAX`), else the tag and the position after it, or
/// the error.
pub open spec fn action_step(input: Seq<u8>, pos: int) -> Option<Result<(u8, int), LogError>> {
    let tag = read_buf(input, pos, 1)[0];
    let p1 = pos + read_len(input, pos, 1);
    if tag == 0 || tag == 1 {
        if spec_u64_from_le_bytes(read_buf(input, p1, 8)) > isize::MAX {
            None
        } else {
            Some(Ok((tag, p1 + read_len(input, p1, 8))))
        }
    } else if tag == 2 {
        Some(Ok((2u8, p1)))
    } else {
        Some(Err(LogError::UnknownLogAction))
    }
}

/// Reading an entry at `pos`: `None` where the read panics, else `Ok(None)`
/// at the end marker, the entry's action tag, timestamp and the position
/// after it, or the error.
pub open spec fn log_step(input: Seq<u8>, pos: int) -> Option<Result<Option<(u8, u64, int)>, LogError>> {
    let p1 = pos + read_len(input, pos, 4);
    if spec_u32_from_le_bytes(read_buf(input, pos, 4)) == 0 {
        Some(Ok(None))
    } else {
        match action_step(input, p1) {
            None => None,
            Some(Err(e)) => Some(Err(e)),
            Some(Ok((tag, p2))) => Some(
                Ok(
                    Some(
                        (
                            tag,
                            spec_u64_from_le_bytes(read_buf(input, p2, 8)),
                            p2 + read_len(input, p2, 8),
                        ),
                    ),
                ),
            ),
        }
    }
}

impl LogAction {
    /// The tag byte this action is read from.
    pub open spec fn tag(&self) -> u8 {
        match self {
            LogAction::Insert(_) => 0,
            LogAction::Update(_) => 1,
            LogAction::Delete => 2,
        }
    }

    /// The value buffer of an insert or an update is empty.
    pub open spec fn payload_empty(&self) -> bool {
        match self {
            LogAction::Insert(v) => v@.len() == 0,
            LogAction::Update(v) => v@.len() == 0,
            LogAction::Delete => true,
        }
    }

    /// Reads an action at `pos` of `input`; gives it and the position after it.
    pub fn from_reader(input: &[u8], pos: usize) -> (r: Result<(Self, usize), LogError>)
        requires
            pos <= input@.len(),
            action_step(input@, pos as int) is Some,
        ensures
            match r {
                Ok((a, next)) => action_step(input@, pos as int) == Some(
                    Ok::<(u8, int), LogError>((a.tag(), next as int)),
                ) && a.payload_empty(),
                Err(e) => action_step(input@, pos as int) == Some(Err::<(u8, int), LogError>(e)),
            },
    {
        let (buf, p1) = read_at(input, pos, 1);
        let tag = buf[0];
        if tag == 0 || tag == 1 {
            let (len_buf, p2) = read_at(input, p1, 8);
            let _value_len = u64_from_le_bytes(len_buf.as_slice());
            let value_buf: Vec<u8> = Vec::new();
            if tag == 0 {
                Ok((LogAction::Insert(value_buf), p2))
            } else {
                Ok((LogAction::Update(value_buf), p2))
            }
        } else if tag == 2 {
            Ok((LogAction::Delete, p1))
        } else {
            Err(LogError::UnknownLogAction)
        }
    }
}

impl Log {
    /// Reads an entry at `pos` of `input`: `None` at the end marker (a zero
    /// key length), else the entry and the position after it.
    pub fn from_reader(input: &[u8], pos: usize) -> (r: Result<Option<(Self, usize)>, LogError>)
        requires
            pos <= input@.len(),
            log_step(input@, pos as int) is Some,
        ensures
            match r {
                Ok(None) => log_step(input@, pos as int) == Some(
                    Ok::<Option<(u8, u64, int)>, LogError>(None),
                ),
                Ok(Some((log, next))) => {
                    &&& log_step(input@, pos as int) == Some(
                        Ok::<Option<(u8, u64, int)>, LogError>(
                            Some((log.action.tag(), log.timestamp, next as int)),
                        ),
                    )
                    &&& log.key@.len() == 0
                    &&& log.action.payload_empty()
                },
                Err(e) => log_step(input@, pos as int) == Some(
                    Err::<Option<(u8, u64, int)>, LogError>(e),
                ),
            },
    {
        let (len_buf, p1) = read_at(input, pos, 4);
        let key_len = u32_from_le_bytes(len_buf.as_slice());
        if key_len == 0 {
            return Ok(None);
        }
        let (action, p2) = match LogAction::from_reader(input, p1) {
            Ok(found) => found,
            Err(e) => {
                return Err(e);
            },
        };
        let (ts_buf, p3) = read_at(input, p2, 8);
        let timestamp = u64_from_le_bytes(ts_buf.as_slice());
        let key = String::new();
        Ok(Some((Log { key, action, timestamp }, p3)))
    }
}

/// Where the whole input is there, a read buffer is the bytes read.
proof fn lemma_full_read(input: Seq<u8>, pos: int, n: int)
    requires
        0 <= pos,
        0 <= n,
        pos + n <= input.len(),
    ensures
        read_buf(input, pos, n) == input.subrange(pos, pos + n),
        read_len(input, pos, n) == n,
{
    assert(read_buf(input, pos, n) =~= input.subrange(pos, pos + n));
}

/// The layout of a complete entry at `pos`: a key length of zero ends the
/// log; otherwise the byte after the key length is the action tag, an
/// insert or an update is followed by an eight-byte value length, and the
/// next eight bytes are the timestamp, read as a little-endian u64; the
/// entry ends after it. Any other tag is refused.
pub proof fn lemma_entry_layout(input: Seq<u8>, pos: int)
    requires
        0 <= pos,
        pos + 4 <= input.len(),
    ensures
        spec_u32_from_le_bytes(input.subrange(pos, pos + 4)) == 0 ==> log_step(input, pos) == Some(
            Ok::<Option<(u8, u64, int)>, LogError>(None),
        ),
        spec_u32_from_le_bytes(input.subrange(pos, pos + 4)) != 0 && pos + 13 <= input.len()
            && input[pos + 4] == 2 ==> log_step(input, pos) == Some(
            Ok::<Option<(u8, u64, int)>, LogError>(
                Some((2u8, spec_u64_from_le_bytes(input.subrange(pos + 5, pos + 13)), pos + 13)),
            ),
        ),
        spec_u32_from_le_bytes(input.subrange(pos, pos + 4)) != 0 && pos + 21 <= input.len() && (
        input[pos + 4] == 0 || input[pos + 4] == 1) && spec_u64_from_le_bytes(
            input.subrange(pos + 5, pos + 13),
        ) <= isize::MAX ==> log_step(input, pos) == Some(
            Ok::<Option<(u8, u64, int)>, LogError>(
                Some(
                    (
                        input[pos + 4],
                        spec_u64_from_le_bytes(input.subrange(pos + 13, pos + 21)),
                        pos + 21,
                    ),
                ),
            ),
        ),
        spec_u32_from_le_bytes(input.subrange(pos, pos + 4)) != 0 && pos + 5 <= input.len()
            && input[pos + 4] > 2 ==> log_step(input, pos) == Some(
            Err::<Option<(u8, u64, int)>, LogError>(LogError::UnknownLogAction),
        ),
{
    lemma_full_read(input, pos, 4);
    if pos + 5 <= input.len() {
        lemma_full_read(input, pos + 4, 1);
    }
    if pos + 13 <= input.len() {
        lemma_full_read(input, pos + 5, 8);
    }
    if pos + 21 <= input.len() {
        lemma_full_read(input, pos + 13, 8);
    }
}

} // verus!
