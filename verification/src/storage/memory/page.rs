//! A page of memory storage: a fixed-size block of bytes with links to its
//! neighbours.
use vstd::prelude::*;
use self::extend::{MemoryPageExtend, raw_of};
use self::reader::MemoryPageReaderLock;
use self::writer::MemoryPageWriterLock;
use crate::storage::StorageError;
use crate::storage::page::StoragePage;

pub mod extend;
pub mod reader;
pub mod writer;

verus! {

/// The size of a page in bytes.
pub const PAGE_SIZE: usize = 4096;

/// Where a seek is counted from, as in `std::io::SeekFrom`.
#[derive(Debug, Clone, Copy, PartialEq, Eq, Structural)]
pub enum SeekFrom {
    Start(u64),
    End(i64),
    Current(i64),
}

/// Why a seek in a page was refused.
#[derive(Debug, Clone, Copy, PartialEq, Eq, Structural)]
pub enum SeekError {
    /// The target position lies before the start or after the end of the page.
    OutOfBounds,
}

/// The position a seek aims at, from the current position `current`.
pub open spec fn seek_target(from: SeekFrom, current: int) -> int {
    match from {
        SeekFrom::Start(p) => p as int,
        SeekFrom::End(offset) => PAGE_SIZE + offset,
        SeekFrom::Current(offset) => current + offset,
    }
}

/// The seek's arithmetic overflows `i64`.
pub open spec fn seek_overflows(from: SeekFrom, current: int) -> bool {
    match from {
        SeekFrom::Start(_) => false,
        SeekFrom::End(offset) => PAGE_SIZE + offset > i64::MAX,
        SeekFrom::Current(offset) => current + offset > i64::MAX,
    }
}

/// What a seek answers: the new position when it lies within the page.
pub open spec fn seek_result(from: SeekFrom, current: int) -> Result<u64, SeekError> {
    let t = seek_target(from, current);
    if 0 <= t <= PAGE_SIZE {
        Ok(t as u64)
    } else {
        Err(SeekError::OutOfBounds)
    }
}

/// How a seek moves: from the start it goes to the given position, from
/// the end to the page size plus the offset, and from the current position
/// to that position plus the offset; it lands there exactly when that lies
/// within the page. So a seek relative to the current position is the seek
/// from the start to where it points, and seeking by zero stays put.
pub proof fn lemma_seek_moves(current: int, offset: i64, target: u64)
    requires
        0 <= current <= PAGE_SIZE,
    ensures
        seek_result(SeekFrom::Start(target), current) == (if target <= PAGE_SIZE {
            Ok::<u64, SeekError>(target)
        } else {
            Err::<u64, SeekError>(SeekError::OutOfBounds)
        }),
        seek_result(SeekFrom::Current(offset), current) == (if 0 <= current + offset <= PAGE_SIZE {
            Ok::<u64, SeekError>((current + offset) as u64)
        } else {
            Err::<u64, SeekError>(SeekError::OutOfBounds)
        }),
        seek_result(SeekFrom::End(offset), current) == (if 0 <= PAGE_SIZE + offset <= PAGE_SIZE {
            Ok::<u64, SeekError>((PAGE_SIZE + offset) as u64)
        } else {
            Err::<u64, SeekError>(SeekError::OutOfBounds)
        }),
        current + offset >= 0 ==> seek_result(SeekFrom::Current(offset), current) == seek_result(
            SeekFrom::Start((current + offset) as u64),
            0,
        ),
        seek_result(SeekFrom::Current(0), current) == Ok::<u64, SeekError>(current as u64),
        seek_result(SeekFrom::End(0), current) == Ok::<u64, SeekError>(PAGE_SIZE as u64),
{
}

/// The new position of a seek within a page.
pub(crate) fn seek_position(from: SeekFrom, current: usize) -> (r: Result<usize, SeekError>)
    requires
        current <= PAGE_SIZE,
        !seek_overflows(from, current as int),
    ensures
        match r {
            Ok(p) => seek_result(from, current as int) == Ok::<u64, SeekError>(p as u64)
                && p <= PAGE_SIZE,
            Err(e) => seek_result(from, current as int) == Err::<u64, SeekError>(e),
        },
{
    let target: i64 = match from {
        SeekFrom::Start(p) => {
            if p > 4096 {
                return Err(SeekError::OutOfBounds);
            }
            p as i64
        },
        SeekFrom::End(offset) => 4096i64 + offset,
        SeekFrom::Current(offset) => current as i64 + offset,
    };
    if target < 0 || target > 4096 {
        return Err(SeekError::OutOfBounds);
    }
    Ok(target as usize)
}

/// A page of bytes in memory, with its links. A page has one owner (its
/// storage); it is read and written in place through borrows.
pub struct MemoryPage {
    pub extends: MemoryPageExtend,
    pub data: Vec<u8>,
}

impl MemoryPage {
    /// A page holds exactly `PAGE_SIZE` bytes.
    pub open spec fn wf(&self) -> bool {
        self.data@.len() == PAGE_SIZE
    }

    /// A zeroed page whose previous link is `previous` and which has no
    /// next page.
    pub fn new(previous: Option<u64>) -> (r: Result<Self, StorageError>)
        ensures
            r matches Ok(p) && p.wf() && p.data@ == Seq::new(PAGE_SIZE as nat, |i: int| 0u8)
                && p.extends.inner.previous_index == raw_of(previous)
                && p.extends.inner.next_index == 0,
    {
        let extends = MemoryPageExtend::new(previous, None);
        let mut data: Vec<u8> = Vec::new();
        let mut i: usize = 0;
        while i < PAGE_SIZE
            invariant
                i <= PAGE_SIZE,
                data@ =~= Seq::new(i as nat, |k: int| 0u8),
            decreases PAGE_SIZE - i,
        {
            data.push(0u8);
            i = i + 1;
        }
        Ok(MemoryPage { extends, data })
    }

    pub fn set_next_index(&mut self, index: u64)
        ensures
            final(self).extends.inner.next_index == index,
            final(self).extends.inner.previous_index == old(self).extends.inner.previous_index,
            final(self).data == old(self).data,
    {
        self.extends.set_next(index);
    }
}

impl StoragePage for MemoryPage {
    open spec fn page_size() -> nat {
        PAGE_SIZE as nat
    }

    fn size() -> (r: u64) {
        4096
    }

    type ReaderLock<'a> = MemoryPageReaderLock<'a>;
    type WriterLock<'a> = MemoryPageWriterLock<'a>;

    fn reader<'a>(&'a self) -> (r: MemoryPageReaderLock<'a>)
        ensures
            r.lock@ == self.data@,
            r.pos == 0,
    {
        MemoryPageReaderLock::new(&self.data)
    }

    fn writer<'a>(&'a mut self) -> (w: MemoryPageWriterLock<'a>)
        ensures
            w.lock@ == old(self).data@,
            w.pos == 0,
            final(self).data@ == final(w.lock)@,
            final(self).extends == old(self).extends,
    {
        MemoryPageWriterLock::new(&mut self.data)
    }
}

/// The bytes a write puts into a page from a position are what a read from
/// that position gives back, and the bytes elsewhere are what they were.
pub proof fn lemma_read_back_write(data: Seq<u8>, pos: int, buf: Seq<u8>, n: int)
    requires
        0 <= pos <= data.len(),
        0 <= n <= buf.len(),
        pos + n <= data.len(),
    ensures
        ({
            let written = data.subrange(0, pos) + buf.subrange(0, n) + data.skip(pos + n);
            &&& written.len() == data.len()
            &&& written.subrange(pos, pos + n) == buf.subrange(0, n)
            &&& forall|i: int|
                0 <= i < data.len() && !(pos <= i < pos + n) ==> written[i] == data[i]
        }),
{
    let written = data.subrange(0, pos) + buf.subrange(0, n) + data.skip(pos + n);
    assert(written.subrange(pos, pos + n) =~= buf.subrange(0, n));
}

} // verus!
