//! Reading a page from a position.
use vstd::prelude::*;
use super::{PAGE_SIZE, SeekError, SeekFrom, seek_overflows, seek_position, seek_result};

verus! {

/// A read cursor over the bytes of a page.
pub struct MemoryPageReaderLock<'a> {
    pub lock: &'a Vec<u8>,
    pub pos: usize,
}

impl<'a> MemoryPageReaderLock<'a> {
    /// A cursor at the start of the page.
    pub fn new(lock: &'a Vec<u8>) -> (r: Self)
        ensures
            r.lock == lock,
            r.pos == 0,
    {
        MemoryPageReaderLock { lock, pos: 0 }
    }

    /// Copies the bytes from the position on into the front of `buf`, as
    /// many as fit and are left; moves past them and tells how many.
    pub fn read(&mut self, buf: &mut [u8]) -> (n: usize)
        requires
            old(self).pos <= old(self).lock@.len(),
        ensures
            n == (if old(buf)@.len() < old(self).lock@.len() - old(self).pos {
                old(buf)@.len() as int
            } else {
                old(self).lock@.len() - old(self).pos
            }),
            final(buf)@ == old(self).lock@.subrange(old(self).pos as int, old(self).pos + n)
                + old(buf)@.skip(n as int),
            final(self).pos == old(self).pos + n,
            final(self).lock == old(self).lock,
    {
        let start = self.pos;
        let left = self.lock.len() - start;
        let n = if buf.len() < left {
            buf.len()
        } else {
            left
        };
        let mut i: usize = 0;
        while i < n
            invariant
                i <= n,
                n <= buf@.len(),
                start + n <= self.lock@.len(),
                start + n <= usize::MAX,
                start == old(self).pos,
                self.lock == old(self).lock,
                buf@.len() == old(buf)@.len(),
                forall|k: int| 0 <= k < i ==> buf@[k] == self.lock@[start + k],
                forall|k: int| i <= k < buf@.len() ==> buf@[k] == old(buf)@[k],
            decreases n - i,
        {
            buf[i] = self.lock[start + i];
            i = i + 1;
        }
        assert(buf@ =~= self.lock@.subrange(start as int, start + n) + old(buf)@.skip(n as int));
        self.pos = start + n;
        n
    }

    /// Moves the position as `from` says, if the target lies within the
    /// page; gives the new position.
    pub fn seek(&mut self, from: SeekFrom) -> (r: Result<u64, SeekError>)
        requires
            old(self).pos <= PAGE_SIZE,
            !seek_overflows(from, old(self).pos as int),
        ensures
            r == seek_result(from, old(self).pos as int),
            final(self).pos == (match r {
                Ok(p) => p as usize,
                Err(_) => old(self).pos,
            }),
            final(self).lock == old(self).lock,
    {
        match seek_position(from, self.pos) {
            Ok(p) => {
                self.pos = p;
                Ok(p as u64)
            },
            Err(e) => Err(e),
        }
    }
}

} // verus!
