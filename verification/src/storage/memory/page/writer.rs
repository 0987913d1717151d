//! Writing a page from a position.
use vstd::prelude::*;
use super::{PAGE_SIZE, SeekError, SeekFrom, seek_overflows, seek_position, seek_result};

verus! {

/// A write cursor over the bytes of a page.
pub struct MemoryPageWriterLock<'a> {
    pub lock: &'a mut Vec<u8>,
    pub pos: usize,
}

impl<'a> MemoryPageWriterLock<'a> {
    /// A cursor at the start of the page.
    pub fn new(lock: &'a mut Vec<u8>) -> (w: Self)
        ensures
            w.lock@ == old(lock)@,
            final(w.lock)@ == final(lock)@,
            w.pos == 0,
    {
        MemoryPageWriterLock { lock, pos: 0 }
    }

    /// Copies the front of `buf` into the page from the position on, as many
    /// bytes as are given and fit; moves past them and tells how many.
    pub fn write(&mut self, buf: &[u8]) -> (n: usize)
        requires
            old(self).pos <= old(self).lock@.len(),
        ensures
            n == (if buf@.len() < old(self).lock@.len() - old(self).pos {
                buf@.len() as int
            } else {
                old(self).lock@.len() - old(self).pos
            }),
            final(self).lock@ == old(self).lock@.subrange(0, old(self).pos as int) + buf@.subrange(
                0,
                n as int,
            ) + old(self).lock@.skip(old(self).pos + n),
            final(self).pos == old(self).pos + n,
            *final(final(self).lock) == *final(old(self).lock),
    {
        let pos = self.pos;
        let left = self.lock.len() - pos;
        let n = if buf.len() < left {
            buf.len()
        } else {
            left
        };
        let ghost start = self.lock@;
        let mut i: usize = 0;
        while i < n
            invariant
                i <= n,
                n <= buf@.len(),
                pos + n <= start.len(),
                pos + n <= usize::MAX,
                pos == old(self).pos,
                self.pos == pos,
                start == old(self).lock@,
                self.lock@.len() == start.len(),
                forall|k: int| 0 <= k < pos + i ==> #[trigger] self.lock@[k] == (if k < pos {
                    start[k]
                } else {
                    buf@[k - pos]
                }),
                forall|k: int| pos + i <= k < start.len() ==> #[trigger] self.lock@[k] == start[k],
                *final(self.lock) == *final(old(self).lock),
            decreases n - i,
        {
            let p = pos + i;
            self.lock[p] = buf[i];
            i = i + 1;
        }
        assert(self.lock@ =~= start.subrange(0, pos as int) + buf@.subrange(0, n as int)
            + start.skip(pos + n));
        self.pos = pos + n;
        n
    }

    /// Nothing is buffered, so there is nothing to flush.
    pub fn flush(&mut self)
        ensures
            final(self).pos == old(self).pos,
            final(self).lock@ == old(self).lock@,
            *final(final(self).lock) == *final(old(self).lock),
    {
    }

    /// Moves the position as `from` says, if the target lies within the
    /// page; gives the new position.
    pub fn seek(&mut self, from: SeekFrom) -> (r: Result<u64, SeekError>)
        requires
            old(self).pos <= PAGE_SIZE,
            !seek_overflows(from, old(self).pos as int),
        ensures
            r == seek_result(from, old(self).pos as int),
            final(self).pos == (match r {
                Ok(p) => p as usize,
                Err(_) => old(self).pos,
            }),
            final(self).lock@ == old(self).lock@,
            *final(final(self).lock) == *final(old(self).lock),
    {
        match seek_position(from, self.pos) {
            Ok(p) => {
                self.pos = p;
                Ok(p as u64)
            },
            Err(e) => Err(e),
        }
    }
}

} // verus!
