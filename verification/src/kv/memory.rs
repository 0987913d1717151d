//! The memory regions of a key-value database: one buffer each for its
//! metadata, its data and its write-ahead log.
use vstd::prelude::*;

pub mod heap;

verus! {

/// The regions of a database's memory.
#[derive(Debug, Clone, Copy, PartialEq, Eq, Structural)]
pub enum MemoryType {
    Metadata,
    Data,
    Wal,
}

/// A place that holds the regions of a database, each its own buffer.
pub trait Memory {
    /// The bytes of region `what`.
    spec fn region(&self, what: MemoryType) -> Seq<u8>;

    /// The bytes of region `what`, to be read.
    fn read(&self, what: MemoryType) -> (r: &Vec<u8>)
        ensures
            r@ == self.region(what),
    ;

    /// The bytes of region `what`, to be written; the other regions are
    /// left as they are.
    fn write(&mut self, what: MemoryType) -> (r: &mut Vec<u8>)
        ensures
            r@ == old(self).region(what),
            final(self).region(what) == final(r)@,
            forall|other: MemoryType|
                other != what ==> final(self).region(other) == old(self).region(other),
    ;
}

} // verus!
