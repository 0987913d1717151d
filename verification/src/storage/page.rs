//! What a page of storage offers.
use vstd::prelude::*;

pub mod stream;

verus! {

/// A page of storage: a block of bytes that can be read and written
/// through cursors.
pub trait StoragePage: Sized {
    /// The size of a page in bytes.
    spec fn page_size() -> nat;

    /// The size of a page in bytes.
    fn size() -> (r: u64)
        ensures
            r == Self::page_size(),
    ;

    type ReaderLock<'a> where Self: 'a;

    type WriterLock<'a> where Self: 'a;

    fn reader<'a>(&'a self) -> Self::ReaderLock<'a>;

    fn writer<'a>(&'a mut self) -> Self::WriterLock<'a>;
}

} // verus!
