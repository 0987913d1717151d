//! A walk over a chain of pages.
use vstd::prelude::*;
use crate::storage::Storage;

verus! {

/// A position in a chain of pages of a storage, from a first page. The
/// stream borrows the storage, so it sees the storage as it is.
pub struct PageStream<'a, S: Storage> {
    pub start_index: u64,
    pub current_index: u64,
    pub storage: &'a S,
}

impl<'a, S: Storage> PageStream<'a, S> {
    /// A stream over `storage` that starts, and stands, at page `index`.
    pub fn new(storage: &'a S, index: u64) -> (r: Self)
        ensures
            r.start_index == index,
            r.current_index == index,
            r.storage == storage,
    {
        PageStream { start_index: index, current_index: index, storage }
    }
}

} // verus!
