//! Entries of a sorted string table.
use vstd::prelude::*;

verus! {

/// A key and its value, with a checksum over them.
#[derive(Debug)]
pub struct KValue {
    pub checksum: u32,
    pub key: Vec<u8>,
    pub value: Vec<u8>,
}

} // verus!
