//! Instance buffers held on the heap.
use vstd::prelude::*;
use super::{Memory, MemoryType, with_buffer};

verus! {

/// A buffer of bytes for each kind of data, made on first use and then
/// handed out again by borrow each time it is asked for.
pub struct HeapMemory {
    pub metadata: Option<Vec<u8>>,
}

impl View for HeapMemory {
    type V = Map<MemoryType, Seq<u8>>;

    open spec fn view(&self) -> Map<MemoryType, Seq<u8>> {
        match self.metadata {
            Some(v) => map![MemoryType::Metadata => v@],
            None => Map::empty(),
        }
    }
}

impl HeapMemory {
    /// No buffers yet.
    pub fn new() -> (r: Self)
        ensures
            r@ == Map::<MemoryType, Seq<u8>>::empty(),
    {
        HeapMemory { metadata: None }
    }
}

impl Memory for HeapMemory {
    open spec fn buffers(&self) -> Map<MemoryType, Seq<u8>> {
        self@
    }

    fn get_for_read(&mut self, what: MemoryType) -> (r: &Vec<u8>) {
        match what {
            MemoryType::Metadata => {
                let buffer = self.metadata.get_or_insert(Vec::new());
                &*buffer
            },
        }
    }

    fn get_for_write(&mut self, what: MemoryType) -> (r: &mut Vec<u8>) {
        match what {
            MemoryType::Metadata => {
                let buffer = self.metadata.get_or_insert(Vec::new());
                buffer
            },
        }
    }
}

} // verus!
