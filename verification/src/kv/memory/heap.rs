//! Database regions held on the heap.
use vstd::prelude::*;
use super::{Memory, MemoryType};

verus! {

/// One heap buffer per region.
pub struct HeapMemory {
    pub data: Vec<u8>,
    pub wal: Vec<u8>,
    pub metadata: Vec<u8>,
}

impl Memory for HeapMemory {
    open spec fn region(&self, what: MemoryType) -> Seq<u8> {
        match what {
            MemoryType::Metadata => self.metadata@,
            MemoryType::Data => self.data@,
            MemoryType::Wal => self.wal@,
        }
    }

    fn read(&self, what: MemoryType) -> (r: &Vec<u8>) {
        match what {
            MemoryType::Metadata => &self.metadata,
            MemoryType::Data => &self.data,
            MemoryType::Wal => &self.wal,
        }
    }

    fn write(&mut self, what: MemoryType) -> (r: &mut Vec<u8>) {
        match what {
            MemoryType::Metadata => &mut self.metadata,
            MemoryType::Data => &mut self.data,
            MemoryType::Wal => &mut self.wal,
        }
    }
}

} // verus!
