//! In-memory buffers of an instance, one per kind of data.
use vstd::prelude::*;

pub mod heap;

verus! {

/// The kinds of data an instance keeps.
#[derive(Debug, Clone, Copy, PartialEq, Eq, Hash, Structural)]
pub enum MemoryType {
    Metadata,
}

/// The buffers after `what` has been asked for: unchanged if it was there,
/// else with an empty buffer for it.
pub open spec fn with_buffer(m: Map<MemoryType, Seq<u8>>, what: MemoryType) -> Map<
    MemoryType,
    Seq<u8>,
> {
    if m.contains_key(what) {
        m
    } else {
        m.insert(what, Seq::empty())
    }
}

/// A place that holds a buffer of bytes for each kind of data, made on
/// first use and kept: what is written to a buffer is what later reads of
/// it give.
pub trait Memory {
    /// The buffers there are, by kind of data.
    spec fn buffers(&self) -> Map<MemoryType, Seq<u8>>;

    /// The buffer for `what`, to be read; made empty if missing.
    fn get_for_read(&mut self, what: MemoryType) -> (r: &Vec<u8>)
        ensures
            final(self).buffers() == with_buffer(old(self).buffers(), what),
            r@ == with_buffer(old(self).buffers(), what)[what],
    ;

    /// The buffer for `what`, to be written; made empty if missing.
    fn get_for_write(&mut self, what: MemoryType) -> (r: &mut Vec<u8>)
        ensures
            r@ == with_buffer(old(self).buffers(), what)[what],
            final(self).buffers() == old(self).buffers().insert(what, final(r)@),
    ;
}

/// Asking for a buffer twice gives the same buffers as asking once.
pub proof fn lemma_ask_twice(m: Map<MemoryType, Seq<u8>>, what: MemoryType)
    ensures
        with_buffer(with_buffer(m, what), what) == with_buffer(m, what),
{
}

/// What was written to a buffer is what a later read of it gives, and the
/// other buffers stay as they were.
pub proof fn lemma_read_after_write(
    m: Map<MemoryType, Seq<u8>>,
    what: MemoryType,
    bytes: Seq<u8>,
    other: MemoryType,
)
    ensures
        with_buffer(m.insert(what, bytes), what) == m.insert(what, bytes),
        with_buffer(m.insert(what, bytes), what)[what] == bytes,
        other != what && m.contains_key(other) ==> with_buffer(m.insert(what, bytes), what)[other]
            == m[other],
{
}

} // verus!
