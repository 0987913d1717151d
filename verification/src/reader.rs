//! Reading from an in-memory byte source the way `std::io::Read` does on a
//! slice: a read takes as many of the requested bytes as are left, and the
//! rest of the (zeroed) buffer stays zero.
use vstd::prelude::*;

verus! {

/// How many of `n` requested bytes a read at `pos` gets.
pub open spec fn read_len(input: Seq<u8>, pos: int, n: int) -> int {
    if input.len() - pos < n {
        input.len() - pos
    } else {
        n
    }
}

/// The zeroed buffer of `n` bytes after a read at `pos`.
pub open spec fn read_buf(input: Seq<u8>, pos: int, n: int) -> Seq<u8> {
    Seq::new(n as nat, |i: int| if pos + i < input.len() { input[pos + i] } else { 0u8 })
}

/// Reads up to `n` bytes at `pos` into a zeroed buffer of `n` bytes;
/// gives the buffer and the position after the read.
pub fn read_at(input: &[u8], pos: usize, n: usize) -> (r: (Vec<u8>, usize))
    requires
        pos <= input@.len(),
    ensures
        r.0@ == read_buf(input@, pos as int, n as int),
        r.1 == pos + read_len(input@, pos as int, n as int),
{
    let mut buf: Vec<u8> = Vec::new();
    let mut i: usize = 0;
    while i < n
        invariant
            i <= n,
            pos <= input@.len(),
            buf@ =~= read_buf(input@, pos as int, n as int).take(i as int),
        decreases n - i,
    {
        if i < input.len() - pos {
            buf.push(input[pos + i]);
        } else {
            buf.push(0u8);
        }
        i = i + 1;
    }
    assert(buf@ =~= read_buf(input@, pos as int, n as int));
    let got = if input.len() - pos < n {
        input.len() - pos
    } else {
        n
    };
    (buf, pos + got)
}

} // verus!
