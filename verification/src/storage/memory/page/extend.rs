//! The links of a page to its neighbours in a chain of pages.
//!
//! A link is stored as a page index, with 0 standing for "no link"; so a
//! link to page 0 reads back as no link.
use vstd::prelude::*;

verus! {

/// What a stored link reads back as.
pub open spec fn link_of(raw: u64) -> Option<u64> {
    if raw == 0 {
        None
    } else {
        Some(raw)
    }
}

/// How a link is stored.
pub open spec fn raw_of(link: Option<u64>) -> u64 {
    match link {
        Some(index) => index,
        None => 0,
    }
}

/// The stored previous and next links of a page.
pub struct MemoryPageExtendInner {
    pub previous_index: u64,
    pub next_index: u64,
}

impl Default for MemoryPageExtendInner {
    fn default() -> (r: Self)
        ensures
            r.previous_index == 0,
            r.next_index == 0,
    {
        MemoryPageExtendInner { previous_index: 0, next_index: 0 }
    }
}

impl MemoryPageExtendInner {
    pub fn new(previous_index: Option<u64>, next_index: Option<u64>) -> (r: Self)
        ensures
            r.previous_index == raw_of(previous_index),
            r.next_index == raw_of(next_index),
    {
        let previous = match previous_index {
            Some(index) => index,
            None => 0,
        };
        let next = match next_index {
            Some(index) => index,
            None => 0,
        };
        MemoryPageExtendInner { previous_index: previous, next_index: next }
    }

    pub fn get_next(&self) -> (r: Option<u64>)
        ensures
            r == link_of(self.next_index),
    {
        match self.next_index {
            0 => None,
            index => Some(index),
        }
    }

    pub fn get_previous(&self) -> (r: Option<u64>)
        ensures
            r == link_of(self.previous_index),
    {
        match self.previous_index {
            0 => None,
            index => Some(index),
        }
    }

    pub fn set_next(&mut self, index: u64)
        ensures
            final(self).next_index == index,
            final(self).previous_index == old(self).previous_index,
    {
        self.next_index = index;
    }

    pub fn set_previous(&mut self, index: u64)
        ensures
            final(self).previous_index == index,
            final(self).next_index == old(self).next_index,
    {
        self.previous_index = index;
    }
}

/// The links of a page, owned by the page.
pub struct MemoryPageExtend {
    pub inner: MemoryPageExtendInner,
}

impl Default for MemoryPageExtend {
    fn default() -> (r: Self)
        ensures
            r.previous() == None::<u64>,
            r.next() == None::<u64>,
    {
        MemoryPageExtend { inner: MemoryPageExtendInner::default() }
    }
}

impl MemoryPageExtend {
    /// The previous page, as `get_previous` reads it.
    pub open spec fn previous(self) -> Option<u64> {
        link_of(self.inner.previous_index)
    }

    /// The next page, as `get_next` reads it.
    pub open spec fn next(self) -> Option<u64> {
        link_of(self.inner.next_index)
    }

    pub fn new(previous_index: Option<u64>, next_index: Option<u64>) -> (r: Self)
        ensures
            r.inner.previous_index == raw_of(previous_index),
            r.inner.next_index == raw_of(next_index),
    {
        let inner = MemoryPageExtendInner::new(previous_index, next_index);
        MemoryPageExtend { inner }
    }

    pub fn get_next(&self) -> (r: Option<u64>)
        ensures
            r == self.next(),
    {
        self.inner.get_next()
    }

    pub fn get_previous(&self) -> (r: Option<u64>)
        ensures
            r == self.previous(),
    {
        self.inner.get_previous()
    }

    pub fn set_next(&mut self, index: u64)
        ensures
            final(self).inner.next_index == index,
            final(self).inner.previous_index == old(self).inner.previous_index,
    {
        self.inner.set_next(index);
    }

    pub fn set_previous(&mut self, index: u64)
        ensures
            final(self).inner.previous_index == index,
            final(self).inner.next_index == old(self).inner.next_index,
    {
        self.inner.set_previous(index);
    }
}

/// A stored link reads back as the link it was made from, except that a
/// link to page 0 reads back as no link.
pub proof fn lemma_link_roundtrip(link: Option<u64>)
    ensures
        link_of(raw_of(link)) == (if link == Some(0u64) {
            None
        } else {
            link
        }),
{
}

/// Setting the next link of a page and reading it back gives the index set
/// (none for index 0), and leaves the previous link as it was.
pub proof fn lemma_set_next_then_get(before: MemoryPageExtend, after: MemoryPageExtend, index: u64)
    requires
        after.inner.next_index == index,
        after.inner.previous_index == before.inner.previous_index,
    ensures
        after.next() == (if index == 0 {
            None
        } else {
            Some(index)
        }),
        after.previous() == before.previous(),
{
}

/// The index that the last change of one kind in `changes` set, or
/// `initial` if there is none. A change `(true, i)` sets the next link to
/// `i`, `(false, i)` the previous link.
pub open spec fn last_set(initial: u64, changes: Seq<(bool, u64)>, next: bool) -> u64
    decreases changes.len(),
{
    if changes.len() == 0 {
        initial
    } else if changes.last().0 == next {
        changes.last().1
    } else {
        last_set(initial, changes.drop_last(), next)
    }
}

/// `after` is `before` with the change made by `set_next` (for
/// `(true, i)`) or `set_previous` (for `(false, i)`).
pub open spec fn changed_by(before: MemoryPageExtend, after: MemoryPageExtend, change: (bool, u64)) -> bool {
    if change.0 {
        after.inner.next_index == change.1 && after.inner.previous_index
            == before.inner.previous_index
    } else {
        after.inner.previous_index == change.1 && after.inner.next_index
            == before.inner.next_index
    }
}

/// After links made by `new(previous, next)` and any run of `set_next` and
/// `set_previous` calls, each link reads as the index given to the last
/// call that set it, or as the one it was made with if there was none; an
/// index of 0 reads as no link, so a link never reads as `Some(0)`.
pub proof fn lemma_link_history(
    states: Seq<MemoryPageExtend>,
    previous: Option<u64>,
    next: Option<u64>,
    changes: Seq<(bool, u64)>,
)
    requires
        states.len() == changes.len() + 1,
        states[0].inner.previous_index == raw_of(previous),
        states[0].inner.next_index == raw_of(next),
        forall|i: int|
            0 <= i < changes.len() ==> changed_by(states[i], states[i + 1], #[trigger] changes[i]),
    ensures
        states.last().next() == link_of(last_set(raw_of(next), changes, true)),
        states.last().previous() == link_of(last_set(raw_of(previous), changes, false)),
        states.last().next() != Some(0u64),
        states.last().previous() != Some(0u64),
    decreases changes.len(),
{
    if changes.len() > 0 {
        let n = changes.len() - 1;
        assert(changed_by(states[n], states[n + 1], changes[n]));
        lemma_link_history(states.drop_last(), previous, next, changes.drop_last());
        assert(states.drop_last().last() == states[n]);
    }
}

} // verus!
