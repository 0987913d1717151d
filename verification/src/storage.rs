//! Page storage: pages of bytes, each linked to its previous and next page,
//! so that a run of pages forms a chain. The storage owns its pages; they are
//! reached through borrows of the storage, so what is written to a page
//! reached that way is in the storage.
use vstd::prelude::*;
use self::memory::page::extend::link_of;
use self::page::StoragePage;
use self::page::stream::PageStream;

pub mod memory;
pub mod page;

verus! {

/// Why a storage refused a request.
#[derive(Debug, Clone, Copy, PartialEq, Eq, Structural)]
pub enum StorageError {
    /// A page asked to be contiguous with its previous page cannot be.
    NotContiguous,
    /// The previous page named does not exist.
    MissingPreviousPage,
}

/// `a` minus `b`, or 0 where `b` is the larger.
pub open spec fn saturating_sub(a: nat, b: nat) -> nat {
    if a <= b {
        0
    } else {
        (a - b) as nat
    }
}

/// How many pages follow the first page of a batch for `rest` more bytes.
pub open spec fn extra_pages(rest: nat, size: nat) -> nat
    decreases rest,
{
    if rest == 0 || size == 0 {
        0
    } else {
        1 + extra_pages(saturating_sub(rest, size), size)
    }
}

/// How many pages a batch for `len` bytes takes: at least one, and enough
/// pages of `size` bytes to hold `len` bytes.
pub open spec fn batch_pages(len: nat, size: nat) -> nat {
    1 + extra_pages(saturating_sub(len, size), size)
}

/// A store of pages, each known by an index.
pub trait Storage: Sized {
    type Page: StoragePage;

    /// There is a page at `index`.
    spec fn has_page(&self, index: int) -> bool;

    /// The next link of page `index`, as the page reads it.
    spec fn next_of(&self, index: int) -> Option<u64>;

    /// The previous link of page `index`, as the page reads it.
    spec fn previous_of(&self, index: int) -> Option<u64>;

    /// `n` pages can be made without failing: the first by `new_page`, each
    /// other by `new_page_extended` after the one made before it, contiguous
    /// with it. A storage whose page making may fail for reasons of its own
    /// says false.
    spec fn can_start(&self, n: nat) -> bool;

    /// `n` pages can be made without failing by `new_page_extended`, each
    /// after the one made before it and contiguous with it, the first after
    /// page `after`.
    spec fn can_chain(&self, after: int, n: nat) -> bool;

    /// Room for `n >= 1` pages is room for one.
    proof fn lemma_room_for_one(&self, after: int, n: nat)
        requires
            n >= 1,
        ensures
            self.can_start(n) ==> self.can_start(1),
            self.can_chain(after, n) ==> self.can_chain(after, 1),
    ;

    /// Makes a new page with no links; gives its index, which no page had.
    fn new_page(&mut self) -> (r: Result<u64, StorageError>)
        ensures
            old(self).can_start(1) ==> r is Ok,
            r matches Ok(i) ==> {
                &&& !old(self).has_page(i as int)
                &&& final(self).has_page(i as int)
                &&& forall|j: int| j != i ==> final(self).has_page(j) == old(self).has_page(j)
                &&& final(self).next_of(i as int) == None::<u64>
                &&& final(self).previous_of(i as int) == None::<u64>
                &&& forall|j: int|
                    old(self).has_page(j) ==> final(self).next_of(j) == old(self).next_of(j)
                        && final(self).previous_of(j) == old(self).previous_of(j)
                &&& forall|n: nat| old(self).can_start(n + 1) ==> final(self).can_chain(i as int, n)
            },
    ;

    /// Makes a new page that follows page `previous_index`: the new page
    /// links back to it and it links on to the new page. With `contiguous`,
    /// the new page's index is one past `previous_index`, or the request is
    /// refused. Gives the new page's index, which no page had.
    fn new_page_extended(&mut self, previous_index: u64, contiguous: bool) -> (r: Result<
        u64,
        StorageError,
    >)
        ensures
            old(self).can_chain(previous_index as int, 1) ==> r is Ok,
            r matches Ok(i) ==> {
                &&& old(self).has_page(previous_index as int)
                &&& !old(self).has_page(i as int)
                &&& final(self).has_page(i as int)
                &&& forall|j: int| j != i ==> final(self).has_page(j) == old(self).has_page(j)
                &&& contiguous ==> previous_index + 1 == i
                &&& final(self).next_of(previous_index as int) == link_of(i)
                &&& final(self).previous_of(previous_index as int) == old(self).previous_of(
                    previous_index as int,
                )
                &&& final(self).next_of(i as int) == None::<u64>
                &&& final(self).previous_of(i as int) == link_of(previous_index)
                &&& forall|j: int|
                    old(self).has_page(j) && j != previous_index ==> final(self).next_of(j)
                        == old(self).next_of(j) && final(self).previous_of(j) == old(self).previous_of(j)
                &&& forall|n: nat|
                    old(self).can_chain(previous_index as int, n + 1) ==> final(self).can_chain(
                        i as int,
                        n,
                    )
            },
    ;

    /// The page at `index`, if there is one, to be read.
    fn get_page(&self, index: u64) -> (r: Result<Option<&Self::Page>, StorageError>)
        ensures
            r matches Ok(p) ==> (p is Some <==> self.has_page(index as int)),
    ;

    /// The page at `index`, if there is one, to be written in place.
    fn get_page_mut(&mut self, index: u64) -> (r: Result<Option<&mut Self::Page>, StorageError>)
        ensures
            r matches Ok(p) ==> (p is Some <==> old(self).has_page(index as int)),
    ;

    /// Makes what was written durable.
    fn flush(&self) -> Result<(), StorageError>;

    /// Makes a chain of pages for `len` bytes, as many pages of
    /// `Self::Page::page_size()` bytes as hold them and at least one; gives the
    /// index of the first. The pages are new; in the chain the first page has
    /// no previous page, the last no next page, and each other link points to
    /// the neighbour (a link to page 0 reads as none). With `contiguous` the
    /// pages have consecutive indices. Pages there before keep their links.
    #[verifier::rlimit(100)]
    #[verifier::spinoff_prover]
    fn new_batch(&mut self, len: u64, contiguous: bool) -> (r: Result<u64, StorageError>)
        requires
            Self::Page::page_size() > 0,
        ensures
            old(self).can_start(batch_pages(len as nat, Self::Page::page_size())) ==> r is Ok,
            r matches Ok(first) ==> exists|idx: Seq<u64>|
                #![trigger idx.len()]
                {
                    let k = batch_pages(len as nat, Self::Page::page_size());
                    &&& idx.len() == k
                    &&& idx[0] == first
                    &&& forall|i: int|
                        0 <= i < k ==> !old(self).has_page(#[trigger] idx[i] as int)
                            && final(self).has_page(idx[i] as int)
                    &&& forall|i: int, j: int| 0 <= i < j < k ==> idx[i] != idx[j]
                    &&& forall|j: int|
                        final(self).has_page(j) && !old(self).has_page(j) ==> exists|i: int|
                            0 <= i < k && #[trigger] idx[i] == j
                    &&& final(self).previous_of(first as int) == None::<u64>
                    &&& final(self).next_of(idx[k - 1] as int) == None::<u64>
                    &&& forall|i: int|
                        0 <= i < k - 1 ==> #[trigger] final(self).next_of(idx[i] as int) == link_of(
                            idx[i + 1],
                        )
                    &&& forall|i: int|
                        0 < i < k ==> #[trigger] final(self).previous_of(idx[i] as int) == link_of(
                            idx[i - 1],
                        )
                    &&& contiguous ==> forall|i: int| 0 <= i < k ==> #[trigger] idx[i] == first + i
                    &&& forall|j: int|
                        old(self).has_page(j) ==> final(self).next_of(j) == old(self).next_of(j)
                            && final(self).previous_of(j) == old(self).previous_of(j)
                },
    {
        let size = Self::Page::size();
        let mut rest = len.saturating_sub(size);
        let ghost k = batch_pages(len as nat, size as nat);
        let ghost start = *self;
        proof {
            start.lemma_room_for_one(0, k);
        }
        let first_index = match self.new_page() {
            Ok(i) => i,
            Err(e) => {
                return Err(e);
            },
        };
        let mut last_index = first_index;
        let ghost mut idx: Seq<u64> = seq![first_index];
        proof {
            assert(idx[0] == first_index);
            assert forall|j: int| self.has_page(j) && !start.has_page(j) implies exists|i: int|
                0 <= i < idx.len() && #[trigger] idx[i] == j by {
                assert(idx[0] == j);
            }
        }
        while rest > 0
            invariant
                size == Self::Page::page_size(),
                size > 0,
                start == *old(self),
                k == batch_pages(len as nat, size as nat),
                idx.len() >= 1,
                idx[0] == first_index,
                last_index == idx[idx.len() - 1],
                idx.len() + extra_pages(rest as nat, size as nat) == k,
                start.can_start(k) ==> self.can_chain(last_index as int, (k - idx.len()) as nat),
                forall|i: int|
                    0 <= i < idx.len() ==> !start.has_page(#[trigger] idx[i] as int)
                        && self.has_page(idx[i] as int),
                forall|i: int, j: int| 0 <= i < j < idx.len() ==> idx[i] != idx[j],
                forall|j: int|
                    self.has_page(j) && !start.has_page(j) ==> exists|i: int|
                        0 <= i < idx.len() && #[trigger] idx[i] == j,
                self.previous_of(first_index as int) == None::<u64>,
                self.next_of(last_index as int) == None::<u64>,
                forall|i: int|
                    0 <= i < idx.len() - 1 ==> #[trigger] self.next_of(idx[i] as int) == link_of(
                        idx[i + 1],
                    ),
                forall|i: int|
                    0 < i < idx.len() ==> #[trigger] self.previous_of(idx[i] as int) == link_of(
                        idx[i - 1],
                    ),
                contiguous ==> forall|i: int| 0 <= i < idx.len() ==> #[trigger] idx[i] == first_index + i,
                forall|j: int|
                    start.has_page(j) ==> self.has_page(j) && self.next_of(j) == start.next_of(j)
                        && self.previous_of(j) == start.previous_of(j),
            decreases rest,
        {
            let ghost rest_before = rest;
            rest = rest.saturating_sub(size);
            let ghost before = *self;
            proof {
                assert(extra_pages(rest_before as nat, size as nat) >= 1);
                before.lemma_room_for_one(last_index as int, (k - idx.len()) as nat);
            }
            let next_index = match self.new_page_extended(last_index, contiguous) {
                Ok(i) => i,
                Err(e) => {
                    return Err(e);
                },
            };
            proof {
                let old_idx = idx;
                idx = idx.push(next_index);
                assert(idx[idx.len() - 1] == next_index);
                assert forall|i: int| 0 <= i < idx.len() implies !start.has_page(#[trigger] idx[i] as int)
                    && self.has_page(idx[i] as int) by {
                    if i < old_idx.len() {
                        assert(idx[i] == old_idx[i]);
                        assert(before.has_page(old_idx[i] as int));
                        assert(old_idx[i] != next_index);
                        assert(self.has_page(old_idx[i] as int));
                    }
                }
                assert forall|i: int, j: int| 0 <= i < j < idx.len() implies idx[i] != idx[j] by {
                    if j < old_idx.len() {
                        assert(idx[i] == old_idx[i] && idx[j] == old_idx[j]);
                    } else {
                        assert(idx[i] == old_idx[i]);
                        assert(before.has_page(old_idx[i] as int));
                    }
                }
                assert forall|j: int| self.has_page(j) && !start.has_page(j) implies exists|i: int|
                    0 <= i < idx.len() && #[trigger] idx[i] == j by {
                    if j == next_index {
                        assert(idx[idx.len() - 1] == j);
                    } else {
                        assert(before.has_page(j));
                        let i = choose|i: int| 0 <= i < old_idx.len() && #[trigger] old_idx[i] == j;
                        assert(idx[i] == old_idx[i]);
                    }
                }
                assert forall|i: int| 0 <= i < idx.len() - 1 implies #[trigger] self.next_of(
                    idx[i] as int,
                ) == link_of(idx[i + 1]) by {
                    assert(idx[i] == old_idx[i]);
                    if i < old_idx.len() - 1 {
                        assert(idx[i + 1] == old_idx[i + 1]);
                        assert(before.has_page(old_idx[i] as int));
                        assert(old_idx[i] != last_index);
                    }
                }
                assert forall|i: int| 0 < i < idx.len() implies #[trigger] self.previous_of(
                    idx[i] as int,
                ) == link_of(idx[i - 1]) by {
                    if i < old_idx.len() {
                        assert(idx[i] == old_idx[i] && idx[i - 1] == old_idx[i - 1]);
                        assert(before.has_page(old_idx[i] as int));
                    }
                }
                if contiguous {
                    assert forall|i: int| 0 <= i < idx.len() implies #[trigger] idx[i] == first_index + i by {
                        if i < old_idx.len() {
                            assert(idx[i] == old_idx[i]);
                        }
                    }
                }
                assert forall|j: int| start.has_page(j) implies self.next_of(j) == start.next_of(j)
                    && self.previous_of(j) == start.previous_of(j) && self.has_page(j) by {
                    assert(before.has_page(j));
                    assert(!start.has_page(last_index as int));
                    assert(j != next_index);
                }
                assert(first_index != last_index ==> first_index != next_index);
            }
            last_index = next_index;
        }
        proof {
            assert(idx.len() == k);
        }
        Ok(first_index)
    }

    /// A stream over this storage from page `start_index`.
    fn page_stream(&self, start_index: u64) -> (r: PageStream<'_, Self>)
        ensures
            r.start_index == start_index,
            r.current_index == start_index,
            r.storage == self,
    {
        PageStream { start_index, current_index: start_index, storage: self }
    }
}

} // verus!
