//! Page storage held in memory.
use vstd::prelude::*;
use self::page::{MemoryPage, PAGE_SIZE};
use self::page::extend::raw_of;
use crate::storage::{Storage, StorageError};

pub mod page;

verus! {

/// Pages held in memory, in the order they were made: page `i` is at
/// index `i`. The storage is the pages' one owner.
pub struct MemoryStorage {
    pub pages: Vec<MemoryPage>,
}

impl MemoryStorage {
    /// Every page holds `PAGE_SIZE` bytes.
    pub open spec fn wf(&self) -> bool {
        forall|i: int| 0 <= i < self.pages@.len() ==> (#[trigger] self.pages@[i]).wf()
    }
}

/// A fresh page: zeroed, with the given stored links.
pub open spec fn fresh_page(page: MemoryPage, previous: u64) -> bool {
    &&& page.data@ == Seq::new(PAGE_SIZE as nat, |i: int| 0u8)
    &&& page.extends.inner.previous_index == previous
    &&& page.extends.inner.next_index == 0
}

/// The index after `i`, wrapping around at `u64::MAX` as the index
/// arithmetic does.
pub open spec fn successor(i: u64) -> int {
    if i == u64::MAX {
        0
    } else {
        i + 1
    }
}

impl Storage for MemoryStorage {
    type Page = MemoryPage;

    open spec fn has_page(&self, index: int) -> bool {
        0 <= index < self.pages@.len()
    }

    open spec fn next_of(&self, index: int) -> Option<u64> {
        self.pages@[index].extends.next()
    }

    open spec fn previous_of(&self, index: int) -> Option<u64> {
        self.pages@[index].extends.previous()
    }

    open spec fn can_start(&self, n: nat) -> bool {
        self.pages@.len() + n <= usize::MAX
    }

    open spec fn can_chain(&self, after: int, n: nat) -> bool {
        &&& after + 1 == self.pages@.len()
        &&& self.pages@.len() + n <= usize::MAX
    }

    proof fn lemma_room_for_one(&self, after: int, n: nat) {
        if self.can_chain(after, n) {
            assert(after + 1 == self.pages@.len());
            assert(self.pages@.len() + 1 <= usize::MAX);
            assert(self.can_chain(after, 1));
        }
    }

    fn new_page(&mut self) -> (r: Result<u64, StorageError>)
        ensures
            r == Ok::<u64, StorageError>(old(self).pages@.len() as u64),
            final(self).pages@.len() == old(self).pages@.len() + 1,
            forall|j: int|
                0 <= j < old(self).pages@.len() ==> #[trigger] final(self).pages@[j] == old(self).pages@[j],
            fresh_page(final(self).pages@[old(self).pages@.len() as int], 0),
            old(self).wf() ==> final(self).wf(),
    {
        let new_page_index = self.pages.len() as u64;
        let page = match MemoryPage::new(None) {
            Ok(p) => p,
            Err(e) => {
                return Err(e);
            },
        };
        self.pages.push(page);
        Ok(new_page_index)
    }

    fn new_page_extended(&mut self, previous_index: u64, contiguous: bool) -> (r: Result<
        u64,
        StorageError,
    >)
        ensures
            contiguous && successor(previous_index) != old(self).pages@.len() ==> r == Err::<
                u64,
                StorageError,
            >(StorageError::NotContiguous),
            !(contiguous && successor(previous_index) != old(self).pages@.len()) && previous_index
                >= old(self).pages@.len() ==> r == Err::<u64, StorageError>(
                StorageError::MissingPreviousPage,
            ),
            !(contiguous && successor(previous_index) != old(self).pages@.len()) && previous_index
                < old(self).pages@.len() ==> r is Ok,
            r is Err ==> final(self).pages@ == old(self).pages@,
            r is Ok ==> {
                &&& r == Ok::<u64, StorageError>(old(self).pages@.len() as u64)
                &&& final(self).pages@.len() == old(self).pages@.len() + 1
                &&& forall|j: int|
                    0 <= j < old(self).pages@.len() && j != previous_index ==> #[trigger] final(self).pages@[j]
                        == old(self).pages@[j]
                &&& final(self).pages@[previous_index as int].data == old(self).pages@[previous_index as int].data
                &&& final(self).pages@[previous_index as int].extends.inner.previous_index == old(self).pages@[previous_index as int].extends.inner.previous_index
                &&& final(self).pages@[previous_index as int].extends.inner.next_index
                    == old(self).pages@.len()
                &&& fresh_page(final(self).pages@[old(self).pages@.len() as int], previous_index)
            },
            old(self).wf() ==> final(self).wf(),
    {
        let new_page_index = self.pages.len() as u64;
        if contiguous && previous_index.wrapping_add(1) != new_page_index {
            return Err(StorageError::NotContiguous);
        }
        if previous_index >= new_page_index {
            return Err(StorageError::MissingPreviousPage);
        }
        let prev = previous_index as usize;
        self.pages[prev].set_next_index(new_page_index);
        let new_page = match MemoryPage::new(Some(previous_index)) {
            Ok(p) => p,
            Err(e) => {
                return Err(e);
            },
        };
        self.pages.push(new_page);
        Ok(new_page_index)
    }

    fn get_page(&self, index: u64) -> (r: Result<Option<&MemoryPage>, StorageError>)
        ensures
            r is Ok,
            r matches Ok(Some(p)) ==> *p == self.pages@[index as int],
    {
        if index < self.pages.len() as u64 {
            Ok(Some(&self.pages[index as usize]))
        } else {
            Ok(None)
        }
    }

    fn get_page_mut(&mut self, index: u64) -> (r: Result<Option<&mut MemoryPage>, StorageError>)
        ensures
            r is Ok,
            r matches Ok(None) ==> final(self).pages@ == old(self).pages@,
            r matches Ok(Some(p)) ==> {
                &&& *p == old(self).pages@[index as int]
                &&& final(self).pages@ == old(self).pages@.update(index as int, *final(p))
            },
    {
        if index < self.pages.len() as u64 {
            Ok(Some(&mut self.pages[index as usize]))
        } else {
            Ok(None)
        }
    }

    fn flush(&self) -> (r: Result<(), StorageError>)
        ensures
            r is Ok,
    {
        Ok(())
    }
}

} // verus!
