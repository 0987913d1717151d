use rewind_kv::storage::memory::page::extend::{MemoryPageExtend, MemoryPageExtendInner};
use rewind_kv::storage::memory::page::reader::MemoryPageReaderLock;
use rewind_kv::storage::memory::page::writer::MemoryPageWriterLock;
use rewind_kv::storage::memory::page::{MemoryPage, SeekError, SeekFrom, PAGE_SIZE};
use rewind_kv::storage::memory::MemoryStorage;
use rewind_kv::storage::page::stream::PageStream;
use rewind_kv::storage::page::StoragePage;
use rewind_kv::storage::{Storage, StorageError};

fn empty() -> MemoryStorage {
    MemoryStorage { pages: Vec::new() }
}

fn links(s: &MemoryStorage, i: usize) -> (Option<u64>, Option<u64>) {
    (s.pages[i].extends.get_previous(), s.pages[i].extends.get_next())
}

#[test]
fn extend_links_read_back() {
    let mut e = MemoryPageExtend::new(Some(3), None);
    assert_eq!(e.get_previous(), Some(3));
    assert_eq!(e.get_next(), None);
    e.set_next(9);
    assert_eq!(e.get_next(), Some(9));
    assert_eq!(e.get_previous(), Some(3));
    e.set_previous(0);
    assert_eq!(e.get_previous(), None);
    assert_eq!(MemoryPageExtend::new(Some(0), Some(0)).get_next(), None);
    let d = MemoryPageExtend::default();
    assert_eq!((d.get_previous(), d.get_next()), (None, None));
}

#[test]
fn extend_inner_links_read_back() {
    let mut i = MemoryPageExtendInner::new(None, Some(5));
    assert_eq!(i.get_next(), Some(5));
    assert_eq!(i.get_previous(), None);
    i.set_previous(2);
    i.set_next(0);
    assert_eq!(i.get_previous(), Some(2));
    assert_eq!(i.get_next(), None);
    let d = MemoryPageExtendInner::default();
    assert_eq!((d.previous_index, d.next_index), (0, 0));
}

#[test]
fn new_page_is_zeroed() {
    let p = MemoryPage::new(Some(4)).unwrap();
    assert_eq!(p.data.len(), PAGE_SIZE);
    assert!(p.data.iter().all(|b| *b == 0));
    assert_eq!(p.extends.get_previous(), Some(4));
    assert_eq!(p.extends.get_next(), None);
    assert_eq!(MemoryPage::size(), 4096);
}

#[test]
fn set_next_index_links_page() {
    let mut p = MemoryPage::new(None).unwrap();
    p.set_next_index(7);
    assert_eq!(p.extends.get_next(), Some(7));
}

#[test]
fn new_pages_are_numbered_in_order() {
    let mut s = empty();
    assert_eq!(s.new_page(), Ok(0));
    assert_eq!(s.new_page(), Ok(1));
    assert_eq!(s.pages.len(), 2);
    assert_eq!(links(&s, 1), (None, None));
}

#[test]
fn extended_page_links_both_ways() {
    let mut s = empty();
    s.new_page().unwrap();
    s.new_page().unwrap();
    assert_eq!(s.new_page_extended(1, true), Ok(2));
    assert_eq!(links(&s, 1), (None, Some(2)));
    assert_eq!(links(&s, 2), (Some(1), None));
}

#[test]
fn link_to_page_zero_reads_as_none() {
    let mut s = empty();
    s.new_page().unwrap();
    assert_eq!(s.new_page_extended(0, false), Ok(1));
    assert_eq!(links(&s, 0), (None, Some(1)));
    assert_eq!(links(&s, 1), (None, None));
}

#[test]
fn non_contiguous_extension_of_an_earlier_page() {
    let mut s = empty();
    s.new_page().unwrap();
    s.new_page().unwrap();
    s.new_page().unwrap();
    assert_eq!(s.new_page_extended(1, false), Ok(3));
    assert_eq!(links(&s, 1), (None, Some(3)));
    assert_eq!(links(&s, 3), (Some(1), None));
    assert_eq!(links(&s, 2), (None, None));
}

#[test]
fn link_history_reads_last_set() {
    let mut e = MemoryPageExtend::new(Some(4), Some(6));
    e.set_next(8);
    e.set_previous(2);
    e.set_next(0);
    e.set_next(11);
    assert_eq!(e.get_next(), Some(11));
    assert_eq!(e.get_previous(), Some(2));
    e.set_previous(0);
    assert_eq!(e.get_previous(), None);
}

#[test]
fn extended_page_errors() {
    let mut s = empty();
    s.new_page().unwrap();
    s.new_page().unwrap();
    assert_eq!(s.new_page_extended(0, true), Err(StorageError::NotContiguous));
    assert_eq!(s.new_page_extended(5, false), Err(StorageError::MissingPreviousPage));
    assert_eq!(s.new_page_extended(2, true), Err(StorageError::NotContiguous));
    assert_eq!(s.new_page_extended(u64::MAX, true), Err(StorageError::NotContiguous));
    assert_eq!(empty().new_page_extended(u64::MAX, true), Err(StorageError::MissingPreviousPage));
    assert_eq!(s.pages.len(), 2);
    assert_eq!(s.new_page_extended(0, false), Ok(2));
}

#[test]
fn batch_page_counts() {
    for (len, pages) in [(0u64, 1usize), (1, 1), (4096, 1), (4097, 2), (8192, 2), (8193, 3)] {
        let mut s = empty();
        assert_eq!(s.new_batch(len, true), Ok(0));
        assert_eq!(s.pages.len(), pages, "len {len}");
    }
}

#[test]
fn non_contiguous_batch_also_chains() {
    let mut s = empty();
    assert_eq!(s.new_batch(5000, false), Ok(0));
    assert_eq!(links(&s, 0), (None, Some(1)));
    assert_eq!(links(&s, 1), (None, None));
}

#[test]
fn batch_forms_a_chain() {
    let mut s = empty();
    s.new_page().unwrap();
    let first = s.new_batch(3 * 4096, true).unwrap();
    assert_eq!(first, 1);
    assert_eq!(s.pages.len(), 4);
    assert_eq!(links(&s, 0), (None, None));
    assert_eq!(links(&s, 1), (None, Some(2)));
    assert_eq!(links(&s, 2), (Some(1), Some(3)));
    assert_eq!(links(&s, 3), (Some(2), None));
}

#[test]
fn get_page_reads_the_stored_page() {
    let mut s = empty();
    s.new_page().unwrap();
    s.pages[0].data[10] = 5;
    let p = s.get_page(0).unwrap().unwrap();
    assert_eq!(p.data[10], 5);
    assert!(s.get_page(1).unwrap().is_none());
    assert_eq!(s.flush(), Ok(()));
}

#[test]
fn writes_through_a_fetched_page_land_in_the_storage() {
    let mut s = empty();
    s.new_page().unwrap();
    {
        let page = s.get_page_mut(0).unwrap().unwrap();
        let mut w = page.writer();
        assert_eq!(w.write(&[4, 5]), 2);
    }
    s.get_page_mut(0).unwrap().unwrap().set_next_index(7);
    let p = s.get_page(0).unwrap().unwrap();
    assert_eq!(p.data[..3], [4, 5, 0]);
    assert_eq!(p.extends.get_next(), Some(7));
    let mut r = p.reader();
    let mut buf = [0u8; 2];
    assert_eq!(r.read(&mut buf), 2);
    assert_eq!(buf, [4, 5]);
    assert!(s.get_page_mut(3).unwrap().is_none());
}

#[test]
fn page_stream_starts_at_index() {
    let mut s = empty();
    s.new_page().unwrap();
    let st = s.page_stream(0);
    assert_eq!((st.start_index, st.current_index), (0, 0));
    assert_eq!(st.storage.pages.len(), 1);
    let other = empty();
    let st2 = PageStream::new(&other, 4);
    assert_eq!((st2.start_index, st2.current_index), (4, 4));
}

#[test]
fn write_then_read_back() {
    let mut page = MemoryPage::new(None).unwrap();
    {
        let mut w = page.writer();
        assert_eq!(w.seek(SeekFrom::Start(100)), Ok(100));
        assert_eq!(w.write(&[1, 2, 3]), 3);
        assert_eq!(w.pos, 103);
        w.flush();
    }
    let mut r = page.reader();
    assert_eq!(r.seek(SeekFrom::Current(100)), Ok(100));
    let mut buf = [9u8; 5];
    assert_eq!(r.read(&mut buf), 5);
    assert_eq!(buf, [1, 2, 3, 0, 0]);
}

#[test]
fn reads_and_writes_stop_at_page_end() {
    let mut page = MemoryPage::new(None).unwrap();
    {
        let mut w = MemoryPageWriterLock::new(&mut page.data);
        assert_eq!(w.seek(SeekFrom::End(-2)), Ok(4094));
        assert_eq!(w.write(&[7, 8, 9]), 2);
        assert_eq!(w.write(&[1]), 0);
    }
    let mut r = MemoryPageReaderLock::new(&page.data);
    assert_eq!(r.seek(SeekFrom::End(-3)), Ok(4093));
    let mut buf = [5u8; 4];
    assert_eq!(r.read(&mut buf), 3);
    assert_eq!(buf, [0, 7, 8, 5]);
    assert_eq!(r.read(&mut buf), 0);
}

#[test]
fn seek_out_of_bounds_is_refused() {
    let page = MemoryPage::new(None).unwrap();
    let mut r = page.reader();
    assert_eq!(r.seek(SeekFrom::Start(4096)), Ok(4096));
    assert_eq!(r.seek(SeekFrom::Start(4097)), Err(SeekError::OutOfBounds));
    assert_eq!(r.pos, 4096);
    assert_eq!(r.seek(SeekFrom::Current(-4097)), Err(SeekError::OutOfBounds));
    assert_eq!(r.seek(SeekFrom::End(1)), Err(SeekError::OutOfBounds));
    assert_eq!(r.seek(SeekFrom::Start(u64::MAX)), Err(SeekError::OutOfBounds));
    assert_eq!(r.seek(SeekFrom::Current(-96)), Ok(4000));
}
