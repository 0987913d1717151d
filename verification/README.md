# rewind_kv

A small key-value storage library, verified with Verus.

- `logdb`: the record log of the file-backed database — encoding a record
  and looking a key up, with the laws that a read gives back what the first
  write of a key wrote and that writes to other keys leave it alone.
- `row`, `memtable`: write-ahead log entries read from bytes.
- `storage`: page storage; pages of 4096 bytes linked into chains, with a
  generic batch allocator proved against the `Storage` trait's contracts and
  an in-memory implementation. The storage owns its pages; readers, writers
  and page streams borrow them, so writes land in the stored pages.
- `instance`: the instance metadata file (version record and database
  names) and heap buffers per kind of data.
- `kv`, `database`: database format version and memory regions.

`app/` holds the program around the library: file handling, the instance
directory and `main`.
