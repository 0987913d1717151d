//! A small key-value storage library: an append-only record log, a page
//! store with linked pages, an instance metadata format and the version
//! records that guard it.
pub mod kv;
pub mod text;
pub mod logdb;
pub mod reader;
pub mod row;
pub mod memtable;
pub mod storage;
pub mod instance;
pub mod database;
