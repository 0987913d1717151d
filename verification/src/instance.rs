//! A database instance: its metadata and its in-memory buffers.
pub mod memory;
pub mod metadata;
