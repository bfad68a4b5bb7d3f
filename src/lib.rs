//! A byte stream that pulls its data, chunk by chunk, from a function.
//!
//! `ReadWith` turns any source of chunks (a list of strings, rows from a
//! database, generated blocks) into a `std::io::Read`.
mod cursor;
mod reader;

pub use cursor::ChunkCursor;
pub use reader::{lemma_empty_chunk_transparent, refreshed, ReadWith, MAX_PULLS_PER_READ};
