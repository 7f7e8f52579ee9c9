//! A verified session store: in-memory transcripts, a write batcher, and the
//! pure logic behind reading and rewriting JSONL session files.

pub mod api;
pub mod batcher;
pub mod encoding;
pub mod json;
pub mod laws;
pub mod listing;
pub mod maps;
pub mod memory;
pub mod mutations;
pub mod paths;
pub mod resume;
pub mod seqs;
pub mod sessions;
pub mod store;
pub mod text;
pub mod types;
