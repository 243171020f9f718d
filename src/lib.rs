//! Splits text into fixed-size windows of characters, optionally overlapping,
//! and reads the settings of a chunking run from command-line arguments.

pub mod chunker;
pub mod cli;
pub mod laws;

pub use chunker::{chunk_text, ChunkOptions};
