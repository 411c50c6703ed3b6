//! The search index: what is written to it, in which batches, and how queries
//! are read.

pub mod indexer;
pub mod reader;
pub mod size;
pub mod writer;
