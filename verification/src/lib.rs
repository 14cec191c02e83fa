//! Batch indexer library: text normalization, document discovery,
//! JSON framing for the embedding service and the record store, and
//! the per-file pipeline decisions, all with verified contracts.

pub mod discover;
pub mod json;
pub mod pipeline;
pub mod strutil;
pub mod text;
