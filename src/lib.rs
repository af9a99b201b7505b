//! Per-ASN IP prefix aggregates: reading an upstream aggregate document into a
//! record, and merging records into a keyed map, with large records split into
//! chunks.

pub mod json;
pub mod record;
pub mod merge;
pub mod config;
pub mod laws;
