//! Memory: subject vocabulary, call numbers and cross references.

pub mod call_number;
pub mod classification;
pub mod compaction;
pub mod controlled_vocab;
pub mod entry;
pub mod lifecycle;
pub mod retrieval;
pub mod see_also;
pub mod store;
