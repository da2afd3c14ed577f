//! Verified core of an HWP word-processor document library: little-endian
//! record writing and reading, the click-here field model of a document
//! (field lookup, field value editing and field-range bookkeeping), the
//! clearing of untouched guide texts, and the check of stored line
//! segments.

pub mod document_core;
pub mod encoding;
pub mod error;
pub mod json;
pub mod model;
pub mod parser;
pub mod serializer;
pub mod text;
pub mod thumbnail;
