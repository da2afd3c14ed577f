//! Reading HWP binary records.

pub mod byte_reader;
