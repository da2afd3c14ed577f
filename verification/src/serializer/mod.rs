//! Writing HWP binary records.

pub mod byte_writer;
