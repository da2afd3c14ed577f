//! Errors of the library.

use vstd::prelude::*;

verus! {

/// Error of a document operation or of decoding a record.
#[derive(Debug)]
pub enum HwpError {
    /// A field operation that cannot be carried out (no such field, a
    /// location that does not exist, a damaged field range).
    InvalidField(String),
    /// A record ended before a value that was to be read from it.
    UnexpectedEof { offset: usize, needed: usize },
}

} // verus!
