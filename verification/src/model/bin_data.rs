//! Binary data items of a document (embedded images and the like).

use vstd::prelude::*;

verus! {

/// A binary data item: its ID, its bytes (empty while not loaded) and the
/// file extension of its format.
#[derive(Debug, Default)]
pub struct BinDataContent {
    pub id: u16,
    pub data: Vec<u8>,
    pub extension: String,
}

} // verus!
