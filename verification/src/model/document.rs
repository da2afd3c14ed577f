//! A document: its definitions, its sections and its binary data.

use vstd::prelude::*;
use crate::model::bin_data::BinDataContent;
use crate::model::paragraph::Paragraph;
use crate::model::style::Numbering;

verus! {

/// A section: its paragraphs and, while the section is unchanged since it
/// was read, the original bytes of its stream (written back as they are on
/// save).
#[derive(Debug, Default)]
pub struct Section {
    pub paragraphs: Vec<Paragraph>,
    pub raw_stream: Option<Vec<u8>>,
}

/// The document-wide definitions that paragraphs refer to.
#[derive(Debug, Default)]
pub struct DocInfo {
    /// The numbering definitions, whose IDs count from 1.
    pub numberings: Vec<Numbering>,
}

/// A document: its definitions, its sections and its binary data items.
#[derive(Debug, Default)]
pub struct Document {
    pub doc_info: DocInfo,
    pub sections: Vec<Section>,
    pub bin_data_content: Vec<BinDataContent>,
}

} // verus!
