//! Paragraph numbering definitions of a document.

use vstd::prelude::*;

verus! {

/// How the number of one level of a numbering is written (its number
/// format code).
#[derive(Debug, Default, Clone, Copy)]
pub struct NumberingHead {
    pub number_format: u8,
}

/// A paragraph numbering definition with seven levels: each level's head,
/// its format string (`^n` stands for the number of level `n`) and the
/// number it starts from, and the start number of the whole numbering.
#[derive(Debug, Default)]
pub struct Numbering {
    pub heads: [NumberingHead; 7],
    pub level_formats: [String; 7],
    pub start_number: u16,
    pub level_start_numbers: [u32; 7],
}

} // verus!
