//! Paragraphs, field ranges and line segments.

use vstd::prelude::*;
use crate::model::control::Control;

verus! {

/// The text span of a field in its paragraph: characters
/// `[start_char_idx, end_char_idx)`, and the index in `controls` of the
/// field control that opened it.
///
/// A paragraph lists its field ranges in the order in which the fields
/// closed, so an enclosed field always comes before the field enclosing it.
#[derive(Debug, Clone, Copy, PartialEq, Eq, Default)]
pub struct FieldRange {
    pub start_char_idx: usize,
    pub end_char_idx: usize,
    pub control_idx: usize,
}

/// One laid-out line of a paragraph, as the file stores it.
#[derive(Debug, Clone, Copy, PartialEq, Eq, Default)]
pub struct LineSeg {
    pub text_start: u32,
    pub vertical_pos: i32,
    pub line_height: i32,
    pub segment_width: i32,
}

/// A paragraph: its text, its controls (in stream order), the ranges of its
/// fields, the stream offset (in UTF-16 code units) of each character, its
/// line segments, and the CTRL_DATA records of its controls.
#[derive(Debug, Default)]
pub struct Paragraph {
    pub text: String,
    pub controls: Vec<Control>,
    pub field_ranges: Vec<FieldRange>,
    pub char_offsets: Vec<u32>,
    pub line_segs: Vec<LineSeg>,
    /// The CTRL_DATA record of each control, by control index, where it
    /// has one (a field's name is kept there).
    pub ctrl_data_records: Vec<Option<Vec<u8>>>,
}

} // verus!
