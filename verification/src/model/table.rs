//! Tables and their cells.

use vstd::prelude::*;
use crate::model::paragraph::Paragraph;

verus! {

/// A table cell: its grid position and size, its text direction, its
/// paragraphs and, where the cell itself is named as a form field, that
/// name.
#[derive(Debug, Default)]
pub struct Cell {
    pub col: u16,
    pub row: u16,
    pub col_span: u16,
    pub row_span: u16,
    pub width: u32,
    pub height: u32,
    pub border_fill_id: u16,
    /// How the cell's text runs: 0 across, 1 down with Latin text turned,
    /// 2 down with Latin text upright.
    pub text_direction: u8,
    pub paragraphs: Vec<Paragraph>,
    pub field_name: Option<String>,
}

/// A table.
#[derive(Debug, Default)]
pub struct Table {
    pub row_count: u16,
    pub col_count: u16,
    pub cells: Vec<Cell>,
}

impl Cell {
    /// A cell at column `col`, row `row`, spanning one column and one row,
    /// of the given size and border fill, holding one empty paragraph.
    pub fn new_empty(col: u16, row: u16, width: u32, height: u32, border_fill_id: u16) -> (c: Cell)
        ensures
            c.col == col,
            c.row == row,
            c.col_span == 1,
            c.row_span == 1,
            c.width == width,
            c.height == height,
            c.border_fill_id == border_fill_id,
            c.text_direction == 0,
            c.field_name is None,
            c.paragraphs@.len() == 1,
            c.paragraphs@[0].text@.len() == 0,
            c.paragraphs@[0].controls@.len() == 0,
            c.paragraphs@[0].field_ranges@.len() == 0,
            c.paragraphs@[0].char_offsets@.len() == 0,
            c.paragraphs@[0].line_segs@.len() == 0,
            c.paragraphs@[0].ctrl_data_records@.len() == 0,
    {
        let p = Paragraph {
            text: String::new(),
            controls: Vec::new(),
            field_ranges: Vec::new(),
            char_offsets: Vec::new(),
            line_segs: Vec::new(),
            ctrl_data_records: Vec::new(),
        };
        let mut paragraphs: Vec<Paragraph> = Vec::new();
        paragraphs.push(p);
        Cell {
            col,
            row,
            col_span: 1,
            row_span: 1,
            width,
            height,
            border_fill_id,
            text_direction: 0,
            paragraphs,
            field_name: None,
        }
    }
}

} // verus!
