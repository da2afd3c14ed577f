//! What the editor asks of the paragraphs and cells of tables: the length
//! of a paragraph reached through table cells, and the text direction of a
//! cell.

use vstd::prelude::*;
use crate::document_core::DocumentCore;
use crate::document_core::queries::field_query::caret::table_path;
use crate::document_core::queries::field_query::locate::locate_message;
use crate::document_core::queries::field_query::navigation::loc_para;
use crate::encoding::chars_of;
use crate::error::HwpError;
use crate::model::control::Control;
use crate::model::document::Document;

verus! {

/// The text direction of cell `cell_idx` of control `control_idx` of
/// paragraph `pi` of section `si`: the cell's own where the control is a
/// table, 0 (across) for any other control or none; `Err` with the index
/// that is out of range otherwise.
pub open spec fn cell_text_direction(doc: Document, si: int, pi: int, control_idx: int, cell_idx: int) -> Result<
    u32,
    Seq<char>,
> {
    if !(0 <= si < doc.sections@.len()) {
        Err("구역 인덱스 범위 초과"@)
    } else if !(0 <= pi < doc.sections@[si].paragraphs@.len()) {
        Err("문단 인덱스 범위 초과"@)
    } else {
        let p = doc.sections@[si].paragraphs@[pi];
        if 0 <= control_idx < p.controls@.len() {
            match p.controls@[control_idx] {
                Control::Table(t) => if 0 <= cell_idx < t.cells@.len() {
                    Ok(t.cells@[cell_idx].text_direction as u32)
                } else {
                    Err("셀 인덱스 범위 초과"@)
                },
                _ => Ok(0),
            }
        } else {
            Ok(0)
        }
    }
}

impl DocumentCore {
    /// The number of characters of the paragraph reached from paragraph
    /// `parent_para_idx` of section `section_idx` through the table cells
    /// of `path` (modulo 2^32); fails where a step leads nowhere (see
    /// `resolve_paragraph_by_path`).
    pub fn get_cell_paragraph_length_by_path(
        &self,
        section_idx: usize,
        parent_para_idx: usize,
        path: &[(usize, usize, usize)],
    ) -> (r: Result<u32, HwpError>)
        ensures
            match loc_para(self.document, section_idx as int, parent_para_idx as int, table_path(path@)) {
                Some(p) => r == Ok::<u32, HwpError>(p.text@.len() as u32),
                None => r matches Err(HwpError::InvalidField(m)) && m@ == locate_message(
                    self.document,
                    section_idx as int,
                    parent_para_idx as int,
                    table_path(path@),
                ),
            },
    {
        match self.resolve_paragraph_by_path(section_idx, parent_para_idx, path) {
            Ok(p) => Ok(chars_of(p.text.as_str()).len() as u32),
            Err(e) => Err(e),
        }
    }

    /// The text direction of cell `cell_idx` of control `control_idx` of
    /// paragraph `parent_para_idx` of section `section_idx` (0 across, 1
    /// down with Latin text turned, 2 down with Latin text upright); a
    /// control that is not a table, or no control, reads as 0 (see
    /// `cell_text_direction`).
    pub fn get_cell_text_direction(
        &self,
        section_idx: usize,
        parent_para_idx: usize,
        control_idx: usize,
        cell_idx: usize,
    ) -> (r: Result<u32, HwpError>)
        ensures
            match cell_text_direction(
                self.document,
                section_idx as int,
                parent_para_idx as int,
                control_idx as int,
                cell_idx as int,
            ) {
                Ok(d) => r == Ok::<u32, HwpError>(d),
                Err(msg) => r matches Err(HwpError::InvalidField(m)) && m@ == msg,
            },
    {
        if section_idx >= self.document.sections.len() {
            return Err(HwpError::InvalidField(String::from_str("구역 인덱스 범위 초과")));
        }
        let sec = &self.document.sections[section_idx];
        if parent_para_idx >= sec.paragraphs.len() {
            return Err(HwpError::InvalidField(String::from_str("문단 인덱스 범위 초과")));
        }
        let para = &sec.paragraphs[parent_para_idx];
        if control_idx >= para.controls.len() {
            return Ok(0);
        }
        match &para.controls[control_idx] {
            Control::Table(t) => {
                if cell_idx >= t.cells.len() {
                    return Err(HwpError::InvalidField(String::from_str("셀 인덱스 범위 초과")));
                }
                Ok(t.cells[cell_idx].text_direction as u32)
            },
            _ => Ok(0),
        }
    }
}

} // verus!
