//! Removing the click-here field at a caret position: its range goes, its
//! text stays.

use vstd::prelude::*;
use crate::document_core::DocumentCore;
use crate::document_core::queries::field_query::NestedEntry;
use crate::document_core::queries::field_query::field_removal_support::{
    find_hit,
    first_hit,
    no_field_at_caret_message,
    remove_field_in_para,
};
use crate::document_core::queries::field_query::navigation::{
    clear_raw_stream,
    doc_paras_replaced,
    lemma_doc_replaced_reaches_leaf,
    lemma_para_at_path_push,
    loc_para,
    loc_para_mut,
    para_at_path,
    step,
};
use crate::document_core::queries::field_query::set_value::section_recomposed;
use crate::error::HwpError;
use crate::model::control::Control;
use crate::model::document::Document;
use crate::model::paragraph::Paragraph;

verus! {

/// `new` is `old` with the click-here field at caret position `off` of the
/// paragraph at (`si`, `pi`, `path`) removed: its range leaves the list,
/// all else in the paragraph stays; the raw stream of section `si` is
/// dropped.
pub open spec fn field_removed(
    old: Document,
    new: Document,
    si: int,
    pi: int,
    path: Seq<NestedEntry>,
    off: usize,
) -> bool {
    match (loc_para(old, si, pi, path), loc_para(new, si, pi, path)) {
        (Some(p), Some(q)) => match first_hit(p, off) {
            Some(k) => {
                &&& doc_paras_replaced(old, new, si, pi, path, q)
                &&& new.sections@[si].raw_stream is None
                &&& q.field_ranges@ == p.field_ranges@.remove(k)
                &&& q.text == p.text
                &&& q.controls == p.controls
                &&& q.char_offsets == p.char_offsets
                &&& q.line_segs == p.line_segs
                &&& q.ctrl_data_records == p.ctrl_data_records
            },
            None => false,
        },
        _ => false,
    }
}

/// The step into a table cell's paragraph or, for a text box, into its
/// paragraph.
pub open spec fn cell_entry(ci: usize, cj: usize, cpi: usize, is_textbox: bool) -> NestedEntry {
    if is_textbox {
        NestedEntry::TextBox { control_index: ci, para_index: cpi }
    } else {
        NestedEntry::TableCell { control_index: ci, cell_index: cj, para_index: cpi }
    }
}

/// Why step `e` leads nowhere from `host`: the first index out of range,
/// or the control that is of another kind or lacks a text box; `None`
/// where the step leads to a paragraph.
pub open spec fn entry_message(host: Paragraph, e: NestedEntry) -> Option<Seq<char>> {
    match e {
        NestedEntry::TableCell { control_index: ci, cell_index: cj, para_index: pi } => {
            if ci >= host.controls@.len() {
                Some("컨트롤 인덱스 초과"@)
            } else {
                match host.controls@[ci as int] {
                    Control::Table(t) => if cj >= t.cells@.len() {
                        Some("셀 인덱스 초과"@)
                    } else if pi >= t.cells@[cj as int].paragraphs@.len() {
                        Some("셀 문단 인덱스 초과"@)
                    } else {
                        None
                    },
                    _ => Some("예상된 Table 컨트롤이 아님"@),
                }
            }
        },
        NestedEntry::TextBox { control_index: ci, para_index: pi } => {
            if ci >= host.controls@.len() {
                Some("컨트롤 인덱스 초과"@)
            } else {
                match host.controls@[ci as int] {
                    Control::Shape(s) => match s.drawing_attr() {
                        Some(d) => match d.text_box {
                            Some(tb) => if pi >= tb.paragraphs@.len() {
                                Some("글상자 문단 인덱스 초과"@)
                            } else {
                                None
                            },
                            None => Some("Shape에 TextBox 없음"@),
                        },
                        None => Some("Shape에 DrawingObjAttr 없음"@),
                    },
                    _ => Some("예상된 Shape 컨트롤이 아님"@),
                }
            }
        },
    }
}

/// Why the paragraph one step `e` away from paragraph `pi` of section `si`
/// is not there: the host paragraph is missing, or the step leads nowhere
/// (see `entry_message`).
pub open spec fn cell_remove_message(doc: Document, si: int, pi: int, e: NestedEntry) -> Seq<char> {
    if 0 <= si < doc.sections@.len() && 0 <= pi < doc.sections@[si].paragraphs@.len() {
        match entry_message(doc.sections@[si].paragraphs@[pi], e) {
            Some(m) => m,
            None => Seq::empty(),
        }
    } else {
        "호스트 문단 위치 초과"@
    }
}

/// Why step `e` leads nowhere from `host` (see `entry_message`), or `None`
/// where it leads to a paragraph.
fn step_error(host: &Paragraph, e: NestedEntry) -> (r: Option<String>)
    ensures
        r is None <==> step(*host, e) is Some,
        match r {
            Some(m) => entry_message(*host, e) == Some(m@),
            None => entry_message(*host, e) is None,
        },
{
    match e {
        NestedEntry::TableCell { control_index, cell_index, para_index } => {
            if control_index >= host.controls.len() {
                return Some(String::from_str("컨트롤 인덱스 초과"));
            }
            match &host.controls[control_index] {
                Control::Table(t) => {
                    if cell_index >= t.cells.len() {
                        return Some(String::from_str("셀 인덱스 초과"));
                    }
                    if para_index >= t.cells[cell_index].paragraphs.len() {
                        return Some(String::from_str("셀 문단 인덱스 초과"));
                    }
                    None
                },
                _ => Some(String::from_str("예상된 Table 컨트롤이 아님")),
            }
        },
        NestedEntry::TextBox { control_index, para_index } => {
            if control_index >= host.controls.len() {
                return Some(String::from_str("컨트롤 인덱스 초과"));
            }
            match &host.controls[control_index] {
                Control::Shape(s) => match s.drawing() {
                    Some(d) => match &d.text_box {
                        Some(tb) => {
                            if para_index >= tb.paragraphs.len() {
                                return Some(String::from_str("글상자 문단 인덱스 초과"));
                            }
                            None
                        },
                        None => Some(String::from_str("Shape에 TextBox 없음")),
                    },
                    None => Some(String::from_str("Shape에 DrawingObjAttr 없음")),
                },
                _ => Some(String::from_str("예상된 Shape 컨트롤이 아님")),
            }
        },
    }
}

impl DocumentCore {
    /// Removes the click-here field at caret position `off` of the
    /// paragraph at (`si`, `pi`, `path`), whose hit is known to be there.
    fn remove_located_field(&mut self, si: usize, pi: usize, path: &[NestedEntry], off: usize)
        requires
            loc_para(old(self).document, si as int, pi as int, path@) matches Some(p) && first_hit(p, off)
                is Some,
        ensures
            field_removed(old(self).document, final(self).document, si as int, pi as int, path@, off),
            section_recomposed(*old(self), *final(self), si),
    {
        let ghost d0 = self.document;
        clear_raw_stream(&mut self.document, si);
        assert(loc_para(self.document, si as int, pi as int, path@) == loc_para(d0, si as int, pi as int, path@));
        let ghost d1 = self.document;
        let para = loc_para_mut(&mut self.document, si, pi, path);
        // The hit is known to be there, so the removal succeeds.
        let _ = remove_field_in_para(para, off);
        proof {
            lemma_doc_replaced_reaches_leaf(d1, self.document, si as int, pi as int, path@, *para);
        }
        self.recompose_section(si);
    }

    /// Removes the click-here field at caret position `char_offset` of
    /// paragraph `para_idx` of section `section_idx` (its text stays) and
    /// answers `{"ok":true}`.
    ///
    /// Fails, changing nothing, where the paragraph is not there or no
    /// click-here field holds the position.
    pub fn remove_field_at(&mut self, section_idx: usize, para_idx: usize, char_offset: usize) -> (r: Result<String, HwpError>)
        ensures
            match loc_para(old(self).document, section_idx as int, para_idx as int, Seq::empty()) {
                Some(p) if first_hit(p, char_offset) is Some => {
                    &&& r matches Ok(s) && s@ == "{\"ok\":true}"@
                    &&& field_removed(
                        old(self).document,
                        final(self).document,
                        section_idx as int,
                        para_idx as int,
                        Seq::empty(),
                        char_offset,
                    )
                    &&& section_recomposed(*old(self), *final(self), section_idx)
                },
                Some(_) => r matches Err(HwpError::InvalidField(m)) && m@ == no_field_at_caret_message()
                    && *final(self) == *old(self),
                None => r matches Err(HwpError::InvalidField(m)) && m@ == "문단 위치 초과"@ && *final(self)
                    == *old(self),
            },
    {
        let path: Vec<NestedEntry> = Vec::new();
        if section_idx >= self.document.sections.len() || para_idx
            >= self.document.sections[section_idx].paragraphs.len() {
            return Err(HwpError::InvalidField(String::from_str("문단 위치 초과")));
        }
        assert(path@ =~= Seq::<NestedEntry>::empty());
        match find_hit(&self.document.sections[section_idx].paragraphs[para_idx], char_offset) {
            None => {
                return Err(HwpError::InvalidField(String::from_str("커서 위치에 누름틀 필드 없음")));
            },
            Some(_) => {},
        }
        self.remove_located_field(section_idx, para_idx, path.as_slice(), char_offset);
        Ok(String::from_str("{\"ok\":true}"))
    }

    /// Removes the click-here field at caret position `char_offset` of a
    /// paragraph inside a control of paragraph `parent_para_idx`: paragraph
    /// `cell_para_idx` of the text box of control `control_idx` where
    /// `is_textbox`, else of cell `cell_idx` of that table; answers
    /// `{"ok":true}`.
    ///
    /// Fails, changing nothing, where that paragraph is not there or no
    /// click-here field holds the position.
    pub fn remove_field_at_in_cell(
        &mut self,
        section_idx: usize,
        parent_para_idx: usize,
        control_idx: usize,
        cell_idx: usize,
        cell_para_idx: usize,
        char_offset: usize,
        is_textbox: bool,
    ) -> (r: Result<String, HwpError>)
        ensures
            ({
                let path = seq![cell_entry(control_idx, cell_idx, cell_para_idx, is_textbox)];
                match loc_para(old(self).document, section_idx as int, parent_para_idx as int, path) {
                    Some(p) if first_hit(p, char_offset) is Some => {
                        &&& r matches Ok(s) && s@ == "{\"ok\":true}"@
                        &&& field_removed(
                            old(self).document,
                            final(self).document,
                            section_idx as int,
                            parent_para_idx as int,
                            path,
                            char_offset,
                        )
                        &&& section_recomposed(*old(self), *final(self), section_idx)
                    },
                    Some(_) => r matches Err(HwpError::InvalidField(m)) && m@ == no_field_at_caret_message()
                        && *final(self) == *old(self),
                    None => {
                        &&& r matches Err(HwpError::InvalidField(m)) && m@ == cell_remove_message(
                            old(self).document,
                            section_idx as int,
                            parent_para_idx as int,
                            cell_entry(control_idx, cell_idx, cell_para_idx, is_textbox),
                        )
                        &&& *final(self) == *old(self)
                    },
                }
            }),
    {
        let e = if is_textbox {
            NestedEntry::TextBox { control_index: control_idx, para_index: cell_para_idx }
        } else {
            NestedEntry::TableCell { control_index: control_idx, cell_index: cell_idx, para_index: cell_para_idx }
        };
        let mut path: Vec<NestedEntry> = Vec::new();
        path.push(e);
        assert(path@ =~= seq![cell_entry(control_idx, cell_idx, cell_para_idx, is_textbox)]);
        if section_idx >= self.document.sections.len() || parent_para_idx
            >= self.document.sections[section_idx].paragraphs.len() {
            return Err(HwpError::InvalidField(String::from_str("호스트 문단 위치 초과")));
        }
        let host = &self.document.sections[section_idx].paragraphs[parent_para_idx];
        proof {
            lemma_para_at_path_push(*host, Seq::empty(), e);
            assert(Seq::<NestedEntry>::empty().push(e) =~= path@);
            assert(para_at_path(*host, Seq::<NestedEntry>::empty()) == Some(*host));
        }
        match step_error(host, e) {
            Some(m) => return Err(HwpError::InvalidField(m)),
            None => {},
        }
        let hit = match e {
            NestedEntry::TableCell { control_index, cell_index, para_index } => match &host.controls[control_index] {
                Control::Table(t) => find_hit(&t.cells[cell_index].paragraphs[para_index], char_offset),
                _ => None,
            },
            NestedEntry::TextBox { control_index, para_index } => match &host.controls[control_index] {
                Control::Shape(s) => match s.drawing() {
                    Some(d) => match &d.text_box {
                        Some(tb) => find_hit(&tb.paragraphs[para_index], char_offset),
                        None => None,
                    },
                    None => None,
                },
                _ => None,
            },
        };
        if hit.is_none() {
            return Err(HwpError::InvalidField(String::from_str("커서 위치에 누름틀 필드 없음")));
        }
        self.remove_located_field(section_idx, parent_para_idx, path.as_slice(), char_offset);
        Ok(String::from_str("{\"ok\":true}"))
    }
}

} // verus!
