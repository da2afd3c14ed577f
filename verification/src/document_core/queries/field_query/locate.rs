//! Finding the paragraph at a field location, with an error that says
//! which step of the location leads nowhere.

use vstd::prelude::*;
use crate::document_core::{editor_state_unchanged, DocumentCore};
use crate::document_core::queries::field_query::{FieldLocation, NestedEntry};
use crate::document_core::queries::field_query::navigation::{
    doc_paras_replaced,
    loc_para,
    loc_para_mut,
    loc_para_ref,
    para_at_path,
    step,
};
use crate::error::HwpError;
use crate::json::{decimal, push_decimal};
use crate::model::document::Document;
use crate::model::control::Control;
use crate::model::paragraph::Paragraph;

verus! {

/// `경로[k]: ` followed by `what`, the decimal digits of `n` and `tail`.
pub open spec fn step_message(k: nat, what: Seq<char>, n: nat, tail: Seq<char>) -> Seq<char> {
    "경로["@ + decimal(k) + "]: "@ + what + decimal(n) + tail
}

/// `경로[k]: ` followed by `what`.
pub open spec fn step_message_plain(k: nat, what: Seq<char>) -> Seq<char> {
    "경로["@ + decimal(k) + "]: "@ + what
}

/// Why step `e`, the `k`-th of a path, leads nowhere from `p`: the first of
/// its indices that is out of range, or the control that is of another
/// kind or lacks a text box; `None` where the step leads to a paragraph.
pub open spec fn path_step_message(p: Paragraph, e: NestedEntry, k: nat) -> Option<Seq<char>> {
    match e {
        NestedEntry::TableCell { control_index: ci, cell_index: cj, para_index: pi } => {
            if ci >= p.controls@.len() {
                Some(step_message(k, "컨트롤 인덱스 "@, ci as nat, " 초과"@))
            } else {
                match p.controls@[ci as int] {
                    Control::Table(t) => if cj >= t.cells@.len() {
                        Some(step_message(k, "셀 인덱스 "@, cj as nat, " 초과"@))
                    } else if pi >= t.cells@[cj as int].paragraphs@.len() {
                        Some(step_message(k, "셀 문단 인덱스 "@, pi as nat, " 초과"@))
                    } else {
                        None
                    },
                    _ => Some(step_message(k, "controls["@, ci as nat, "]가 Table이 아님"@)),
                }
            }
        },
        NestedEntry::TextBox { control_index: ci, para_index: pi } => {
            if ci >= p.controls@.len() {
                Some(step_message(k, "컨트롤 인덱스 "@, ci as nat, " 초과"@))
            } else {
                match p.controls@[ci as int] {
                    Control::Shape(s) => match s.drawing_attr() {
                        Some(d) => match d.text_box {
                            Some(tb) => if pi >= tb.paragraphs@.len() {
                                Some(step_message(k, "글상자 문단 인덱스 "@, pi as nat, " 초과"@))
                            } else {
                                None
                            },
                            None => Some(step_message_plain(k, "Shape에 TextBox 없음"@)),
                        },
                        None => Some(step_message_plain(k, "Shape에 DrawingObjAttr 없음"@)),
                    },
                    _ => Some(step_message(k, "controls["@, ci as nat, "]가 Shape가 아님"@)),
                }
            }
        },
    }
}

/// Why `path`, whose first step is the `k`-th, leads nowhere from `p`: the
/// message of its first step that leads nowhere.
pub open spec fn path_message(p: Paragraph, path: Seq<NestedEntry>, k: nat) -> Option<Seq<char>>
    decreases path.len(),
{
    if path.len() == 0 {
        None
    } else {
        match path_step_message(p, path[0], k) {
            Some(m) => Some(m),
            None => match step(p, path[0]) {
                Some(q) => path_message(q, path.drop_first(), k + 1),
                None => None,
            },
        }
    }
}

/// Why (`si`, `pi`, `path`) leads nowhere in `doc`: the section index, the
/// paragraph index, or the first step of the path that leads nowhere.
pub open spec fn locate_message(doc: Document, si: int, pi: int, path: Seq<NestedEntry>) -> Seq<char> {
    if !(0 <= si < doc.sections@.len()) {
        "구역 인덱스 초과"@
    } else if !(0 <= pi < doc.sections@[si].paragraphs@.len()) {
        "문단 인덱스 초과"@
    } else {
        match path_message(doc.sections@[si].paragraphs@[pi], path, 0) {
            Some(m) => m,
            None => "문단 위치 초과"@,
        }
    }
}

/// `경로[i]: ` followed by `what`, the number `n` and `tail`.
pub(crate) fn step_msg(i: usize, what: &str, n: usize, tail: &str) -> (r: String)
    ensures
        r@ == step_message(i as nat, what@, n as nat, tail@),
{
    let mut m = String::from_str("경로[");
    push_decimal(&mut m, i as u64);
    m.append("]: ");
    m.append(what);
    push_decimal(&mut m, n as u64);
    m.append(tail);
    m
}

/// `경로[i]: ` followed by `what`.
pub(crate) fn step_msg_plain(i: usize, what: &str) -> (r: String)
    ensures
        r@ == step_message_plain(i as nat, what@),
{
    let mut m = String::from_str("경로[");
    push_decimal(&mut m, i as u64);
    m.append("]: ");
    m.append(what);
    m
}

/// Why `path` (from step `k` on) leads nowhere from `p`, or `None` where it
/// leads to a paragraph.
pub fn path_error(p: &Paragraph, path: &[NestedEntry], k: usize) -> (r: Option<String>)
    requires
        k <= path@.len(),
    ensures
        r is None <==> para_at_path(*p, path@.skip(k as int)) is Some,
        match r {
            Some(m) => path_message(*p, path@.skip(k as int), k as nat) == Some(m@),
            None => path_message(*p, path@.skip(k as int), k as nat) is None,
        },
    decreases path@.len() - k,
{
    if k == path.len() {
        return None;
    }
    assert(path@.skip(k as int).drop_first() =~= path@.skip(k + 1));
    assert(path@.skip(k as int)[0] == path@[k as int]);
    match path[k] {
        NestedEntry::TableCell { control_index, cell_index, para_index } => {
            if control_index >= p.controls.len() {
                return Some(step_msg(k, "컨트롤 인덱스 ", control_index, " 초과"));
            }
            match &p.controls[control_index] {
                Control::Table(t) => {
                    if cell_index >= t.cells.len() {
                        return Some(step_msg(k, "셀 인덱스 ", cell_index, " 초과"));
                    }
                    let cell = &t.cells[cell_index];
                    if para_index >= cell.paragraphs.len() {
                        return Some(step_msg(k, "셀 문단 인덱스 ", para_index, " 초과"));
                    }
                    path_error(&cell.paragraphs[para_index], path, k + 1)
                },
                _ => Some(step_msg(k, "controls[", control_index, "]가 Table이 아님")),
            }
        },
        NestedEntry::TextBox { control_index, para_index } => {
            if control_index >= p.controls.len() {
                return Some(step_msg(k, "컨트롤 인덱스 ", control_index, " 초과"));
            }
            match &p.controls[control_index] {
                Control::Shape(s) => match s.drawing() {
                    Some(d) => match &d.text_box {
                        Some(tb) => {
                            if para_index >= tb.paragraphs.len() {
                                return Some(
                                    step_msg(k, "글상자 문단 인덱스 ", para_index, " 초과"),
                                );
                            }
                            path_error(&tb.paragraphs[para_index], path, k + 1)
                        },
                        None => Some(step_msg_plain(k, "Shape에 TextBox 없음")),
                    },
                    None => Some(step_msg_plain(k, "Shape에 DrawingObjAttr 없음")),
                },
                _ => Some(step_msg(k, "controls[", control_index, "]가 Shape가 아님")),
            }
        },
    }
}

impl DocumentCore {
    /// The paragraph at section `si`, paragraph `pi`, then `path`, or an
    /// error that says which of them leads nowhere.
    pub fn locate_para(&self, si: usize, pi: usize, path: &[NestedEntry]) -> (r: Result<&Paragraph, HwpError>)
        ensures
            match r {
                Ok(p) => loc_para(self.document, si as int, pi as int, path@) == Some(*p),
                Err(HwpError::InvalidField(m)) => {
                    &&& loc_para(self.document, si as int, pi as int, path@) is None
                    &&& m@ == locate_message(self.document, si as int, pi as int, path@)
                },
                Err(_) => false,
            },
    {
        if si >= self.document.sections.len() {
            return Err(HwpError::InvalidField(String::from_str("구역 인덱스 초과")));
        }
        if pi >= self.document.sections[si].paragraphs.len() {
            return Err(HwpError::InvalidField(String::from_str("문단 인덱스 초과")));
        }
        let host = &self.document.sections[si].paragraphs[pi];
        assert(path@.skip(0) =~= path@);
        match path_error(host, path, 0) {
            Some(m) => Err(HwpError::InvalidField(m)),
            None => {
                match loc_para_ref(&self.document, si, pi, path) {
                    Some(p) => Ok(p),
                    None => Err(HwpError::InvalidField(String::from_str("문단 위치 초과"))),
                }
            },
        }
    }

    /// The paragraph at `location`, mutably, or an error that says which
    /// step of it leads nowhere (and nothing changes).
    pub fn get_para_mut_at_location(&mut self, location: &FieldLocation) -> (r: Result<&mut Paragraph, HwpError>)
        ensures
            match r {
                Ok(p) => {
                    &&& loc_para(
                        old(self).document,
                        location@.section_index as int,
                        location@.para_index as int,
                        location@.nested_path,
                    ) == Some(*p)
                    &&& doc_paras_replaced(
                        old(self).document,
                        final(self).document,
                        location@.section_index as int,
                        location@.para_index as int,
                        location@.nested_path,
                        *final(p),
                    )
                    &&& final(self).document.sections@[location@.section_index as int].raw_stream
                        == old(self).document.sections@[location@.section_index as int].raw_stream
                    &&& editor_state_unchanged(*old(self), *final(self))
                },
                Err(HwpError::InvalidField(m)) => {
                    &&& m@ == locate_message(
                        old(self).document,
                        location@.section_index as int,
                        location@.para_index as int,
                        location@.nested_path,
                    )
                    &&& loc_para(
                        old(self).document,
                        location@.section_index as int,
                        location@.para_index as int,
                        location@.nested_path,
                    ) is None
                    &&& *final(self) == *old(self)
                },
                Err(_) => false,
            },
    {
        match self.locate_para(location.section_index, location.para_index, location.nested_path.as_slice()) {
            Err(e) => Err(e),
            Ok(_) => Ok(
                loc_para_mut(
                    &mut self.document,
                    location.section_index,
                    location.para_index,
                    location.nested_path.as_slice(),
                ),
            ),
        }
    }
}

} // verus!
