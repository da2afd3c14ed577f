//! Setting the text of a field and removing a field, through the document.

use vstd::prelude::*;
use crate::document_core::{editor_state_unchanged, DocumentCore};
use crate::document_core::queries::field_query::{FieldLocation, NestedEntry};
use crate::document_core::queries::field_query::locate::{locate_message, step_message, step_msg};
use crate::document_core::queries::field_query::collect::range_value;
use crate::document_core::queries::field_query::edit::{
    adjusted_ranges,
    lemma_replaced_range_spans_value,
    range_editable,
    replace_range_text,
    spliced_text,
};
use crate::document_core::queries::field_query::field_removal_support::{ctrls_before_text, offsets_for};
use crate::document_core::queries::field_query::navigation::{
    clear_raw_stream,
    doc_paras_replaced,
    lemma_doc_replaced_reaches_leaf,
    lemma_para_at_path_push,
    loc_para,
    loc_para_mut,
};
use crate::document_core::queries::field_query::field_removal_support::rebuild_char_offsets;
use crate::model::control::Control;
use crate::encoding::chars_of;
use crate::error::HwpError;
use crate::json::{decimal, push_decimal};
use crate::model::paragraph::Paragraph;
use crate::model::document::Document;

verus! {

/// `new` is `old` with the text of field range `fri` of the paragraph at
/// (`si`, `pi`, `path`) replaced by `value` (see `replace_range_text`), and
/// the raw stream of section `si` dropped.
pub open spec fn field_text_replaced(
    old: Document,
    new: Document,
    si: int,
    pi: int,
    path: Seq<NestedEntry>,
    fri: int,
    value: Seq<char>,
) -> bool {
    match (loc_para(old, si, pi, path), loc_para(new, si, pi, path)) {
        (Some(p), Some(q)) => {
            let fr = p.field_ranges@[fri];
            let n = (fr.start_char_idx + value.len()) as usize;
            let text = spliced_text(p.text@, fr.start_char_idx as int, fr.end_char_idx as int, value);
            let ranges = adjusted_ranges(p.field_ranges@, fri, n);
            &&& doc_paras_replaced(old, new, si, pi, path, q)
            &&& new.sections@[si].raw_stream is None
            &&& q.text@ == text
            &&& q.field_ranges@ == ranges
            &&& q.char_offsets@ == offsets_for(text, ranges, ctrls_before_text(p))
            &&& q.controls == p.controls
            &&& q.line_segs == p.line_segs
            &&& q.ctrl_data_records == p.ctrl_data_records
        },
        _ => false,
    }
}

/// The path to the first paragraph of the table cell that the last step of
/// `path` enters, where that step enters a table cell.
pub open spec fn cell_value_path(path: Seq<NestedEntry>) -> Option<Seq<NestedEntry>> {
    if path.len() == 0 {
        None
    } else {
        match path.last() {
            NestedEntry::TableCell { control_index, cell_index, para_index: _ } => Some(
                path.drop_last().push(
                    NestedEntry::TableCell { control_index, cell_index, para_index: 0 },
                ),
            ),
            _ => None,
        }
    }
}

/// `new` is `old` with the text of the paragraph at (`si`, `pi`, `path`)
/// replaced by `value` and its character offsets rebuilt (the raw stream of
/// section `si` is stated apart).
pub open spec fn para_text_replaced(
    old: Document,
    new: Document,
    si: int,
    pi: int,
    path: Seq<NestedEntry>,
    value: Seq<char>,
) -> bool {
    match (loc_para(old, si, pi, path), loc_para(new, si, pi, path)) {
        (Some(p), Some(q)) => {
            &&& doc_paras_replaced(old, new, si, pi, path, q)
            &&& q.text@ == value
            &&& q.field_ranges == p.field_ranges
            &&& q.char_offsets@ == offsets_for(value, p.field_ranges@, ctrls_before_text(p))
            &&& q.controls == p.controls
            &&& q.line_segs == p.line_segs
            &&& q.ctrl_data_records == p.ctrl_data_records
        },
        _ => false,
    }
}

/// Why the text of field range `fri` of `p` cannot be replaced by a value of
/// `value_len` characters: the index is out of range, the range does not
/// lie inside the text, or the value would not fit.
pub open spec fn field_text_message(p: Paragraph, fri: int, value_len: nat) -> Seq<char> {
    if !(0 <= fri < p.field_ranges@.len()) {
        "field_range 인덱스 초과"@
    } else {
        let fr = p.field_ranges@[fri];
        if fr.start_char_idx > fr.end_char_idx || fr.end_char_idx > p.text@.len() {
            "field_range 범위가 유효하지 않음: start="@ + decimal(fr.start_char_idx as nat) + ", end="@
                + decimal(fr.end_char_idx as nat) + ", 텍스트 길이="@ + decimal(p.text@.len())
        } else {
            "필드 값이 너무 김"@
        }
    }
}

/// Why the value of the table cell that the last step of `path` enters
/// cannot be set: the path is empty, the section or paragraph is not
/// there, the steps before the last lead nowhere, the last step does not
/// enter a table cell, or the control, the cell or its first paragraph is
/// not there.
pub open spec fn cell_text_message(doc: Document, si: int, pi: int, path: Seq<NestedEntry>) -> Seq<char> {
    let k = (path.len() - 1) as nat;
    if path.len() == 0 {
        "셀 필드 위치에 중첩 경로 없음"@
    } else if !(0 <= si < doc.sections@.len()) {
        "구역 초과"@
    } else if !(0 <= pi < doc.sections@[si].paragraphs@.len()) {
        "문단 초과"@
    } else {
        match loc_para(doc, si, pi, path.drop_last()) {
            None => locate_message(doc, si, pi, path.drop_last()),
            Some(h) => match path.last() {
                NestedEntry::TableCell { control_index: ci, cell_index: cj, para_index: _ } => {
                    if ci >= h.controls@.len() {
                        step_message(k, "컨트롤 인덱스 "@, ci as nat, " 초과"@)
                    } else {
                        match h.controls@[ci as int] {
                            Control::Table(t) => if cj >= t.cells@.len() {
                                step_message(k, "셀 인덱스 "@, cj as nat, " 초과"@)
                            } else {
                                step_message(k, "셀 "@, cj as nat, "에 문단이 없어 값을 쓸 수 없음"@)
                            },
                            _ => step_message(k, "controls["@, ci as nat, "]가 Table이 아님"@),
                        }
                    }
                },
                _ => "셀 필드가 아닌 위치"@,
            },
        }
    }
}

/// What a read of a field gives back of a write: once the text of a field
/// range is replaced by `value`, the range at that location holds exactly
/// `value`.
pub proof fn lemma_field_text_reads_back(
    old: Document,
    new: Document,
    si: int,
    pi: int,
    path: Seq<NestedEntry>,
    fri: int,
    value: Seq<char>,
)
    requires
        loc_para(old, si, pi, path) matches Some(p) && 0 <= fri < p.field_ranges@.len() && range_editable(
            p.text@.len(),
            p.field_ranges@[fri],
            value.len(),
        ),
        field_text_replaced(old, new, si, pi, path, fri, value),
    ensures
        loc_para(new, si, pi, path) matches Some(q) && fri < q.field_ranges@.len() && range_value(
            q.text@,
            q.field_ranges@[fri],
        ) == value,
{
    let p = loc_para(old, si, pi, path)->0;
    let q = loc_para(new, si, pi, path)->0;
    lemma_replaced_range_spans_value(p.text@, p.field_ranges@, fri, value);
    let fr = q.field_ranges@[fri];
    if value.len() > 0 {
        assert(fr.end_char_idx <= q.text@.len());
    } else {
        assert(range_value(q.text@, fr) =~= value);
    }
}

impl DocumentCore {
    /// Replaces the text of field range `field_range_index` of the paragraph
    /// at `location` by `value`.
    ///
    /// Fails, changing nothing, where the location leads nowhere, the index
    /// is out of range, or the range does not lie inside the text (start
    /// after end, or end past the text) -- a range read from a damaged file.
    pub fn set_field_text_at(&mut self, location: &FieldLocation, field_range_index: usize, value: &str) -> (r: Result<(), HwpError>)
        ensures
            ({
                let si = location@.section_index as int;
                let pi = location@.para_index as int;
                let path = location@.nested_path;
                match loc_para(old(self).document, si, pi, path) {
                    None => {
                        &&& r matches Err(HwpError::InvalidField(m)) && m@ == locate_message(
                            old(self).document,
                            si,
                            pi,
                            path,
                        )
                        &&& *final(self) == *old(self)
                    },
                    Some(p) => if field_range_index < p.field_ranges@.len() && range_editable(
                        p.text@.len(),
                        p.field_ranges@[field_range_index as int],
                        value@.len(),
                    ) {
                        &&& r is Ok
                        &&& field_text_replaced(
                            old(self).document,
                            final(self).document,
                            si,
                            pi,
                            path,
                            field_range_index as int,
                            value@,
                        )
                        &&& editor_state_unchanged(*old(self), *final(self))
                    } else {
                        &&& r matches Err(HwpError::InvalidField(m)) && m@ == field_text_message(
                            p,
                            field_range_index as int,
                            value@.len(),
                        )
                        &&& *final(self) == *old(self)
                    },
                }
            }),
    {
        let si = location.section_index;
        let pi = location.para_index;
        let path = location.nested_path.as_slice();
        let (fr, text_len) = match self.locate_para(si, pi, path) {
            Err(e) => return Err(e),
            Ok(p) => {
                if field_range_index >= p.field_ranges.len() {
                    return Err(HwpError::InvalidField(String::from_str("field_range 인덱스 초과")));
                }
                (p.field_ranges[field_range_index], chars_of(p.text.as_str()).len())
            },
        };
        if fr.start_char_idx > fr.end_char_idx || fr.end_char_idx > text_len {
            let mut m = String::from_str("field_range 범위가 유효하지 않음: start=");
            push_decimal(&mut m, fr.start_char_idx as u64);
            m.append(", end=");
            push_decimal(&mut m, fr.end_char_idx as u64);
            m.append(", 텍스트 길이=");
            push_decimal(&mut m, text_len as u64);
            return Err(HwpError::InvalidField(m));
        }
        let value_len = chars_of(value).len();
        if value_len > usize::MAX - fr.start_char_idx {
            return Err(HwpError::InvalidField(String::from_str("필드 값이 너무 김")));
        }
        let ghost doc0 = self.document;
        clear_raw_stream(&mut self.document, si);
        assert(loc_para(self.document, si as int, pi as int, path@) == loc_para(doc0, si as int, pi as int, path@));
        let ghost doc1 = self.document;
        let para = loc_para_mut(&mut self.document, si, pi, path);
        replace_range_text(para, field_range_index, value);
        proof {
            lemma_doc_replaced_reaches_leaf(doc1, self.document, si as int, pi as int, path@, *para);
        }
        Ok(())
    }

    /// Sets the value of a table cell named as a field: the text of the
    /// first paragraph of the cell that the last step of `location` enters.
    ///
    /// Fails, changing nothing, where the location has no steps, its last
    /// step does not enter a table cell, or the cell or its first paragraph
    /// is not there.
    pub fn set_cell_field_text(&mut self, location: &FieldLocation, value: &str) -> (r: Result<(), HwpError>)
        ensures
            ({
                let si = location@.section_index as int;
                let pi = location@.para_index as int;
                match cell_value_path(location@.nested_path) {
                    Some(cp) if loc_para(old(self).document, si, pi, cp) is Some => {
                        &&& r is Ok
                        &&& para_text_replaced(old(self).document, final(self).document, si, pi, cp, value@)
                        &&& final(self).document.sections@[si].raw_stream == old(self).document.sections@[si].raw_stream
                        &&& editor_state_unchanged(*old(self), *final(self))
                    },
                    _ => {
                        &&& r matches Err(HwpError::InvalidField(m)) && m@ == cell_text_message(
                            old(self).document,
                            si,
                            pi,
                            location@.nested_path,
                        )
                        &&& *final(self) == *old(self)
                    },
                }
            }),
    {
        let n = location.nested_path.len();
        if n == 0 {
            return Err(HwpError::InvalidField(String::from_str("셀 필드 위치에 중첩 경로 없음")));
        }
        let si = location.section_index;
        let pi = location.para_index;
        if si >= self.document.sections.len() {
            return Err(HwpError::InvalidField(String::from_str("구역 초과")));
        }
        if pi >= self.document.sections[si].paragraphs.len() {
            return Err(HwpError::InvalidField(String::from_str("문단 초과")));
        }
        let mut host: Vec<NestedEntry> = Vec::new();
        let mut k: usize = 0;
        while k < n - 1
            invariant
                k <= n - 1,
                n == location.nested_path@.len(),
                host@ == location.nested_path@.subrange(0, k as int),
            decreases n - 1 - k,
        {
            host.push(location.nested_path[k]);
            k = k + 1;
            assert(host@ =~= location.nested_path@.subrange(0, k as int));
        }
        assert(host@ =~= location.nested_path@.drop_last());
        let last = location.nested_path[n - 1];
        let (ci, cj) = match self.locate_para(si, pi, host.as_slice()) {
            Err(e) => {
                proof {
                    assert(location.nested_path@.last() == last);
                    if si < self.document.sections@.len() && pi < self.document.sections@[si as int].paragraphs@.len() {
                        match last {
                            NestedEntry::TableCell { control_index, cell_index, para_index: _ } => {
                                lemma_para_at_path_push(
                                    self.document.sections@[si as int].paragraphs@[pi as int],
                                    host@,
                                    NestedEntry::TableCell { control_index, cell_index, para_index: 0 },
                                );
                            },
                            _ => {},
                        }
                    }
                }
                return Err(e);
            },
            Ok(h) => {
                match last {
                    NestedEntry::TableCell { control_index, cell_index, para_index: _ } => {
                        proof {
                            lemma_para_at_path_push(
                                self.document.sections@[si as int].paragraphs@[pi as int],
                                host@,
                                NestedEntry::TableCell { control_index, cell_index, para_index: 0 },
                            );
                            assert(location.nested_path@.last() == last);
                        }
                        if control_index >= h.controls.len() {
                            return Err(
                                HwpError::InvalidField(
                                    step_msg(n - 1, "컨트롤 인덱스 ", control_index, " 초과"),
                                ),
                            );
                        }
                        match &h.controls[control_index] {
                            Control::Table(t) => {
                                if cell_index >= t.cells.len() {
                                    return Err(
                                        HwpError::InvalidField(
                                            step_msg(n - 1, "셀 인덱스 ", cell_index, " 초과"),
                                        ),
                                    );
                                }
                                if t.cells[cell_index].paragraphs.len() == 0 {
                                    return Err(
                                        HwpError::InvalidField(
                                            step_msg(
                                                n - 1,
                                                "셀 ",
                                                cell_index,
                                                "에 문단이 없어 값을 쓸 수 없음",
                                            ),
                                        ),
                                    );
                                }
                            },
                            _ => {
                                return Err(
                                    HwpError::InvalidField(
                                        step_msg(n - 1, "controls[", control_index, "]가 Table이 아님"),
                                    ),
                                );
                            },
                        }
                        (control_index, cell_index)
                    },
                    _ => {
                        return Err(HwpError::InvalidField(String::from_str("셀 필드가 아닌 위치")));
                    },
                }
            },
        };
        let e = NestedEntry::TableCell { control_index: ci, cell_index: cj, para_index: 0 };
        let mut cp = host;
        cp.push(e);
        proof {
            lemma_para_at_path_push(self.document.sections@[si as int].paragraphs@[pi as int], host@, e);
        }
        let ghost doc0 = self.document;
        let para = loc_para_mut(&mut self.document, si, pi, cp.as_slice());
        let ghost p0 = *para;
        para.text = String::from_str(value);
        assert(ctrls_before_text(*para) == ctrls_before_text(p0));
        rebuild_char_offsets(para);
        proof {
            lemma_doc_replaced_reaches_leaf(doc0, self.document, si as int, pi as int, cp@, *para);
        }
        Ok(())
    }
}

} // verus!
