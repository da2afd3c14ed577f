//! What lies at a caret position: the click-here field holding it, as JSON
//! for the editor, and the active field the editor draws without its guide
//! text.

use vstd::prelude::*;
use crate::document_core::{active_field_is, active_view, ActiveFieldInfo, ActiveFieldView, DocumentCore};
use crate::document_core::queries::field_query::NestedEntry;
use crate::document_core::queries::field_query::field_removal_support::{
    find_field_ctrl_idx_in_para,
    caret_in_click_here,
    find_hit,
    first_hit,
    lemma_caret_hit_is_click_here,
    lemma_first_hit_from,
};
use crate::document_core::queries::field_query::lookup::or_empty;
use crate::document_core::queries::field_query::locate::locate_message;
use crate::document_core::queries::field_query::navigation::{loc_para, loc_para_ref};
use crate::error::HwpError;
use crate::json::{decimal, json_string, push_decimal, push_json_string};
use crate::model::control::{field_type_name, guide_of, Control, FieldType};
use crate::model::document::Document;
use crate::model::paragraph::Paragraph;

verus! {

/// The control index of the click-here field holding caret position `off`
/// in `p` (the first such field range).
pub open spec fn hit_ctrl(p: Paragraph, off: usize) -> Option<usize> {
    match first_hit(p, off) {
        Some(k) => Some(p.field_ranges@[k].control_idx),
        None => None,
    }
}

/// What the editor is told of the caret names only click-here fields: a
/// control reported under the caret is a field of kind click-here, and
/// where no click-here field range holds the position the caret is
/// reported in no field.
pub proof fn lemma_caret_reports_click_here_only(p: Paragraph, off: usize)
    ensures
        hit_ctrl(p, off) matches Some(ci) ==> {
            &&& ci < p.controls@.len()
            &&& p.controls@[ci as int] is Field
            &&& p.controls@[ci as int]->Field_0.field_type == FieldType::ClickHere
        },
        (forall|m: int| 0 <= m < p.field_ranges@.len() ==> !caret_in_click_here(p, m, off)) ==> {
            &&& hit_ctrl(p, off) is None
            &&& field_info_json(p, off) == "{\"inField\":false}"@
        },
{
    lemma_caret_hit_is_click_here(p, off);
}

/// `"true"` or `"false"`.
pub open spec fn bool_json(b: bool) -> Seq<char> {
    if b { "true"@ } else { "false"@ }
}

/// What the editor is told of caret position `off` in `p`: the click-here
/// field holding it (ID, kind, range, whether it shows its guide text, the
/// guide text), or that the caret is in no field.
pub open spec fn field_info_json(p: Paragraph, off: usize) -> Seq<char> {
    match first_hit(p, off) {
        Some(k) => {
            let fr = p.field_ranges@[k];
            let f = p.controls@[fr.control_idx as int]->Field_0;
            "{\"inField\":true,\"fieldId\":"@ + decimal(f.field_id as nat) + ",\"fieldType\":\""@
                + field_type_name(f.field_type) + "\",\"startCharIdx\":"@ + decimal(
                fr.start_char_idx as nat,
            ) + ",\"endCharIdx\":"@ + decimal(fr.end_char_idx as nat) + ",\"isGuide\":"@ + bool_json(
                fr.start_char_idx == fr.end_char_idx,
            ) + ",\"guideName\":"@ + json_string(or_empty(guide_of(f.command@))) + "}"@
        },
        None => "{\"inField\":false}"@,
    }
}

/// What the editor is told where the caret's paragraph is not there.
pub open spec fn not_in_field_json() -> Seq<char> {
    "{\"inField\":false}"@
}

/// The answer for the paragraph found (or not) at a location.
pub open spec fn info_json_at(p: Option<Paragraph>, off: usize) -> Seq<char> {
    match p {
        Some(q) => field_info_json(q, off),
        None => not_in_field_json(),
    }
}

/// The steps of a path of (control, cell, paragraph) triples through
/// table cells.
pub open spec fn table_path(path: Seq<(usize, usize, usize)>) -> Seq<NestedEntry> {
    Seq::new(
        path.len(),
        |k: int| NestedEntry::TableCell { control_index: path[k].0, cell_index: path[k].1, para_index: path[k].2 },
    )
}

/// The step into paragraph `cpi` of the text box of control `ci` where
/// `is_textbox`, else of cell `cj` of that table.
pub open spec fn in_cell_entry(ci: usize, cj: usize, cpi: usize, is_textbox: bool) -> NestedEntry {
    if is_textbox {
        NestedEntry::TextBox { control_index: ci, para_index: cpi }
    } else {
        NestedEntry::TableCell { control_index: ci, cell_index: cj, para_index: cpi }
    }
}

/// `new` is `old` with `view` made the active field and the render cache
/// marked stale.
pub open spec fn active_set(old: DocumentCore, new: DocumentCore, view: ActiveFieldView) -> bool {
    &&& active_view(new.active_field) == Some(view)
    &&& new.document == old.document
    &&& !new.page_tree_cache_valid
    &&& new.sections_to_recompose == old.sections_to_recompose
}

/// The field, if any, that a caret position makes active: the click-here
/// field at `off` in the paragraph found (or not) at a location.
pub open spec fn caret_hit(p: Option<Paragraph>, off: usize) -> Option<usize> {
    match p {
        Some(q) => hit_ctrl(q, off),
        None => None,
    }
}

/// The active-field record for control `ci`, at section `si` and
/// paragraph `pi`, reached through `cell_path`.
pub open spec fn active_record(si: usize, pi: usize, ci: usize, cell_path: Option<Seq<(usize, usize, usize)>>) -> ActiveFieldView {
    ActiveFieldView { section_idx: si, para_idx: pi, control_idx: ci, cell_path }
}

/// A copy of a (control, cell, paragraph) path.
fn copy_path(path: &[(usize, usize, usize)]) -> (r: Vec<(usize, usize, usize)>)
    ensures
        r@ == path@,
{
    let mut r: Vec<(usize, usize, usize)> = Vec::new();
    let mut k: usize = 0;
    while k < path.len()
        invariant
            k <= path@.len(),
            r@ == path@.subrange(0, k as int),
        decreases path@.len() - k,
    {
        r.push(path[k]);
        k = k + 1;
        assert(r@ =~= path@.subrange(0, k as int));
    }
    assert(path@.subrange(0, path@.len() as int) =~= path@);
    r
}

/// What the editor is told of caret position `off` in `para` (see
/// `field_info_json`).
pub fn field_info_at_in_para(para: &Paragraph, char_offset: usize) -> (r: String)
    ensures
        r@ == field_info_json(*para, char_offset),
{
    match find_hit(para, char_offset) {
        None => String::from_str("{\"inField\":false}"),
        Some(k) => {
            proof {
                lemma_first_hit_from(*para, char_offset, 0);
            }
            let fr = para.field_ranges[k];
            match &para.controls[fr.control_idx] {
                Control::Field(field) => {
                    proof {
                        reveal_strlit("");
                    }
                    let mut out = String::from_str("{\"inField\":true,\"fieldId\":");
                    push_decimal(&mut out, field.field_id as u64);
                    out.append(",\"fieldType\":\"");
                    out.append(field.field_type_str());
                    out.append("\",\"startCharIdx\":");
                    push_decimal(&mut out, fr.start_char_idx as u64);
                    out.append(",\"endCharIdx\":");
                    push_decimal(&mut out, fr.end_char_idx as u64);
                    out.append(",\"isGuide\":");
                    if fr.start_char_idx == fr.end_char_idx {
                        out.append("true");
                    } else {
                        out.append("false");
                    }
                    out.append(",\"guideName\":");
                    let ghost o1 = out@;
                    match field.guide_text() {
                        Some(g) => push_json_string(&mut out, g),
                        None => push_json_string(&mut out, ""),
                    }
                    assert(out@ == o1 + json_string(or_empty(guide_of(field.command@))));
                    out.append("}");
                    assert(out@ =~= field_info_json(*para, char_offset));
                    out
                },
                _ => {
                    vstd::pervasive::unreached()
                },
            }
        },
    }
}

/// The steps of a path of (control, cell, paragraph) triples.
fn table_path_entries(path: &[(usize, usize, usize)]) -> (r: Vec<NestedEntry>)
    ensures
        r@ == table_path(path@),
{
    let mut r: Vec<NestedEntry> = Vec::new();
    let mut k: usize = 0;
    while k < path.len()
        invariant
            k <= path@.len(),
            r@ == table_path(path@.subrange(0, k as int)),
        decreases path@.len() - k,
    {
        let (ci, cj, cpi) = path[k];
        r.push(NestedEntry::TableCell { control_index: ci, cell_index: cj, para_index: cpi });
        k = k + 1;
        assert(r@ =~= table_path(path@.subrange(0, k as int)));
    }
    assert(path@.subrange(0, path@.len() as int) =~= path@);
    r
}

/// The paragraph reached by one step from paragraph `pi` of section `si`.
fn para_in_cell(doc: &Document, si: usize, pi: usize, e: NestedEntry) -> (r: Option<&Paragraph>)
    ensures
        match r {
            Some(p) => loc_para(*doc, si as int, pi as int, seq![e]) == Some(*p),
            None => loc_para(*doc, si as int, pi as int, seq![e]) is None,
        },
{
    let mut path: Vec<NestedEntry> = Vec::new();
    path.push(e);
    assert(path@ =~= seq![e]);
    loc_para_ref(doc, si, pi, path.as_slice())
}

impl DocumentCore {
    /// The paragraph reached from paragraph `parent_para_idx` of section
    /// `section_idx` through the table cells of `path`, each a (control,
    /// cell, paragraph) triple.
    ///
    /// Fails where a step leads nowhere.
    pub fn resolve_paragraph_by_path(
        &self,
        section_idx: usize,
        parent_para_idx: usize,
        path: &[(usize, usize, usize)],
    ) -> (r: Result<&Paragraph, HwpError>)
        ensures
            match r {
                Ok(p) => loc_para(self.document, section_idx as int, parent_para_idx as int, table_path(path@))
                    == Some(*p),
                Err(HwpError::InvalidField(m)) => {
                    &&& loc_para(
                        self.document,
                        section_idx as int,
                        parent_para_idx as int,
                        table_path(path@),
                    ) is None
                    &&& m@ == locate_message(
                        self.document,
                        section_idx as int,
                        parent_para_idx as int,
                        table_path(path@),
                    )
                },
                Err(_) => false,
            },
    {
        let entries = table_path_entries(path);
        self.locate_para(section_idx, parent_para_idx, entries.as_slice())
    }

    /// The control index of the click-here field at caret position
    /// `char_offset` of paragraph `para_idx` of section `section_idx`.
    pub fn find_field_control_idx(
        &self,
        section_idx: usize,
        para_idx: usize,
        char_offset: usize,
        _cell_path: Option<(usize, usize, usize)>,
    ) -> (r: Option<usize>)
        ensures
            r == match loc_para(self.document, section_idx as int, para_idx as int, Seq::empty()) {
                Some(p) => hit_ctrl(p, char_offset),
                None => None,
            },
    {
        if section_idx >= self.document.sections.len() || para_idx
            >= self.document.sections[section_idx].paragraphs.len() {
            return None;
        }
        find_field_ctrl_idx_in_para(&self.document.sections[section_idx].paragraphs[para_idx], char_offset)
    }

    /// The control index of the click-here field at caret position
    /// `char_offset` of a paragraph inside control `control_idx` of
    /// paragraph `parent_para_idx` (see `in_cell_entry`).
    pub fn find_field_control_idx_in_cell(
        &self,
        section_idx: usize,
        parent_para_idx: usize,
        control_idx: usize,
        cell_idx: usize,
        cell_para_idx: usize,
        char_offset: usize,
        is_textbox: bool,
    ) -> (r: Option<usize>)
        ensures
            r == match loc_para(
                self.document,
                section_idx as int,
                parent_para_idx as int,
                seq![in_cell_entry(control_idx, cell_idx, cell_para_idx, is_textbox)],
            ) {
                Some(p) => hit_ctrl(p, char_offset),
                None => None,
            },
    {
        let e = if is_textbox {
            NestedEntry::TextBox { control_index: control_idx, para_index: cell_para_idx }
        } else {
            NestedEntry::TableCell { control_index: control_idx, cell_index: cell_idx, para_index: cell_para_idx }
        };
        match para_in_cell(&self.document, section_idx, parent_para_idx, e) {
            Some(p) => find_field_ctrl_idx_in_para(p, char_offset),
            None => None,
        }
    }

    /// What the editor is told of caret position `char_offset` of paragraph
    /// `para_idx` of section `section_idx`.
    pub fn get_field_info_at(&self, section_idx: usize, para_idx: usize, char_offset: usize) -> (r: String)
        ensures
            r@ == info_json_at(
                loc_para(self.document, section_idx as int, para_idx as int, Seq::empty()),
                char_offset,
            ),
    {
        if section_idx >= self.document.sections.len() || para_idx
            >= self.document.sections[section_idx].paragraphs.len() {
            return String::from_str("{\"inField\":false}");
        }
        field_info_at_in_para(&self.document.sections[section_idx].paragraphs[para_idx], char_offset)
    }

    /// What the editor is told of caret position `char_offset` of a
    /// paragraph inside control `control_idx` of paragraph
    /// `parent_para_idx` (see `in_cell_entry`).
    pub fn get_field_info_at_in_cell(
        &self,
        section_idx: usize,
        parent_para_idx: usize,
        control_idx: usize,
        cell_idx: usize,
        cell_para_idx: usize,
        char_offset: usize,
        is_textbox: bool,
    ) -> (r: String)
        ensures
            r@ == info_json_at(
                loc_para(
                    self.document,
                    section_idx as int,
                    parent_para_idx as int,
                    seq![in_cell_entry(control_idx, cell_idx, cell_para_idx, is_textbox)],
                ),
                char_offset,
            ),
    {
        let e = if is_textbox {
            NestedEntry::TextBox { control_index: control_idx, para_index: cell_para_idx }
        } else {
            NestedEntry::TableCell { control_index: control_idx, cell_index: cell_idx, para_index: cell_para_idx }
        };
        match para_in_cell(&self.document, section_idx, parent_para_idx, e) {
            Some(p) => field_info_at_in_para(p, char_offset),
            None => String::from_str("{\"inField\":false}"),
        }
    }

    /// What the editor is told of caret position `char_offset` of the
    /// paragraph reached through the table cells of `path`.
    pub fn get_field_info_at_by_path(
        &self,
        section_idx: usize,
        parent_para_idx: usize,
        path: &[(usize, usize, usize)],
        char_offset: usize,
    ) -> (r: String)
        ensures
            r@ == info_json_at(
                loc_para(self.document, section_idx as int, parent_para_idx as int, table_path(path@)),
                char_offset,
            ),
    {
        match self.resolve_paragraph_by_path(section_idx, parent_para_idx, path) {
            Ok(p) => field_info_at_in_para(p, char_offset),
            Err(_) => String::from_str("{\"inField\":false}"),
        }
    }

    /// Makes `info` the active field where it is not already, marking the
    /// render cache stale; tells whether anything changed.
    fn activate(&mut self, info: ActiveFieldInfo) -> (r: bool)
        ensures
            if active_view(old(self).active_field) != Some(info@) {
                r && active_set(*old(self), *final(self), info@)
            } else {
                !r && *final(self) == *old(self)
            },
    {
        if active_field_is(&self.active_field, &info) {
            return false;
        }
        self.active_field = Some(info);
        self.invalidate_page_tree_cache();
        true
    }

    /// Makes the click-here field at caret position `char_offset` of
    /// paragraph `para_idx` of section `section_idx` the active field;
    /// tells whether the active field changed.
    pub fn set_active_field(&mut self, section_idx: usize, para_idx: usize, char_offset: usize) -> (r: bool)
        ensures
            match caret_hit(
                loc_para(old(self).document, section_idx as int, para_idx as int, Seq::empty()),
                char_offset,
            ) {
                Some(ci) if active_view(old(self).active_field) != Some(
                    active_record(section_idx, para_idx, ci, None),
                ) => r && active_set(*old(self), *final(self), active_record(section_idx, para_idx, ci, None)),
                _ => !r && *final(self) == *old(self),
            },
    {
        match self.find_field_control_idx(section_idx, para_idx, char_offset, None) {
            Some(ci) => {
                let info = ActiveFieldInfo { section_idx, para_idx, control_idx: ci, cell_path: None };
                self.activate(info)
            },
            None => false,
        }
    }

    /// Makes the click-here field at caret position `char_offset` of a
    /// paragraph inside control `control_idx` of paragraph
    /// `parent_para_idx` (see `in_cell_entry`) the active field, recorded
    /// with the cell paragraph's index and the one-step cell path; tells
    /// whether the active field changed.
    pub fn set_active_field_in_cell(
        &mut self,
        section_idx: usize,
        parent_para_idx: usize,
        control_idx: usize,
        cell_idx: usize,
        cell_para_idx: usize,
        char_offset: usize,
        is_textbox: bool,
    ) -> (r: bool)
        ensures
            ({
                let path = seq![in_cell_entry(control_idx, cell_idx, cell_para_idx, is_textbox)];
                let cp = Some(seq![(control_idx, cell_idx, cell_para_idx)]);
                match caret_hit(
                    loc_para(old(self).document, section_idx as int, parent_para_idx as int, path),
                    char_offset,
                ) {
                    Some(ci) if active_view(old(self).active_field) != Some(
                        active_record(section_idx, cell_para_idx, ci, cp),
                    ) => r && active_set(*old(self), *final(self), active_record(section_idx, cell_para_idx, ci, cp)),
                    _ => !r && *final(self) == *old(self),
                }
            }),
    {
        match self.find_field_control_idx_in_cell(
            section_idx,
            parent_para_idx,
            control_idx,
            cell_idx,
            cell_para_idx,
            char_offset,
            is_textbox,
        ) {
            Some(ci) => {
                let mut cell_path: Vec<(usize, usize, usize)> = Vec::new();
                cell_path.push((control_idx, cell_idx, cell_para_idx));
                assert(cell_path@ =~= seq![(control_idx, cell_idx, cell_para_idx)]);
                let info = ActiveFieldInfo {
                    section_idx,
                    para_idx: cell_para_idx,
                    control_idx: ci,
                    cell_path: Some(cell_path),
                };
                self.activate(info)
            },
            None => false,
        }
    }

    /// Makes the click-here field at caret position `char_offset` of the
    /// paragraph reached through the table cells of `path` the active
    /// field, recorded with the last cell paragraph's index and the whole
    /// path; tells whether the active field changed.
    pub fn set_active_field_by_path(
        &mut self,
        section_idx: usize,
        parent_para_idx: usize,
        path: &[(usize, usize, usize)],
        char_offset: usize,
    ) -> (r: bool)
        requires
            path@.len() > 0 || caret_hit(
                loc_para(old(self).document, section_idx as int, parent_para_idx as int, Seq::empty()),
                char_offset,
            ) is None,
        ensures
            ({
                let cp = Some(path@);
                match caret_hit(
                    loc_para(old(self).document, section_idx as int, parent_para_idx as int, table_path(path@)),
                    char_offset,
                ) {
                    Some(ci) if active_view(old(self).active_field) != Some(
                        active_record(section_idx, path@.last().2, ci, cp),
                    ) => r && active_set(*old(self), *final(self), active_record(section_idx, path@.last().2, ci, cp)),
                    _ => !r && *final(self) == *old(self),
                }
            }),
    {
        let ci = match self.resolve_paragraph_by_path(section_idx, parent_para_idx, path) {
            Ok(p) => find_field_ctrl_idx_in_para(p, char_offset),
            Err(_) => None,
        };
        match ci {
            Some(ci) => {
                proof {
                    if path@.len() == 0 {
                        assert(table_path(path@) =~= Seq::<NestedEntry>::empty());
                    }
                }
                let last = path[path.len() - 1];
                let info = ActiveFieldInfo {
                    section_idx,
                    para_idx: last.2,
                    control_idx: ci,
                    cell_path: Some(copy_path(path)),
                };
                self.activate(info)
            },
            None => false,
        }
    }

    /// Leaves no field active, marking the render cache stale where one
    /// was.
    pub fn clear_active_field(&mut self)
        ensures
            final(self).active_field is None,
            final(self).document == old(self).document,
            final(self).sections_to_recompose == old(self).sections_to_recompose,
            final(self).page_tree_cache_valid == (old(self).page_tree_cache_valid && old(self).active_field is None),
    {
        if self.active_field.is_some() {
            self.active_field = None;
            self.invalidate_page_tree_cache();
        }
    }
}

} // verus!
