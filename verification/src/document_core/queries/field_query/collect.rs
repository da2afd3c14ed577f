//! Collecting the fields of paragraphs, recursively through table cells
//! and text boxes.

use vstd::prelude::*;
use crate::document_core::queries::field_query::{FieldInfo, FieldInfoView, FieldLocation, LocationView, NestedEntry, infos_view};
use crate::document_core::queries::field_query::virtual_cell_id::{virtual_cell_field_id, virtual_id};
use crate::model::control::{Control, Field, FieldType, FieldView};
use crate::model::document::Document;
use crate::model::paragraph::{FieldRange, Paragraph};
use crate::model::shape::TextBox;
use crate::model::table::{Cell, Table};
use crate::text::{chars_slice, string_of_chars};
use crate::encoding::chars_of;

verus! {

/// The text inside a field range: empty unless `start < end <= text.len()`.
pub open spec fn range_value(text: Seq<char>, fr: FieldRange) -> Seq<char> {
    if fr.start_char_idx < fr.end_char_idx && fr.end_char_idx <= text.len() {
        text.subrange(fr.start_char_idx as int, fr.end_char_idx as int)
    } else {
        Seq::empty()
    }
}

/// `loc` extended by one step.
pub open spec fn child_loc(loc: LocationView, e: NestedEntry) -> LocationView {
    LocationView { nested_path: loc.nested_path.push(e), ..loc }
}

/// The fields of the first `n` field ranges of `p` whose control is a field.
pub open spec fn range_infos(p: Paragraph, loc: LocationView, n: int) -> Seq<FieldInfoView>
    decreases n,
{
    if n <= 0 || n > p.field_ranges@.len() {
        Seq::empty()
    } else {
        let prev = range_infos(p, loc, n - 1);
        let fr = p.field_ranges@[n - 1];
        if fr.control_idx < p.controls@.len() {
            match p.controls@[fr.control_idx as int] {
                Control::Field(f) => prev.push(
                    FieldInfoView {
                        field: f@,
                        location: loc,
                        value: range_value(p.text@, fr),
                        field_range_index: (n - 1) as usize,
                        is_virtual_cell_field: false,
                    },
                ),
                _ => prev,
            }
        } else {
            prev
        }
    }
}

/// The fields of `p`: those of its own field ranges, then those inside its
/// controls, in control order.
pub open spec fn para_infos(p: Paragraph, loc: LocationView) -> Seq<FieldInfoView>
    decreases p, p.controls@.len() + 1,
{
    range_infos(p, loc, p.field_ranges@.len() as int) + controls_infos(p, loc, p.controls@.len() as int)
}

/// The fields inside the first `n` controls of `p`.
pub open spec fn controls_infos(p: Paragraph, loc: LocationView, n: int) -> Seq<FieldInfoView>
    decreases p, n,
{
    if n <= 0 || n > p.controls@.len() {
        Seq::empty()
    } else {
        controls_infos(p, loc, n - 1) + control_infos(p.controls@[n - 1], (n - 1) as usize, loc)
    }
}

/// The fields inside control number `ci`: in a table, cell by cell; in a
/// text box, paragraph by paragraph.
pub open spec fn control_infos(c: Control, ci: usize, loc: LocationView) -> Seq<FieldInfoView>
    decreases c, 0int,
{
    match c {
        Control::Table(t) => cells_infos(*t, ci, loc, t.cells@.len() as int),
        Control::Shape(s) => match s.drawing_attr() {
            Some(d) => match d.text_box {
                Some(tb) => tb_infos(tb, ci, loc, tb.paragraphs@.len() as int),
                None => Seq::empty(),
            },
            None => Seq::empty(),
        },
        _ => Seq::empty(),
    }
}

/// The fields of the first `n` cells of a table.
pub open spec fn cells_infos(t: Table, ci: usize, loc: LocationView, n: int) -> Seq<FieldInfoView>
    decreases t, n,
{
    if n <= 0 || n > t.cells@.len() {
        Seq::empty()
    } else {
        cells_infos(t, ci, loc, n - 1) + cell_infos(t.cells@[n - 1], ci, (n - 1) as usize, loc)
    }
}

/// The virtual field of a named cell at `loc` (the location of the cell's
/// first paragraph): a click-here field with the cell's name, whose value is
/// the text of the cell's first paragraph.
pub open spec fn virtual_info(cell: Cell, name: Seq<char>, loc: LocationView) -> FieldInfoView {
    FieldInfoView {
        field: FieldView {
            field_type: FieldType::ClickHere,
            command: Seq::empty(),
            properties: 0,
            extra_properties: 0,
            field_id: virtual_id(loc),
            ctrl_id: 0,
            ctrl_data_name: Some(name),
            memo_index: 0,
        },
        location: loc,
        value: if cell.paragraphs@.len() > 0 { cell.paragraphs@[0].text@ } else { Seq::empty() },
        field_range_index: 0,
        is_virtual_cell_field: true,
    }
}

/// The fields of cell `cj` of table control `ci`: its own virtual field if
/// the cell is named, then those of its paragraphs.
pub open spec fn cell_infos(cell: Cell, ci: usize, cj: usize, loc: LocationView) -> Seq<FieldInfoView>
    decreases cell, cell.paragraphs@.len() + 1,
{
    let own = match cell.field_name {
        Some(name) => seq![
            virtual_info(
                cell,
                name@,
                child_loc(loc, NestedEntry::TableCell { control_index: ci, cell_index: cj, para_index: 0 }),
            ),
        ],
        None => Seq::empty(),
    };
    own + cell_paras_infos(cell, ci, cj, loc, cell.paragraphs@.len() as int)
}

/// The fields of the first `n` paragraphs of a cell.
pub open spec fn cell_paras_infos(cell: Cell, ci: usize, cj: usize, loc: LocationView, n: int) -> Seq<FieldInfoView>
    decreases cell, n,
{
    if n <= 0 || n > cell.paragraphs@.len() {
        Seq::empty()
    } else {
        cell_paras_infos(cell, ci, cj, loc, n - 1) + para_infos(
            cell.paragraphs@[n - 1],
            child_loc(loc, NestedEntry::TableCell { control_index: ci, cell_index: cj, para_index: (n - 1) as usize }),
        )
    }
}

/// The fields of the first `n` paragraphs of a text box.
pub open spec fn tb_infos(tb: TextBox, ci: usize, loc: LocationView, n: int) -> Seq<FieldInfoView>
    decreases tb, n,
{
    if n <= 0 || n > tb.paragraphs@.len() {
        Seq::empty()
    } else {
        tb_infos(tb, ci, loc, n - 1) + para_infos(
            tb.paragraphs@[n - 1],
            child_loc(loc, NestedEntry::TextBox { control_index: ci, para_index: (n - 1) as usize }),
        )
    }
}

/// The fields of the first `n` paragraphs of section `si`.
pub open spec fn section_infos(doc: Document, si: int, n: int) -> Seq<FieldInfoView>
    decreases n,
{
    if n <= 0 || si < 0 || si >= doc.sections@.len() || n > doc.sections@[si].paragraphs@.len() {
        Seq::empty()
    } else {
        section_infos(doc, si, n - 1) + para_infos(
            doc.sections@[si].paragraphs@[n - 1],
            LocationView { section_index: si as usize, para_index: (n - 1) as usize, nested_path: Seq::empty() },
        )
    }
}

/// The fields of the first `n` sections, in document order, with the
/// proposed IDs of virtual cell fields.
pub open spec fn doc_infos_upto(doc: Document, n: int) -> Seq<FieldInfoView>
    decreases n,
{
    if n <= 0 || n > doc.sections@.len() {
        Seq::empty()
    } else {
        doc_infos_upto(doc, n - 1) + section_infos(doc, n - 1, doc.sections@[n - 1].paragraphs@.len() as int)
    }
}

/// Every field of the document, in document order, with the proposed IDs
/// of virtual cell fields.
pub open spec fn doc_infos(doc: Document) -> Seq<FieldInfoView> {
    doc_infos_upto(doc, doc.sections@.len() as int)
}

proof fn lemma_push_view(v: Seq<FieldInfo>, x: FieldInfo)
    ensures
        infos_view(v.push(x)) == infos_view(v).push(x@),
{
    assert(infos_view(v.push(x)) =~= infos_view(v).push(x@));
}

/// The text inside a field range.
fn range_text(chars: &Vec<char>, fr: FieldRange) -> (r: String)
    ensures
        r@ == range_value(chars@, fr),
{
    if fr.start_char_idx < fr.end_char_idx && fr.end_char_idx <= chars.len() {
        let v = chars_slice(chars, fr.start_char_idx, fr.end_char_idx);
        string_of_chars(&v)
    } else {
        String::new()
    }
}

/// Appends the fields of `para` (at `base_location`) to `result`: those of
/// its field ranges, then, recursively, those in its tables and text boxes.
pub fn collect_fields_from_paragraph(para: &Paragraph, base_location: &FieldLocation, result: &mut Vec<FieldInfo>)
    ensures
        infos_view(final(result)@) == infos_view(old(result)@) + para_infos(*para, base_location@),
    decreases para, para.controls@.len() + 1,
{
    let chars = chars_of(para.text.as_str());
    let mut fri: usize = 0;
    while fri < para.field_ranges.len()
        invariant
            fri <= para.field_ranges@.len(),
            chars@ == para.text@,
            infos_view(result@) == infos_view(old(result)@) + range_infos(*para, base_location@, fri as int),
        decreases para.field_ranges@.len() - fri,
    {
        let fr = para.field_ranges[fri];
        if fr.control_idx < para.controls.len() {
            match &para.controls[fr.control_idx] {
                Control::Field(field) => {
                    let info = FieldInfo {
                        field: field.duplicate(),
                        location: base_location.duplicate(),
                        value: range_text(&chars, fr),
                        field_range_index: fri,
                        is_virtual_cell_field: false,
                    };
                    proof {
                        lemma_push_view(result@, info);
                    }
                    result.push(info);
                },
                _ => {},
            }
        }
        fri = fri + 1;
    }
    let mut ci: usize = 0;
    while ci < para.controls.len()
        invariant
            ci <= para.controls@.len(),
            infos_view(result@) == infos_view(old(result)@) + range_infos(*para, base_location@, para.field_ranges@.len() as int)
                + controls_infos(*para, base_location@, ci as int),
        decreases para.controls@.len() - ci,
    {
        collect_fields_from_control(&para.controls[ci], ci, base_location, result);
        ci = ci + 1;
        assert(infos_view(result@) =~= infos_view(old(result)@) + range_infos(*para, base_location@, para.field_ranges@.len() as int)
                + controls_infos(*para, base_location@, ci as int));
    }
    assert(infos_view(result@) =~= infos_view(old(result)@) + para_infos(*para, base_location@));
}

/// Appends the fields inside control number `ci`.
#[verifier::loop_isolation(false)]
fn collect_fields_from_control(c: &Control, ci: usize, loc: &FieldLocation, result: &mut Vec<FieldInfo>)
    ensures
        infos_view(final(result)@) == infos_view(old(result)@) + control_infos(*c, ci, loc@),
    decreases c, 0int,
{
    match c {
        Control::Table(t) => {
            let mut cj: usize = 0;
            while cj < t.cells.len()
                invariant
                    cj <= t.cells@.len(),
                    infos_view(result@) == infos_view(old(result)@) + cells_infos(**t, ci, loc@, cj as int),
                decreases t.cells@.len() - cj,
            {
                collect_fields_from_cell(&t.cells[cj], ci, cj, loc, result);
                cj = cj + 1;
                assert(infos_view(result@) =~= infos_view(old(result)@) + cells_infos(**t, ci, loc@, cj as int));
            }
        },
        Control::Shape(s) => {
            match s.drawing() {
                Some(d) => match &d.text_box {
                    Some(tb) => {
                        let mut k: usize = 0;
                        while k < tb.paragraphs.len()
                            invariant
                                k <= tb.paragraphs@.len(),
                                infos_view(result@) == infos_view(old(result)@) + tb_infos(*tb, ci, loc@, k as int),
                            decreases tb.paragraphs@.len() - k,
                        {
                            let child = loc.child(NestedEntry::TextBox { control_index: ci, para_index: k });
                            collect_fields_from_paragraph(&tb.paragraphs[k], &child, result);
                            k = k + 1;
                            assert(infos_view(result@) =~= infos_view(old(result)@) + tb_infos(*tb, ci, loc@, k as int));
                        }
                    },
                    None => {
                        assert(infos_view(result@) =~= infos_view(old(result)@) + control_infos(*c, ci, loc@));
                    },
                },
                None => {
                    assert(infos_view(result@) =~= infos_view(old(result)@) + control_infos(*c, ci, loc@));
                },
            }
        },
        _ => {
            assert(infos_view(result@) =~= infos_view(old(result)@) + control_infos(*c, ci, loc@));
        },
    }
}

/// Appends the fields of cell `cj` of table control `ci`.
fn collect_fields_from_cell(cell: &Cell, ci: usize, cj: usize, loc: &FieldLocation, result: &mut Vec<FieldInfo>)
    ensures
        infos_view(final(result)@) == infos_view(old(result)@) + cell_infos(*cell, ci, cj, loc@),
    decreases cell, cell.paragraphs@.len() + 1,
{
    match &cell.field_name {
        Some(fname) => {
            let vloc = loc.child(NestedEntry::TableCell { control_index: ci, cell_index: cj, para_index: 0 });
            let id = virtual_cell_field_id(&vloc);
            let value = if cell.paragraphs.len() > 0 { cell.paragraphs[0].text.clone() } else { String::new() };
            let info = FieldInfo {
                field: Field {
                    field_type: FieldType::ClickHere,
                    command: String::new(),
                    properties: 0,
                    extra_properties: 0,
                    field_id: id,
                    ctrl_id: 0,
                    ctrl_data_name: Some(fname.clone()),
                    memo_index: 0,
                },
                location: vloc,
                value,
                field_range_index: 0,
                is_virtual_cell_field: true,
            };
            proof {
                lemma_push_view(result@, info);
            }
            result.push(info);
        },
        None => {},
    }
    let ghost mid = infos_view(result@);
    let mut k: usize = 0;
    while k < cell.paragraphs.len()
        invariant
            k <= cell.paragraphs@.len(),
            infos_view(result@) == mid + cell_paras_infos(*cell, ci, cj, loc@, k as int),
        decreases cell.paragraphs@.len() - k,
    {
        let child = loc.child(NestedEntry::TableCell { control_index: ci, cell_index: cj, para_index: k });
        collect_fields_from_paragraph(&cell.paragraphs[k], &child, result);
        k = k + 1;
        assert(infos_view(result@) =~= mid + cell_paras_infos(*cell, ci, cj, loc@, k as int));
    }
    assert(infos_view(result@) =~= infos_view(old(result)@) + cell_infos(*cell, ci, cj, loc@));
}

} // verus!
