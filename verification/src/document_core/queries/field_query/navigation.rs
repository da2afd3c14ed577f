//! The paragraph at a location inside a document, nested tables and text
//! boxes included, read-only and mutably.

use vstd::prelude::*;
use crate::document_core::queries::field_query::NestedEntry;
use crate::model::control::Control;
use crate::model::document::Document;
use crate::model::paragraph::Paragraph;
use crate::model::shape::ShapeObject;
use crate::model::table::Cell;

verus! {

/// The paragraph reached from `p` by one step, if the step leads anywhere.
pub open spec fn step(p: Paragraph, e: NestedEntry) -> Option<Paragraph> {
    match e {
        NestedEntry::TableCell { control_index: ci, cell_index: cj, para_index: pi } => {
            if ci < p.controls@.len() {
                match p.controls@[ci as int] {
                    Control::Table(t) => {
                        if cj < t.cells@.len() && pi < t.cells@[cj as int].paragraphs@.len() {
                            Some(t.cells@[cj as int].paragraphs@[pi as int])
                        } else {
                            None
                        }
                    },
                    _ => None,
                }
            } else {
                None
            }
        },
        NestedEntry::TextBox { control_index: ci, para_index: pi } => {
            if ci < p.controls@.len() {
                match p.controls@[ci as int] {
                    Control::Shape(s) => match s.drawing_attr() {
                        Some(d) => match d.text_box {
                            Some(tb) => if pi < tb.paragraphs@.len() {
                                Some(tb.paragraphs@[pi as int])
                            } else {
                                None
                            },
                            None => None,
                        },
                        None => None,
                    },
                    _ => None,
                }
            } else {
                None
            }
        },
    }
}

/// The paragraph reached from `p` along `path`.
pub open spec fn para_at_path(p: Paragraph, path: Seq<NestedEntry>) -> Option<Paragraph>
    decreases path.len(),
{
    if path.len() == 0 {
        Some(p)
    } else {
        match step(p, path[0]) {
            Some(q) => para_at_path(q, path.drop_first()),
            None => None,
        }
    }
}

/// Following a path and then one more step.
pub proof fn lemma_para_at_path_push(p: Paragraph, path: Seq<NestedEntry>, e: NestedEntry)
    ensures
        para_at_path(p, path.push(e)) == match para_at_path(p, path) {
            Some(q) => step(q, e),
            None => None,
        },
    decreases path.len(),
{
    if path.len() == 0 {
        assert(path.push(e).drop_first() =~= Seq::<NestedEntry>::empty());
        assert(path.push(e)[0] == e);
        match step(p, e) {
            Some(q) => {
                assert(para_at_path(q, Seq::<NestedEntry>::empty()) == Some(q));
            },
            None => {},
        }
    } else {
        assert(path.push(e).drop_first() =~= path.drop_first().push(e));
        assert(path.push(e)[0] == path[0]);
        match step(p, path[0]) {
            Some(q) => lemma_para_at_path_push(q, path.drop_first(), e),
            None => {},
        }
    }
}

/// `b` agrees with `a` in every field but `controls`.
pub open spec fn para_same_but_controls(a: Paragraph, b: Paragraph) -> bool {
    &&& b.text == a.text
    &&& b.field_ranges == a.field_ranges
    &&& b.char_offsets == a.char_offsets
    &&& b.line_segs == a.line_segs
    &&& b.ctrl_data_records == a.ctrl_data_records
    &&& b.controls@.len() == a.controls@.len()
}

/// `b` agrees with `a` at every index but `i`, and has its length.
pub open spec fn seq_same_but<T>(a: Seq<T>, b: Seq<T>, i: int) -> bool {
    &&& b.len() == a.len()
    &&& forall|k: int| 0 <= k < a.len() && k != i ==> #[trigger] b[k] == a[k]
}

/// `new` is `old` with the paragraph at `path` replaced by `leaf`, and
/// nothing else changed.
pub open spec fn replaced_at_path(old: Paragraph, new: Paragraph, path: Seq<NestedEntry>, leaf: Paragraph) -> bool
    decreases path.len(),
{
    if path.len() == 0 {
        new == leaf
    } else {
        &&& para_same_but_controls(old, new)
        &&& match path[0] {
            NestedEntry::TableCell { control_index: ci, cell_index: cj, para_index: pi } => {
                &&& ci < old.controls@.len()
                &&& seq_same_but(old.controls@, new.controls@, ci as int)
                &&& match (old.controls@[ci as int], new.controls@[ci as int]) {
                    (Control::Table(ot), Control::Table(nt)) => {
                        &&& nt.row_count == ot.row_count
                        &&& nt.col_count == ot.col_count
                        &&& cj < ot.cells@.len()
                        &&& seq_same_but(ot.cells@, nt.cells@, cj as int)
                        &&& cell_same_but_paragraphs(ot.cells@[cj as int], nt.cells@[cj as int])
                        &&& pi < ot.cells@[cj as int].paragraphs@.len()
                        &&& seq_same_but(ot.cells@[cj as int].paragraphs@, nt.cells@[cj as int].paragraphs@, pi as int)
                        &&& replaced_at_path(
                            ot.cells@[cj as int].paragraphs@[pi as int],
                            nt.cells@[cj as int].paragraphs@[pi as int],
                            path.drop_first(),
                            leaf,
                        )
                    },
                    _ => false,
                }
            },
            NestedEntry::TextBox { control_index: ci, para_index: pi } => {
                &&& ci < old.controls@.len()
                &&& seq_same_but(old.controls@, new.controls@, ci as int)
                &&& match (old.controls@[ci as int], new.controls@[ci as int]) {
                    (Control::Shape(os), Control::Shape(ns)) => match (os.drawing_attr(), ns.drawing_attr()) {
                        (Some(od), Some(nd)) => match (od.text_box, nd.text_box) {
                            (Some(otb), Some(ntb)) => {
                                &&& pi < otb.paragraphs@.len()
                                &&& seq_same_but(otb.paragraphs@, ntb.paragraphs@, pi as int)
                                &&& replaced_at_path(
                                    otb.paragraphs@[pi as int],
                                    ntb.paragraphs@[pi as int],
                                    path.drop_first(),
                                    leaf,
                                )
                            },
                            _ => false,
                        },
                        _ => false,
                    },
                    _ => false,
                }
            },
        }
    }
}

/// The paragraph that replaced the one at `path` is the one found there.
pub proof fn lemma_replaced_reaches_leaf(old: Paragraph, new: Paragraph, path: Seq<NestedEntry>, leaf: Paragraph)
    requires
        replaced_at_path(old, new, path, leaf),
    ensures
        para_at_path(new, path) == Some(leaf),
    decreases path.len(),
{
    if path.len() > 0 {
        match path[0] {
            NestedEntry::TableCell { control_index: ci, cell_index: cj, para_index: pi } => {
                match (old.controls@[ci as int], new.controls@[ci as int]) {
                    (Control::Table(ot), Control::Table(nt)) => {
                        lemma_replaced_reaches_leaf(
                            ot.cells@[cj as int].paragraphs@[pi as int],
                            nt.cells@[cj as int].paragraphs@[pi as int],
                            path.drop_first(),
                            leaf,
                        );
                    },
                    _ => {},
                }
            },
            NestedEntry::TextBox { control_index: ci, para_index: pi } => {
                match (old.controls@[ci as int], new.controls@[ci as int]) {
                    (Control::Shape(os), Control::Shape(ns)) => match (os.drawing_attr(), ns.drawing_attr()) {
                        (Some(od), Some(nd)) => match (od.text_box, nd.text_box) {
                            (Some(otb), Some(ntb)) => {
                                lemma_replaced_reaches_leaf(
                                    otb.paragraphs@[pi as int],
                                    ntb.paragraphs@[pi as int],
                                    path.drop_first(),
                                    leaf,
                                );
                            },
                            _ => {},
                        },
                        _ => {},
                    },
                    _ => {},
                }
            },
        }
    }
}

/// `b` agrees with `a` in every field but `paragraphs`.
pub open spec fn cell_same_but_paragraphs(a: Cell, b: Cell) -> bool {
    &&& b.col == a.col
    &&& b.row == a.row
    &&& b.col_span == a.col_span
    &&& b.row_span == a.row_span
    &&& b.width == a.width
    &&& b.height == a.height
    &&& b.border_fill_id == a.border_fill_id
    &&& b.text_direction == a.text_direction
    &&& b.field_name == a.field_name
    &&& b.paragraphs@.len() == a.paragraphs@.len()
}

/// Whether `path` leads anywhere from `p`.
pub fn path_exists(p: &Paragraph, path: &[NestedEntry], k: usize) -> (b: bool)
    requires
        k <= path@.len(),
    ensures
        b == para_at_path(*p, path@.skip(k as int)) is Some,
    decreases path@.len() - k,
{
    if k == path.len() {
        return true;
    }
    assert(path@.skip(k as int).drop_first() =~= path@.skip(k + 1));
    match path[k] {
        NestedEntry::TableCell { control_index, cell_index, para_index } => {
            if control_index >= p.controls.len() {
                return false;
            }
            match &p.controls[control_index] {
                Control::Table(t) => {
                    if cell_index >= t.cells.len() {
                        return false;
                    }
                    let cell = &t.cells[cell_index];
                    if para_index >= cell.paragraphs.len() {
                        return false;
                    }
                    path_exists(&cell.paragraphs[para_index], path, k + 1)
                },
                _ => false,
            }
        },
        NestedEntry::TextBox { control_index, para_index } => {
            if control_index >= p.controls.len() {
                return false;
            }
            match &p.controls[control_index] {
                Control::Shape(s) => match s.drawing() {
                    Some(d) => match &d.text_box {
                        Some(tb) => {
                            if para_index >= tb.paragraphs.len() {
                                return false;
                            }
                            path_exists(&tb.paragraphs[para_index], path, k + 1)
                        },
                        None => false,
                    },
                    None => false,
                },
                _ => false,
            }
        },
    }
}

/// The paragraph at `path` (from position `k`) under `p`, mutably.
pub fn para_at_path_mut<'a>(p: &'a mut Paragraph, path: &[NestedEntry], k: usize) -> (r: &'a mut Paragraph)
    requires
        k <= path@.len(),
        para_at_path(*old(p), path@.skip(k as int)) is Some,
    ensures
        para_at_path(*old(p), path@.skip(k as int)) == Some(*r),
        replaced_at_path(*old(p), *final(p), path@.skip(k as int), *final(r)),
    decreases path@.len() - k,
{
    if k == path.len() {
        return p;
    }
    assert(path@.skip(k as int).drop_first() =~= path@.skip(k + 1));
    match path[k] {
        NestedEntry::TableCell { control_index, cell_index, para_index } => {
            match &mut p.controls[control_index] {
                Control::Table(t) => {
                    let cell = &mut t.cells[cell_index];
                    let q = &mut cell.paragraphs[para_index];
                    para_at_path_mut(q, path, k + 1)
                },
                _ => {
                    vstd::pervasive::unreached()
                },
            }
        },
        NestedEntry::TextBox { control_index, para_index } => {
            match &mut p.controls[control_index] {
                Control::Shape(s) => match &mut **s {
                    ShapeObject::Drawing(d) => match &mut d.text_box {
                        Some(tb) => {
                            let q = &mut tb.paragraphs[para_index];
                            para_at_path_mut(q, path, k + 1)
                        },
                        None => {
                            vstd::pervasive::unreached()
                        },
                    },
                    ShapeObject::Picture(_) => {
                        vstd::pervasive::unreached()
                    },
                },
                _ => {
                    vstd::pervasive::unreached()
                },
            }
        },
    }
}

/// The paragraph of `doc` at section `si`, paragraph `pi`, then `path`.
pub open spec fn loc_para(doc: Document, si: int, pi: int, path: Seq<NestedEntry>) -> Option<Paragraph> {
    if 0 <= si < doc.sections@.len() && 0 <= pi < doc.sections@[si].paragraphs@.len() {
        para_at_path(doc.sections@[si].paragraphs@[pi], path)
    } else {
        None
    }
}

/// `new` is `old` with the paragraph at (`si`, `pi`, `path`) replaced by
/// `leaf`: every other section is unchanged, and in section `si` every
/// other paragraph (its raw stream is stated apart).
pub open spec fn doc_paras_replaced(
    old: Document,
    new: Document,
    si: int,
    pi: int,
    path: Seq<NestedEntry>,
    leaf: Paragraph,
) -> bool {
    &&& new.doc_info == old.doc_info
    &&& new.bin_data_content == old.bin_data_content
    &&& 0 <= si < old.sections@.len()
    &&& seq_same_but(old.sections@, new.sections@, si)
    &&& 0 <= pi < old.sections@[si].paragraphs@.len()
    &&& seq_same_but(old.sections@[si].paragraphs@, new.sections@[si].paragraphs@, pi)
    &&& replaced_at_path(old.sections@[si].paragraphs@[pi], new.sections@[si].paragraphs@[pi], path, leaf)
}

/// In a document where the paragraph at (`si`, `pi`, `path`) was replaced,
/// that location holds the new paragraph.
pub proof fn lemma_doc_replaced_reaches_leaf(
    old: Document,
    new: Document,
    si: int,
    pi: int,
    path: Seq<NestedEntry>,
    leaf: Paragraph,
)
    requires
        doc_paras_replaced(old, new, si, pi, path, leaf),
    ensures
        loc_para(new, si, pi, path) == Some(leaf),
{
    lemma_replaced_reaches_leaf(
        old.sections@[si].paragraphs@[pi],
        new.sections@[si].paragraphs@[pi],
        path,
        leaf,
    );
}

/// The paragraph at (`si`, `pi`, `path`), if there is one.
pub fn loc_para_ref<'a>(doc: &'a Document, si: usize, pi: usize, path: &[NestedEntry]) -> (r: Option<&'a Paragraph>)
    ensures
        match r {
            Some(p) => loc_para(*doc, si as int, pi as int, path@) == Some(*p),
            None => loc_para(*doc, si as int, pi as int, path@) is None,
        },
{
    if si >= doc.sections.len() || pi >= doc.sections[si].paragraphs.len() {
        return None;
    }
    assert(path@.skip(0) =~= path@);
    para_at_path_ref(&doc.sections[si].paragraphs[pi], path, 0)
}

/// The paragraph at `path` (from position `k`) under `p`, if there is one.
pub fn para_at_path_ref<'a>(p: &'a Paragraph, path: &[NestedEntry], k: usize) -> (r: Option<&'a Paragraph>)
    requires
        k <= path@.len(),
    ensures
        match r {
            Some(q) => para_at_path(*p, path@.skip(k as int)) == Some(*q),
            None => para_at_path(*p, path@.skip(k as int)) is None,
        },
    decreases path@.len() - k,
{
    if k == path.len() {
        return Some(p);
    }
    assert(path@.skip(k as int).drop_first() =~= path@.skip(k + 1));
    match path[k] {
        NestedEntry::TableCell { control_index, cell_index, para_index } => {
            if control_index >= p.controls.len() {
                return None;
            }
            match &p.controls[control_index] {
                Control::Table(t) => {
                    if cell_index >= t.cells.len() {
                        return None;
                    }
                    let cell = &t.cells[cell_index];
                    if para_index >= cell.paragraphs.len() {
                        return None;
                    }
                    para_at_path_ref(&cell.paragraphs[para_index], path, k + 1)
                },
                _ => None,
            }
        },
        NestedEntry::TextBox { control_index, para_index } => {
            if control_index >= p.controls.len() {
                return None;
            }
            match &p.controls[control_index] {
                Control::Shape(s) => match s.drawing() {
                    Some(d) => match &d.text_box {
                        Some(tb) => {
                            if para_index >= tb.paragraphs.len() {
                                return None;
                            }
                            para_at_path_ref(&tb.paragraphs[para_index], path, k + 1)
                        },
                        None => None,
                    },
                    None => None,
                },
                _ => None,
            }
        },
    }
}

/// The paragraph at (`si`, `pi`, `path`), mutably; its section's raw stream
/// and everything else stay as they are.
pub fn loc_para_mut<'a>(doc: &'a mut Document, si: usize, pi: usize, path: &[NestedEntry]) -> (r: &'a mut Paragraph)
    requires
        loc_para(*old(doc), si as int, pi as int, path@) is Some,
    ensures
        loc_para(*old(doc), si as int, pi as int, path@) == Some(*r),
        doc_paras_replaced(*old(doc), *final(doc), si as int, pi as int, path@, *final(r)),
        final(doc).sections@[si as int].raw_stream == old(doc).sections@[si as int].raw_stream,
{
    assert(path@.skip(0) =~= path@);
    let sec = &mut doc.sections[si];
    let p = &mut sec.paragraphs[pi];
    para_at_path_mut(p, path, 0)
}

/// Drops the raw stream of section `si`, so that the section is written
/// from the model on save.
pub fn clear_raw_stream(doc: &mut Document, si: usize)
    ensures
        final(doc).doc_info == old(doc).doc_info,
        final(doc).bin_data_content == old(doc).bin_data_content,
        final(doc).sections@.len() == old(doc).sections@.len(),
        forall|k: int| 0 <= k < old(doc).sections@.len() && k != si ==> #[trigger] final(doc).sections@[k]
            == old(doc).sections@[k],
        si < old(doc).sections@.len() ==> {
            &&& final(doc).sections@[si as int].raw_stream is None
            &&& final(doc).sections@[si as int].paragraphs == old(doc).sections@[si as int].paragraphs
        },
{
    if si < doc.sections.len() {
        doc.sections[si].raw_stream = None;
    }
}

} // verus!
