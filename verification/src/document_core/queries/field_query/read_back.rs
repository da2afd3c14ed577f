//! What a read of a field gives back of a write: once a field's value is
//! set, the field list of the document shows that value for it.

use vstd::prelude::*;
use crate::document_core::queries::field_query::{FieldInfoView, LocationView, NestedEntry};
use crate::document_core::queries::field_query::collect::{doc_infos, doc_infos_upto, section_infos};
use crate::document_core::queries::field_query::navigation::{
    doc_paras_replaced,
    loc_para,
    para_at_path,
    replaced_at_path,
    step,
};
use crate::model::document::Document;
use crate::document_core::queries::field_query::collect::{
    range_value,
    cell_infos,
    cell_paras_infos,
    cells_infos,
    child_loc,
    control_infos,
    controls_infos,
    para_infos,
    range_infos,
    tb_infos,
    virtual_info,
};
use crate::model::control::Control;
use crate::model::paragraph::{FieldRange, Paragraph};
use crate::model::shape::TextBox;
use crate::model::table::{Cell, Table};
use crate::document_core::queries::field_query::edit::adjusted_ranges;
use crate::document_core::queries::field_query::lookup::{
    all_fields,
    first_named,
    first_named_from,
    has_id,
    lemma_sole_index,
    sole_id_index,
    sole_with_id,
};
use crate::document_core::queries::field_query::set_value::{value_writable, value_written};
use crate::document_core::queries::field_query::update::{
    cell_value_path,
    lemma_field_text_reads_back,
};
use crate::document_core::queries::field_query::virtual_cell_id::{
    real_ids_upto,
    resolve_state,
    resolved_ids,
    with_ids,
};

verus! {

/// `b` lists the fields of `a` in the same order, with the same kinds,
/// IDs, locations and range indices; only their values may differ.
pub open spec fn same_but_values(a: Seq<FieldInfoView>, b: Seq<FieldInfoView>) -> bool {
    &&& b.len() == a.len()
    &&& forall|i: int|
        0 <= i < a.len() ==> {
            &&& (#[trigger] b[i]).field == a[i].field
            &&& b[i].location == a[i].location
            &&& b[i].field_range_index == a[i].field_range_index
            &&& b[i].is_virtual_cell_field == a[i].is_virtual_cell_field
        }
}

/// Concatenations of lists that agree but for values agree but for values.
pub proof fn lemma_same_but_values_concat(
    a1: Seq<FieldInfoView>,
    b1: Seq<FieldInfoView>,
    a2: Seq<FieldInfoView>,
    b2: Seq<FieldInfoView>,
)
    requires
        same_but_values(a1, b1),
        same_but_values(a2, b2),
    ensures
        same_but_values(a1 + a2, b1 + b2),
{
    let a = a1 + a2;
    let b = b1 + b2;
    assert forall|i: int| 0 <= i < a.len() implies {
        &&& (#[trigger] b[i]).field == a[i].field
        &&& b[i].location == a[i].location
        &&& b[i].field_range_index == a[i].field_range_index
        &&& b[i].is_virtual_cell_field == a[i].is_virtual_cell_field
    } by {
        if i < a1.len() {
            assert(a[i] == a1[i] && b[i] == b1[i]);
        } else {
            assert(a[i] == a2[i - a1.len()] && b[i] == b2[i - a1.len()]);
        }
    }
}

proof fn lemma_real_ids_same(a: Seq<FieldInfoView>, b: Seq<FieldInfoView>, n: int)
    requires
        same_but_values(a, b),
        n <= a.len(),
    ensures
        real_ids_upto(a, n) == real_ids_upto(b, n),
    decreases n,
{
    if n > 0 {
        lemma_real_ids_same(a, b, n - 1);
        assert(b[n - 1].field == a[n - 1].field);
    }
}

proof fn lemma_resolve_state_same(a: Seq<FieldInfoView>, b: Seq<FieldInfoView>, i: int)
    requires
        same_but_values(a, b),
        i <= a.len(),
    ensures
        resolve_state(a, i) == resolve_state(b, i),
    decreases i,
{
    if i <= 0 {
        lemma_real_ids_same(a, b, a.len() as int);
    } else {
        lemma_resolve_state_same(a, b, i - 1);
        assert(b[i - 1].field == a[i - 1].field);
    }
}

/// Lists that agree but for values get the same IDs from resolution, and
/// still agree but for values once they have them.
pub proof fn lemma_resolution_keeps_agreement(a: Seq<FieldInfoView>, b: Seq<FieldInfoView>)
    requires
        same_but_values(a, b),
    ensures
        resolved_ids(a) == resolved_ids(b),
        same_but_values(with_ids(a, resolved_ids(a)), with_ids(b, resolved_ids(b))),
{
    lemma_resolve_state_same(a, b, a.len() as int);
    let ids = resolved_ids(a);
    let wa = with_ids(a, ids);
    let wb = with_ids(b, ids);
    assert forall|i: int| 0 <= i < wa.len() implies {
        &&& (#[trigger] wb[i]).field == wa[i].field
        &&& wb[i].location == wa[i].location
        &&& wb[i].field_range_index == wa[i].field_range_index
        &&& wb[i].is_virtual_cell_field == wa[i].is_virtual_cell_field
    } by {
        assert(b[i].field == a[i].field);
    }
}

/// `b` has as many ranges as `a`, each over the same control.
pub open spec fn ranges_same_shape(a: Seq<FieldRange>, b: Seq<FieldRange>) -> bool {
    &&& b.len() == a.len()
    &&& forall|i: int| 0 <= i < a.len() ==> (#[trigger] b[i]).control_idx == a[i].control_idx
}

/// `b` is `a` or differs from it only in the text and range positions of
/// paragraphs (its own or nested ones): its fields, tables, cells and text
/// boxes are the same.
pub open spec fn para_same_shape(a: Paragraph, b: Paragraph) -> bool
    decreases a, a.controls@.len() + 1,
{
    b == a || {
        &&& ranges_same_shape(a.field_ranges@, b.field_ranges@)
        &&& b.controls@.len() == a.controls@.len()
        &&& controls_same_shape(a, b, a.controls@.len() as int)
    }
}

/// The first `n` controls of `b` have the shape of those of `a`.
pub open spec fn controls_same_shape(a: Paragraph, b: Paragraph, n: int) -> bool
    decreases a, n,
{
    if n <= 0 || n > a.controls@.len() {
        true
    } else {
        controls_same_shape(a, b, n - 1) && control_same_shape(a.controls@[n - 1], b.controls@[n - 1])
    }
}

/// Control `cb` is `ca`, or a table or text box whose paragraphs have the
/// shape of those of `ca`.
pub open spec fn control_same_shape(ca: Control, cb: Control) -> bool
    decreases ca, 0int,
{
    cb == ca || match ca {
        Control::Table(ta) => match cb {
            Control::Table(tb) => tb.cells@.len() == ta.cells@.len() && cells_same_shape(
                *ta,
                *tb,
                ta.cells@.len() as int,
            ),
            _ => false,
        },
        Control::Shape(sa) => match cb {
            Control::Shape(sb) => match (sa.drawing_attr(), sb.drawing_attr()) {
                (Some(da), Some(db)) => match (da.text_box, db.text_box) {
                    (Some(x), Some(y)) => y.paragraphs@.len() == x.paragraphs@.len() && tb_same_shape(
                        x,
                        y,
                        x.paragraphs@.len() as int,
                    ),
                    _ => false,
                },
                _ => false,
            },
            _ => false,
        },
        _ => false,
    }
}

/// The first `m` cells of `tb` have the shape of those of `ta`.
pub open spec fn cells_same_shape(ta: Table, tb: Table, m: int) -> bool
    decreases ta, m,
{
    if m <= 0 || m > ta.cells@.len() {
        true
    } else {
        cells_same_shape(ta, tb, m - 1) && cell_same_shape(ta.cells@[m - 1], tb.cells@[m - 1])
    }
}

/// Cell `b` is `a`, or has its name and paragraphs of the same shape.
pub open spec fn cell_same_shape(a: Cell, b: Cell) -> bool
    decreases a, a.paragraphs@.len() + 1,
{
    b == a || {
        &&& b.field_name == a.field_name
        &&& b.paragraphs@.len() == a.paragraphs@.len()
        &&& cell_paras_same_shape(a, b, a.paragraphs@.len() as int)
    }
}

/// The first `n` paragraphs of cell `b` have the shape of those of `a`.
pub open spec fn cell_paras_same_shape(a: Cell, b: Cell, n: int) -> bool
    decreases a, n,
{
    if n <= 0 || n > a.paragraphs@.len() {
        true
    } else {
        cell_paras_same_shape(a, b, n - 1) && para_same_shape(a.paragraphs@[n - 1], b.paragraphs@[n - 1])
    }
}

/// The first `n` paragraphs of text box `y` have the shape of those of `x`.
pub open spec fn tb_same_shape(x: TextBox, y: TextBox, n: int) -> bool
    decreases x, n,
{
    if n <= 0 || n > x.paragraphs@.len() {
        true
    } else {
        tb_same_shape(x, y, n - 1) && para_same_shape(x.paragraphs@[n - 1], y.paragraphs@[n - 1])
    }
}

proof fn lemma_controls_pointwise(a: Paragraph, b: Paragraph, n: int)
    requires
        controls_same_shape(a, b, n),
        n <= a.controls@.len(),
    ensures
        forall|i: int| 0 <= i < n ==> control_same_shape(#[trigger] a.controls@[i], b.controls@[i]),
    decreases n,
{
    if n > 0 {
        lemma_controls_pointwise(a, b, n - 1);
    }
}

proof fn lemma_range_infos_shape(a: Paragraph, b: Paragraph, loc: LocationView, n: int)
    requires
        ranges_same_shape(a.field_ranges@, b.field_ranges@),
        b.controls@.len() == a.controls@.len(),
        forall|i: int| 0 <= i < a.controls@.len() ==> control_same_shape(#[trigger] a.controls@[i], b.controls@[i]),
    ensures
        same_but_values(range_infos(a, loc, n), range_infos(b, loc, n)),
    decreases n,
{
    if n > 0 && n <= a.field_ranges@.len() {
        lemma_range_infos_shape(a, b, loc, n - 1);
        let fa = a.field_ranges@[n - 1];
        let fb = b.field_ranges@[n - 1];
        assert(fb.control_idx == fa.control_idx);
        if fa.control_idx < a.controls@.len() {
            let ca = a.controls@[fa.control_idx as int];
            let cb = b.controls@[fa.control_idx as int];
            assert(control_same_shape(ca, cb));
            let pa = range_infos(a, loc, n - 1);
            let pb = range_infos(b, loc, n - 1);
            match ca {
                Control::Field(f) => {
                    assert(cb == ca);
                    let ea = range_infos(a, loc, n);
                    let eb = range_infos(b, loc, n);
                    assert(ea == pa.push(ea.last()));
                    assert(eb == pb.push(eb.last()));
                    lemma_same_but_values_concat(pa, pb, seq![ea.last()], seq![eb.last()]);
                    assert(pa + seq![ea.last()] =~= ea);
                    assert(pb + seq![eb.last()] =~= eb);
                },
                _ => {
                    assert(!(cb is Field));
                },
            }
        }
    }
}

proof fn lemma_para_infos_shape(a: Paragraph, b: Paragraph, loc: LocationView)
    requires
        para_same_shape(a, b),
    ensures
        same_but_values(para_infos(a, loc), para_infos(b, loc)),
    decreases a, a.controls@.len() + 1,
{
    if b != a {
        lemma_controls_pointwise(a, b, a.controls@.len() as int);
        lemma_range_infos_shape(a, b, loc, a.field_ranges@.len() as int);
        lemma_controls_infos_shape(a, b, loc, a.controls@.len() as int);
        lemma_same_but_values_concat(
            range_infos(a, loc, a.field_ranges@.len() as int),
            range_infos(b, loc, b.field_ranges@.len() as int),
            controls_infos(a, loc, a.controls@.len() as int),
            controls_infos(b, loc, b.controls@.len() as int),
        );
    }
}

proof fn lemma_controls_infos_shape(a: Paragraph, b: Paragraph, loc: LocationView, n: int)
    requires
        controls_same_shape(a, b, n),
        b.controls@.len() == a.controls@.len(),
    ensures
        same_but_values(controls_infos(a, loc, n), controls_infos(b, loc, n)),
    decreases a, n,
{
    if n > 0 && n <= a.controls@.len() {
        lemma_controls_infos_shape(a, b, loc, n - 1);
        lemma_control_infos_shape(a.controls@[n - 1], b.controls@[n - 1], (n - 1) as usize, loc);
        lemma_same_but_values_concat(
            controls_infos(a, loc, n - 1),
            controls_infos(b, loc, n - 1),
            control_infos(a.controls@[n - 1], (n - 1) as usize, loc),
            control_infos(b.controls@[n - 1], (n - 1) as usize, loc),
        );
    }
}

proof fn lemma_control_infos_shape(ca: Control, cb: Control, ci: usize, loc: LocationView)
    requires
        control_same_shape(ca, cb),
    ensures
        same_but_values(control_infos(ca, ci, loc), control_infos(cb, ci, loc)),
    decreases ca, 0int,
{
    if cb != ca {
        match ca {
            Control::Table(ta) => match cb {
                Control::Table(tb) => {
                    lemma_cells_infos_shape(*ta, *tb, ci, loc, ta.cells@.len() as int);
                },
                _ => {},
            },
            Control::Shape(sa) => match cb {
                Control::Shape(sb) => match (sa.drawing_attr(), sb.drawing_attr()) {
                    (Some(da), Some(db)) => match (da.text_box, db.text_box) {
                        (Some(x), Some(y)) => {
                            lemma_tb_infos_shape(x, y, ci, loc, x.paragraphs@.len() as int);
                        },
                        _ => {},
                    },
                    _ => {},
                },
                _ => {},
            },
            _ => {},
        }
    }
}

proof fn lemma_cells_infos_shape(ta: Table, tb: Table, ci: usize, loc: LocationView, m: int)
    requires
        cells_same_shape(ta, tb, m),
        tb.cells@.len() == ta.cells@.len(),
    ensures
        same_but_values(cells_infos(ta, ci, loc, m), cells_infos(tb, ci, loc, m)),
    decreases ta, m,
{
    if m > 0 && m <= ta.cells@.len() {
        lemma_cells_infos_shape(ta, tb, ci, loc, m - 1);
        lemma_cell_infos_shape(ta.cells@[m - 1], tb.cells@[m - 1], ci, (m - 1) as usize, loc);
        lemma_same_but_values_concat(
            cells_infos(ta, ci, loc, m - 1),
            cells_infos(tb, ci, loc, m - 1),
            cell_infos(ta.cells@[m - 1], ci, (m - 1) as usize, loc),
            cell_infos(tb.cells@[m - 1], ci, (m - 1) as usize, loc),
        );
    }
}

proof fn lemma_cell_infos_shape(a: Cell, b: Cell, ci: usize, cj: usize, loc: LocationView)
    requires
        cell_same_shape(a, b),
    ensures
        same_but_values(cell_infos(a, ci, cj, loc), cell_infos(b, ci, cj, loc)),
    decreases a, a.paragraphs@.len() + 1,
{
    if b != a {
        lemma_cell_paras_infos_shape(a, b, ci, cj, loc, a.paragraphs@.len() as int);
        let vloc = child_loc(
            loc,
            crate::document_core::queries::field_query::NestedEntry::TableCell {
                control_index: ci,
                cell_index: cj,
                para_index: 0,
            },
        );
        let own_a = match a.field_name {
            Some(name) => seq![virtual_info(a, name@, vloc)],
            None => Seq::<FieldInfoView>::empty(),
        };
        let own_b = match b.field_name {
            Some(name) => seq![virtual_info(b, name@, vloc)],
            None => Seq::<FieldInfoView>::empty(),
        };
        assert(same_but_values(own_a, own_b));
        lemma_same_but_values_concat(
            own_a,
            own_b,
            cell_paras_infos(a, ci, cj, loc, a.paragraphs@.len() as int),
            cell_paras_infos(b, ci, cj, loc, b.paragraphs@.len() as int),
        );
    }
}

proof fn lemma_cell_paras_infos_shape(a: Cell, b: Cell, ci: usize, cj: usize, loc: LocationView, n: int)
    requires
        cell_paras_same_shape(a, b, n),
        b.paragraphs@.len() == a.paragraphs@.len(),
    ensures
        same_but_values(cell_paras_infos(a, ci, cj, loc, n), cell_paras_infos(b, ci, cj, loc, n)),
    decreases a, n,
{
    if n > 0 && n <= a.paragraphs@.len() {
        lemma_cell_paras_infos_shape(a, b, ci, cj, loc, n - 1);
        let cl = child_loc(
            loc,
            crate::document_core::queries::field_query::NestedEntry::TableCell {
                control_index: ci,
                cell_index: cj,
                para_index: (n - 1) as usize,
            },
        );
        lemma_para_infos_shape(a.paragraphs@[n - 1], b.paragraphs@[n - 1], cl);
        lemma_same_but_values_concat(
            cell_paras_infos(a, ci, cj, loc, n - 1),
            cell_paras_infos(b, ci, cj, loc, n - 1),
            para_infos(a.paragraphs@[n - 1], cl),
            para_infos(b.paragraphs@[n - 1], cl),
        );
    }
}

proof fn lemma_tb_infos_shape(x: TextBox, y: TextBox, ci: usize, loc: LocationView, n: int)
    requires
        tb_same_shape(x, y, n),
        y.paragraphs@.len() == x.paragraphs@.len(),
    ensures
        same_but_values(tb_infos(x, ci, loc, n), tb_infos(y, ci, loc, n)),
    decreases x, n,
{
    if n > 0 && n <= x.paragraphs@.len() {
        lemma_tb_infos_shape(x, y, ci, loc, n - 1);
        let cl = child_loc(
            loc,
            crate::document_core::queries::field_query::NestedEntry::TextBox {
                control_index: ci,
                para_index: (n - 1) as usize,
            },
        );
        lemma_para_infos_shape(x.paragraphs@[n - 1], y.paragraphs@[n - 1], cl);
        lemma_same_but_values_concat(
            tb_infos(x, ci, loc, n - 1),
            tb_infos(y, ci, loc, n - 1),
            para_infos(x.paragraphs@[n - 1], cl),
            para_infos(y.paragraphs@[n - 1], cl),
        );
    }
}

proof fn lemma_controls_from_pointwise(a: Paragraph, b: Paragraph, n: int)
    requires
        n <= a.controls@.len(),
        forall|i: int| 0 <= i < n ==> control_same_shape(#[trigger] a.controls@[i], b.controls@[i]),
    ensures
        controls_same_shape(a, b, n),
    decreases n,
{
    if n > 0 {
        lemma_controls_from_pointwise(a, b, n - 1);
    }
}

proof fn lemma_cells_from_pointwise(a: Table, b: Table, n: int)
    requires
        n <= a.cells@.len(),
        forall|i: int| 0 <= i < n ==> cell_same_shape(#[trigger] a.cells@[i], b.cells@[i]),
    ensures
        cells_same_shape(a, b, n),
    decreases n,
{
    if n > 0 {
        lemma_cells_from_pointwise(a, b, n - 1);
    }
}

proof fn lemma_cell_paras_from_pointwise(a: Cell, b: Cell, n: int)
    requires
        n <= a.paragraphs@.len(),
        forall|i: int| 0 <= i < n ==> para_same_shape(#[trigger] a.paragraphs@[i], b.paragraphs@[i]),
    ensures
        cell_paras_same_shape(a, b, n),
    decreases n,
{
    if n > 0 {
        lemma_cell_paras_from_pointwise(a, b, n - 1);
    }
}

proof fn lemma_tb_from_pointwise(a: TextBox, b: TextBox, n: int)
    requires
        n <= a.paragraphs@.len(),
        forall|i: int| 0 <= i < n ==> para_same_shape(#[trigger] a.paragraphs@[i], b.paragraphs@[i]),
    ensures
        tb_same_shape(a, b, n),
    decreases n,
{
    if n > 0 {
        lemma_tb_from_pointwise(a, b, n - 1);
    }
}

/// A paragraph whose controls are those of `a` and whose ranges lie over
/// the same controls has the shape of `a`.
proof fn lemma_same_controls_same_shape(a: Paragraph, b: Paragraph)
    requires
        b.controls == a.controls,
        ranges_same_shape(a.field_ranges@, b.field_ranges@),
    ensures
        para_same_shape(a, b),
{
    lemma_controls_from_pointwise(a, b, a.controls@.len() as int);
}

/// Replacing a nested paragraph by one of its shape keeps the shape of the
/// paragraph that holds it.
proof fn lemma_replaced_same_shape(old: Paragraph, new: Paragraph, path: Seq<NestedEntry>, leaf: Paragraph)
    requires
        replaced_at_path(old, new, path, leaf),
        para_at_path(old, path) matches Some(p) && para_same_shape(p, leaf),
    ensures
        para_same_shape(old, new),
    decreases path.len(),
{
    if path.len() > 0 {
        match path[0] {
            NestedEntry::TableCell { control_index: ci, cell_index: cj, para_index: pi } => {
                match (old.controls@[ci as int], new.controls@[ci as int]) {
                    (Control::Table(ot), Control::Table(nt)) => {
                        let oc = ot.cells@[cj as int];
                        let nc = nt.cells@[cj as int];
                        lemma_replaced_same_shape(oc.paragraphs@[pi as int], nc.paragraphs@[pi as int], path.drop_first(), leaf);
                        assert forall|k: int| 0 <= k < oc.paragraphs@.len() implies para_same_shape(
                            #[trigger] oc.paragraphs@[k],
                            nc.paragraphs@[k],
                        ) by {
                            if k != pi {
                                assert(nc.paragraphs@[k] == oc.paragraphs@[k]);
                            }
                        }
                        lemma_cell_paras_from_pointwise(oc, nc, oc.paragraphs@.len() as int);
                        assert(cell_same_shape(oc, nc));
                        assert forall|k: int| 0 <= k < ot.cells@.len() implies cell_same_shape(
                            #[trigger] ot.cells@[k],
                            nt.cells@[k],
                        ) by {
                            if k != cj {
                                assert(nt.cells@[k] == ot.cells@[k]);
                            }
                        }
                        lemma_cells_from_pointwise(*ot, *nt, ot.cells@.len() as int);
                        assert(control_same_shape(old.controls@[ci as int], new.controls@[ci as int]));
                    },
                    _ => {},
                }
            },
            NestedEntry::TextBox { control_index: ci, para_index: pi } => {
                match (old.controls@[ci as int], new.controls@[ci as int]) {
                    (Control::Shape(os), Control::Shape(ns)) => match (os.drawing_attr(), ns.drawing_attr()) {
                        (Some(od), Some(nd)) => match (od.text_box, nd.text_box) {
                            (Some(otb), Some(ntb)) => {
                                lemma_replaced_same_shape(
                                    otb.paragraphs@[pi as int],
                                    ntb.paragraphs@[pi as int],
                                    path.drop_first(),
                                    leaf,
                                );
                                assert forall|k: int| 0 <= k < otb.paragraphs@.len() implies para_same_shape(
                                    #[trigger] otb.paragraphs@[k],
                                    ntb.paragraphs@[k],
                                ) by {
                                    if k != pi {
                                        assert(ntb.paragraphs@[k] == otb.paragraphs@[k]);
                                    }
                                }
                                lemma_tb_from_pointwise(otb, ntb, otb.paragraphs@.len() as int);
                                assert(control_same_shape(old.controls@[ci as int], new.controls@[ci as int]));
                            },
                            _ => {},
                        },
                        _ => {},
                    },
                    _ => {},
                }
            },
        }
        let ci = match path[0] {
            NestedEntry::TableCell { control_index, .. } => control_index,
            NestedEntry::TextBox { control_index, .. } => control_index,
        };
        assert forall|k: int| 0 <= k < old.controls@.len() implies control_same_shape(
            #[trigger] old.controls@[k],
            new.controls@[k],
        ) by {
            if k != ci {
                assert(new.controls@[k] == old.controls@[k]);
            }
        }
        lemma_controls_from_pointwise(old, new, old.controls@.len() as int);
    }
}

proof fn lemma_section_infos_same_section(old: Document, new: Document, si: int, n: int)
    requires
        0 <= si < old.sections@.len(),
        new.sections@.len() == old.sections@.len(),
        new.sections@[si] == old.sections@[si],
    ensures
        section_infos(new, si, n) == section_infos(old, si, n),
    decreases n,
{
    if n > 0 {
        lemma_section_infos_same_section(old, new, si, n - 1);
    }
}

proof fn lemma_section_infos_replaced(
    old: Document,
    new: Document,
    si: int,
    pi: int,
    path: Seq<NestedEntry>,
    leaf: Paragraph,
    n: int,
)
    requires
        doc_paras_replaced(old, new, si, pi, path, leaf),
        loc_para(old, si, pi, path) matches Some(p) && para_same_shape(p, leaf),
        0 <= n <= old.sections@[si].paragraphs@.len(),
    ensures
        same_but_values(section_infos(old, si, n), section_infos(new, si, n)),
    decreases n,
{
    if n > 0 {
        lemma_section_infos_replaced(old, new, si, pi, path, leaf, n - 1);
        let a = old.sections@[si].paragraphs@[n - 1];
        let b = new.sections@[si].paragraphs@[n - 1];
        let loc = LocationView { section_index: si as usize, para_index: (n - 1) as usize, nested_path: Seq::empty() };
        if n - 1 == pi {
            lemma_replaced_same_shape(a, b, path, leaf);
        } else {
            assert(b == a);
        }
        lemma_para_infos_shape(a, b, loc);
        lemma_same_but_values_concat(
            section_infos(old, si, n - 1),
            section_infos(new, si, n - 1),
            para_infos(a, loc),
            para_infos(b, loc),
        );
    }
}

proof fn lemma_doc_infos_upto_replaced(
    old: Document,
    new: Document,
    si: int,
    pi: int,
    path: Seq<NestedEntry>,
    leaf: Paragraph,
    n: int,
)
    requires
        doc_paras_replaced(old, new, si, pi, path, leaf),
        loc_para(old, si, pi, path) matches Some(p) && para_same_shape(p, leaf),
        0 <= n <= old.sections@.len(),
    ensures
        same_but_values(doc_infos_upto(old, n), doc_infos_upto(new, n)),
    decreases n,
{
    if n > 0 {
        lemma_doc_infos_upto_replaced(old, new, si, pi, path, leaf, n - 1);
        let m = old.sections@[n - 1].paragraphs@.len() as int;
        if n - 1 == si {
            lemma_section_infos_replaced(old, new, si, pi, path, leaf, m);
        } else {
            assert(new.sections@[n - 1] == old.sections@[n - 1]);
            lemma_section_infos_same_section(old, new, n - 1, m);
        }
        lemma_same_but_values_concat(
            doc_infos_upto(old, n - 1),
            doc_infos_upto(new, n - 1),
            section_infos(old, n - 1, m),
            section_infos(new, n - 1, m),
        );
    }
}

/// Replacing one paragraph of a document by one of its shape leaves the
/// field list of the document the same but for values.
pub proof fn lemma_doc_infos_replaced(
    old: Document,
    new: Document,
    si: int,
    pi: int,
    path: Seq<NestedEntry>,
    leaf: Paragraph,
)
    requires
        doc_paras_replaced(old, new, si, pi, path, leaf),
        loc_para(old, si, pi, path) matches Some(p) && para_same_shape(p, leaf),
    ensures
        same_but_values(doc_infos(old), doc_infos(new)),
{
    lemma_doc_infos_upto_replaced(old, new, si, pi, path, leaf, old.sections@.len() as int);
}

/// The control index a step goes through.
pub open spec fn entry_control(e: NestedEntry) -> usize {
    match e {
        NestedEntry::TableCell { control_index, .. } => control_index,
        NestedEntry::TextBox { control_index, .. } => control_index,
    }
}

/// Paragraph `k` of a cell, if there is one.
pub open spec fn cell_step(cell: Cell, k: usize) -> Option<Paragraph> {
    if k < cell.paragraphs@.len() {
        Some(cell.paragraphs@[k as int])
    } else {
        None
    }
}

/// Paragraph `k` of cell `cj` of a table, if there is one.
pub open spec fn table_step(t: Table, cj: usize, k: usize) -> Option<Paragraph> {
    if cj < t.cells@.len() {
        cell_step(t.cells@[cj as int], k)
    } else {
        None
    }
}

/// Paragraph `k` of a text box, if there is one.
pub open spec fn tb_step(x: TextBox, k: usize) -> Option<Paragraph> {
    if k < x.paragraphs@.len() {
        Some(x.paragraphs@[k as int])
    } else {
        None
    }
}

/// The paragraph that step `e` reaches inside control `c` (the part of
/// `step` past the control).
pub open spec fn step_in(c: Control, e: NestedEntry) -> Option<Paragraph> {
    match e {
        NestedEntry::TableCell { control_index: _, cell_index, para_index } => match c {
            Control::Table(t) => table_step(*t, cell_index, para_index),
            _ => None,
        },
        NestedEntry::TextBox { control_index: _, para_index } => match c {
            Control::Shape(sh) => match sh.drawing_attr() {
                Some(d) => match d.text_box {
                    Some(x) => tb_step(x, para_index),
                    None => None,
                },
                None => None,
            },
            _ => None,
        },
    }
}

/// Field `e`, found in `p` at path depth `d`, reads what `p` holds: a
/// field of a range has the text of that range of its paragraph as its
/// value; a virtual cell field (whose last step enters the first paragraph
/// of its cell) has the text of that paragraph, or nothing where the cell
/// has none.
pub open spec fn entry_reads(p: Paragraph, d: int, e: FieldInfoView) -> bool {
    let s = e.location.nested_path.skip(d);
    if e.is_virtual_cell_field {
        &&& s.len() > 0
        &&& s.last() matches NestedEntry::TableCell { para_index, .. } && para_index == 0
        &&& e.value == match para_at_path(p, s) {
            Some(q) => q.text@,
            None => Seq::empty(),
        }
    } else {
        &&& para_at_path(p, s) matches Some(q)
        &&& e.field_range_index < q.field_ranges@.len()
        &&& e.value == range_value(q.text@, q.field_ranges@[e.field_range_index as int])
    }
}

/// Field `e` lies at or under location `loc`.
pub open spec fn under(loc: LocationView, e: FieldInfoView) -> bool {
    &&& e.location.section_index == loc.section_index
    &&& e.location.para_index == loc.para_index
    &&& loc.nested_path.len() <= e.location.nested_path.len()
    &&& e.location.nested_path.subrange(0, loc.nested_path.len() as int) == loc.nested_path
}

/// Field `e` reads the paragraph `qo` that the step at depth `d1 - 1`
/// reached (see `entry_reads`).
pub open spec fn rest_reads(qo: Option<Paragraph>, d1: int, e: FieldInfoView) -> bool {
    if e.is_virtual_cell_field && e.location.nested_path.len() == d1 {
        &&& e.location.nested_path[d1 - 1] matches NestedEntry::TableCell { para_index, .. } && para_index == 0
        &&& e.value == match qo {
            Some(q) => q.text@,
            None => Seq::empty(),
        }
    } else {
        qo matches Some(q) && entry_reads(q, d1, e)
    }
}

/// Field `e`, found in paragraph `p` at `loc`, reads what `p` holds.
pub open spec fn at_para(p: Paragraph, loc: LocationView, e: FieldInfoView) -> bool {
    under(loc, e) && entry_reads(p, loc.nested_path.len() as int, e)
}

/// Field `e`, found in control `ci` (that is `c`) of the paragraph at
/// `loc`, reads what `c` holds.
pub open spec fn in_control(c: Control, ci: usize, loc: LocationView, e: FieldInfoView) -> bool {
    let d = loc.nested_path.len() as int;
    &&& under(loc, e)
    &&& e.location.nested_path.len() > d
    &&& entry_control(e.location.nested_path[d]) == ci
    &&& rest_reads(step_in(c, e.location.nested_path[d]), d + 1, e)
}

/// Field `e`, found in table control `ci` (that is `t`) of the paragraph at
/// `loc`, reads what `t` holds.
pub open spec fn in_table(t: Table, ci: usize, loc: LocationView, e: FieldInfoView) -> bool {
    let d = loc.nested_path.len() as int;
    &&& under(loc, e)
    &&& e.location.nested_path.len() > d
    &&& e.location.nested_path[d] matches NestedEntry::TableCell { control_index, cell_index, para_index }
        && control_index == ci && rest_reads(table_step(t, cell_index, para_index), d + 1, e)
}

/// Field `e`, found in cell `cj` of table control `ci` of the paragraph at
/// `loc`, reads what `cell` holds.
pub open spec fn in_cell(cell: Cell, ci: usize, cj: usize, loc: LocationView, e: FieldInfoView) -> bool {
    let d = loc.nested_path.len() as int;
    &&& under(loc, e)
    &&& e.location.nested_path.len() > d
    &&& e.location.nested_path[d] matches NestedEntry::TableCell { control_index, cell_index, para_index }
        && control_index == ci && cell_index == cj && rest_reads(cell_step(cell, para_index), d + 1, e)
}

/// Field `e`, found in the text box `x` of control `ci` of the paragraph at
/// `loc`, reads what `x` holds.
pub open spec fn in_tb(x: TextBox, ci: usize, loc: LocationView, e: FieldInfoView) -> bool {
    let d = loc.nested_path.len() as int;
    &&& under(loc, e)
    &&& e.location.nested_path.len() > d
    &&& e.location.nested_path[d] matches NestedEntry::TextBox { control_index, para_index }
        && control_index == ci && rest_reads(tb_step(x, para_index), d + 1, e)
}

proof fn lemma_forall_concat(a: Seq<FieldInfoView>, b: Seq<FieldInfoView>, pred: spec_fn(FieldInfoView) -> bool)
    requires
        forall|k: int| 0 <= k < a.len() ==> pred(#[trigger] a[k]),
        forall|k: int| 0 <= k < b.len() ==> pred(#[trigger] b[k]),
    ensures
        forall|k: int| 0 <= k < (a + b).len() ==> pred(#[trigger] (a + b)[k]),
{
    assert forall|k: int| 0 <= k < (a + b).len() implies pred(#[trigger] (a + b)[k]) by {
        if k < a.len() {
            assert((a + b)[k] == a[k]);
        } else {
            assert((a + b)[k] == b[k - a.len()]);
        }
    }
}

/// A field under a child location lies under the parent one, with that
/// step at the parent's depth.
proof fn lemma_under_child(loc: LocationView, en: NestedEntry, e: FieldInfoView)
    requires
        under(child_loc(loc, en), e),
    ensures
        under(loc, e),
        e.location.nested_path[loc.nested_path.len() as int] == en,
{
    let d = loc.nested_path.len() as int;
    let p = e.location.nested_path;
    let c = child_loc(loc, en).nested_path;
    assert(c == loc.nested_path.push(en));
    assert(p.subrange(0, d + 1) == c);
    assert(p.subrange(0, d + 1)[d] == en);
    assert(p.subrange(0, d) =~= p.subrange(0, d + 1).subrange(0, d));
    assert(c.subrange(0, d) =~= loc.nested_path);
}

/// A field that reads what a control holds reads what the paragraph
/// holding the control holds.
proof fn lemma_lift_to_para(p: Paragraph, loc: LocationView, e: FieldInfoView)
    requires
        entry_control(e.location.nested_path[loc.nested_path.len() as int]) < p.controls@.len(),
        in_control(
            p.controls@[entry_control(e.location.nested_path[loc.nested_path.len() as int]) as int],
            entry_control(e.location.nested_path[loc.nested_path.len() as int]),
            loc,
            e,
        ),
    ensures
        at_para(p, loc, e),
{
    let d = loc.nested_path.len() as int;
    let path = e.location.nested_path;
    let en = path[d];
    let s = path.skip(d);
    let s1 = path.skip(d + 1);
    assert(s[0] == en);
    assert(s.drop_first() =~= s1);
    assert(step(p, en) == step_in(p.controls@[entry_control(en) as int], en));
    if e.is_virtual_cell_field && path.len() == d + 1 {
        assert(s1 =~= Seq::<NestedEntry>::empty());
        match step(p, en) {
            Some(q) => {
                assert(para_at_path(q, s1) == Some(q));
            },
            None => {},
        }
        assert(s.last() == en);
    } else {
        if e.is_virtual_cell_field {
            assert(s.last() == s1.last());
        }
    }
}

proof fn lemma_reads_ranges(p: Paragraph, loc: LocationView, n: int)
    ensures
        forall|k: int| 0 <= k < range_infos(p, loc, n).len() ==> at_para(p, loc, #[trigger] range_infos(p, loc, n)[k]),
    decreases n,
{
    if n > 0 && n <= p.field_ranges@.len() {
        lemma_reads_ranges(p, loc, n - 1);
        let prev = range_infos(p, loc, n - 1);
        let all = range_infos(p, loc, n);
        let d = loc.nested_path.len() as int;
        assert(loc.nested_path.subrange(0, d) =~= loc.nested_path);
        assert(loc.nested_path.skip(d) =~= Seq::<NestedEntry>::empty());
        assert(para_at_path(p, Seq::<NestedEntry>::empty()) == Some(p));
        assert(p.field_ranges.len() as int == p.field_ranges@.len());
        assert forall|k: int| 0 <= k < all.len() implies at_para(p, loc, #[trigger] all[k]) by {
            if k < prev.len() {
                assert(all[k] == prev[k]);
            } else {
                let e = all[k];
                assert(e.location == loc);
                assert(e.location.nested_path.skip(d) =~= Seq::<NestedEntry>::empty());
                assert(!e.is_virtual_cell_field);
                assert(e.field_range_index == n - 1);
            }
        }
    }
}

proof fn lemma_reads_para(p: Paragraph, loc: LocationView)
    ensures
        forall|k: int| 0 <= k < para_infos(p, loc).len() ==> at_para(p, loc, #[trigger] para_infos(p, loc)[k]),
    decreases p, p.controls@.len() + 1,
{
    lemma_reads_ranges(p, loc, p.field_ranges@.len() as int);
    lemma_reads_controls(p, loc, p.controls@.len() as int);
    lemma_forall_concat(
        range_infos(p, loc, p.field_ranges@.len() as int),
        controls_infos(p, loc, p.controls@.len() as int),
        |e: FieldInfoView| at_para(p, loc, e),
    );
}

proof fn lemma_reads_controls(p: Paragraph, loc: LocationView, n: int)
    ensures
        forall|k: int|
            0 <= k < controls_infos(p, loc, n).len() ==> at_para(p, loc, #[trigger] controls_infos(p, loc, n)[k]),
    decreases p, n,
{
    if n > 0 && n <= p.controls@.len() {
        lemma_reads_controls(p, loc, n - 1);
        let c = p.controls@[n - 1];
        assert(p.controls.len() as int == p.controls@.len());
        lemma_reads_control(c, (n - 1) as usize, loc);
        let own = control_infos(c, (n - 1) as usize, loc);
        assert forall|k: int| 0 <= k < own.len() implies at_para(p, loc, #[trigger] own[k]) by {
            assert(in_control(c, (n - 1) as usize, loc, own[k]));
            lemma_lift_to_para(p, loc, own[k]);
        }
        lemma_forall_concat(controls_infos(p, loc, n - 1), own, |e: FieldInfoView| at_para(p, loc, e));
    }
}

proof fn lemma_reads_control(c: Control, ci: usize, loc: LocationView)
    ensures
        forall|k: int|
            0 <= k < control_infos(c, ci, loc).len() ==> in_control(c, ci, loc, #[trigger] control_infos(c, ci, loc)[k]),
    decreases c, 0int,
{
    let all = control_infos(c, ci, loc);
    match c {
        Control::Table(t) => {
            lemma_reads_cells(*t, ci, loc, t.cells@.len() as int);
            let cs = cells_infos(*t, ci, loc, t.cells@.len() as int);
            assert(all == cs);
            assert forall|k: int| 0 <= k < all.len() implies in_control(c, ci, loc, #[trigger] all[k]) by {
                assert(in_table(*t, ci, loc, cs[k]));
            }
        },
        Control::Shape(sh) => match sh.drawing_attr() {
            Some(d) => match d.text_box {
                Some(x) => {
                    lemma_reads_tb(x, ci, loc, x.paragraphs@.len() as int);
                    let ts = tb_infos(x, ci, loc, x.paragraphs@.len() as int);
                    assert(all == ts);
                    assert forall|k: int| 0 <= k < all.len() implies in_control(c, ci, loc, #[trigger] all[k]) by {
                        assert(in_tb(x, ci, loc, ts[k]));
                    }
                },
                None => {},
            },
            None => {},
        },
        _ => {},
    }
}

proof fn lemma_reads_cells(t: Table, ci: usize, loc: LocationView, m: int)
    ensures
        forall|k: int|
            0 <= k < cells_infos(t, ci, loc, m).len() ==> in_table(t, ci, loc, #[trigger] cells_infos(t, ci, loc, m)[k]),
    decreases t, m,
{
    if m > 0 && m <= t.cells@.len() {
        lemma_reads_cells(t, ci, loc, m - 1);
        let cell = t.cells@[m - 1];
        assert(t.cells.len() as int == t.cells@.len());
        lemma_reads_cell(cell, ci, (m - 1) as usize, loc);
        let own = cell_infos(cell, ci, (m - 1) as usize, loc);
        assert forall|k: int| 0 <= k < own.len() implies in_table(t, ci, loc, #[trigger] own[k]) by {
            assert(in_cell(cell, ci, (m - 1) as usize, loc, own[k]));
        }
        lemma_forall_concat(cells_infos(t, ci, loc, m - 1), own, |e: FieldInfoView| in_table(t, ci, loc, e));
    }
}

proof fn lemma_reads_cell(cell: Cell, ci: usize, cj: usize, loc: LocationView)
    ensures
        forall|k: int|
            0 <= k < cell_infos(cell, ci, cj, loc).len() ==> in_cell(cell, ci, cj, loc, #[trigger] cell_infos(cell, ci, cj, loc)[k]),
    decreases cell, cell.paragraphs@.len() + 1,
{
    lemma_reads_cell_paras(cell, ci, cj, loc, cell.paragraphs@.len() as int);
    let en = NestedEntry::TableCell { control_index: ci, cell_index: cj, para_index: 0 };
    let vloc = child_loc(loc, en);
    let d = loc.nested_path.len() as int;
    let own = match cell.field_name {
        Some(name) => seq![virtual_info(cell, name@, vloc)],
        None => Seq::<FieldInfoView>::empty(),
    };
    assert forall|k: int| 0 <= k < own.len() implies in_cell(cell, ci, cj, loc, #[trigger] own[k]) by {
        assert(vloc.nested_path.subrange(0, d) =~= loc.nested_path);
        assert(vloc.nested_path[d] == en);
    }
    lemma_forall_concat(
        own,
        cell_paras_infos(cell, ci, cj, loc, cell.paragraphs@.len() as int),
        |e: FieldInfoView| in_cell(cell, ci, cj, loc, e),
    );
}

proof fn lemma_reads_cell_paras(cell: Cell, ci: usize, cj: usize, loc: LocationView, n: int)
    ensures
        forall|k: int|
            0 <= k < cell_paras_infos(cell, ci, cj, loc, n).len() ==> in_cell(
                cell,
                ci,
                cj,
                loc,
                #[trigger] cell_paras_infos(cell, ci, cj, loc, n)[k],
            ),
    decreases cell, n,
{
    if n > 0 && n <= cell.paragraphs@.len() {
        lemma_reads_cell_paras(cell, ci, cj, loc, n - 1);
        let q = cell.paragraphs@[n - 1];
        assert(cell.paragraphs.len() as int == cell.paragraphs@.len());
        let en = NestedEntry::TableCell { control_index: ci, cell_index: cj, para_index: (n - 1) as usize };
        let cl = child_loc(loc, en);
        lemma_reads_para(q, cl);
        let own = para_infos(q, cl);
        assert forall|k: int| 0 <= k < own.len() implies in_cell(cell, ci, cj, loc, #[trigger] own[k]) by {
            lemma_under_child(loc, en, own[k]);
        }
        lemma_forall_concat(
            cell_paras_infos(cell, ci, cj, loc, n - 1),
            own,
            |e: FieldInfoView| in_cell(cell, ci, cj, loc, e),
        );
    }
}

proof fn lemma_reads_tb(x: TextBox, ci: usize, loc: LocationView, n: int)
    ensures
        forall|k: int|
            0 <= k < tb_infos(x, ci, loc, n).len() ==> in_tb(x, ci, loc, #[trigger] tb_infos(x, ci, loc, n)[k]),
    decreases x, n,
{
    if n > 0 && n <= x.paragraphs@.len() {
        lemma_reads_tb(x, ci, loc, n - 1);
        let q = x.paragraphs@[n - 1];
        assert(x.paragraphs.len() as int == x.paragraphs@.len());
        let en = NestedEntry::TextBox { control_index: ci, para_index: (n - 1) as usize };
        let cl = child_loc(loc, en);
        lemma_reads_para(q, cl);
        let own = para_infos(q, cl);
        assert forall|k: int| 0 <= k < own.len() implies in_tb(x, ci, loc, #[trigger] own[k]) by {
            lemma_under_child(loc, en, own[k]);
        }
        lemma_forall_concat(tb_infos(x, ci, loc, n - 1), own, |e: FieldInfoView| in_tb(x, ci, loc, e));
    }
}

/// Field `e` of `doc` reads what the document holds at its location: a
/// field of a range has the text of that range as its value; a virtual
/// cell field, whose location ends in the first paragraph of its cell, has
/// the text of that paragraph (nothing where the cell has none).
pub open spec fn field_reads(doc: Document, e: FieldInfoView) -> bool {
    let si = e.location.section_index as int;
    let pi = e.location.para_index as int;
    let path = e.location.nested_path;
    if e.is_virtual_cell_field {
        &&& path.len() > 0
        &&& path.last() matches NestedEntry::TableCell { para_index, .. } && para_index == 0
        &&& e.value == match loc_para(doc, si, pi, path) {
            Some(q) => q.text@,
            None => Seq::empty(),
        }
    } else {
        &&& loc_para(doc, si, pi, path) matches Some(q)
        &&& e.field_range_index < q.field_ranges@.len()
        &&& e.value == range_value(q.text@, q.field_ranges@[e.field_range_index as int])
    }
}

proof fn lemma_reads_section(doc: Document, si: int, n: int)
    requires
        0 <= si < doc.sections@.len(),
        0 <= n <= doc.sections@[si].paragraphs@.len(),
    ensures
        forall|k: int|
            0 <= k < section_infos(doc, si, n).len() ==> field_reads(doc, #[trigger] section_infos(doc, si, n)[k]),
    decreases n,
{
    if n > 0 {
        lemma_reads_section(doc, si, n - 1);
        assert(doc.sections.len() as int == doc.sections@.len());
        assert(doc.sections@[si].paragraphs.len() as int == doc.sections@[si].paragraphs@.len());
        let root = doc.sections@[si].paragraphs@[n - 1];
        let loc = LocationView { section_index: si as usize, para_index: (n - 1) as usize, nested_path: Seq::empty() };
        lemma_reads_para(root, loc);
        let own = para_infos(root, loc);
        assert forall|k: int| 0 <= k < own.len() implies field_reads(doc, #[trigger] own[k]) by {
            let e = own[k];
            assert(at_para(root, loc, e));
            assert(e.location.nested_path.skip(0) =~= e.location.nested_path);
        }
        lemma_forall_concat(section_infos(doc, si, n - 1), own, |e: FieldInfoView| field_reads(doc, e));
    }
}

proof fn lemma_reads_doc_upto(doc: Document, n: int)
    requires
        0 <= n <= doc.sections@.len(),
    ensures
        forall|k: int| 0 <= k < doc_infos_upto(doc, n).len() ==> field_reads(doc, #[trigger] doc_infos_upto(doc, n)[k]),
    decreases n,
{
    if n > 0 {
        lemma_reads_doc_upto(doc, n - 1);
        let m = doc.sections@[n - 1].paragraphs@.len() as int;
        lemma_reads_section(doc, n - 1, m);
        lemma_forall_concat(doc_infos_upto(doc, n - 1), section_infos(doc, n - 1, m), |e: FieldInfoView| field_reads(doc, e));
    }
}

/// Every field in the field list of a document reads what the document
/// holds at its location (see `field_reads`).
pub proof fn lemma_all_fields_read(doc: Document)
    ensures
        forall|k: int| 0 <= k < all_fields(doc).len() ==> field_reads(doc, #[trigger] all_fields(doc)[k]),
{
    lemma_reads_doc_upto(doc, doc.sections@.len() as int);
    let v = doc_infos(doc);
    let w = all_fields(doc);
    assert forall|k: int| 0 <= k < w.len() implies field_reads(doc, #[trigger] w[k]) by {
        assert(field_reads(doc, v[k]));
    }
}

/// The document a field write leaves keeps the field list of the old one
/// but for values.
proof fn lemma_write_keeps_fields(old: Document, new: Document, f: FieldInfoView, value: Seq<char>)
    requires
        value_writable(old, f, value.len()),
        value_written(old, new, f, value),
    ensures
        same_but_values(all_fields(old), all_fields(new)),
{
    let si = f.location.section_index as int;
    let pi = f.location.para_index as int;
    let path = f.location.nested_path;
    if f.is_virtual_cell_field {
        let cp = cell_value_path(path)->0;
        let p = loc_para(old, si, pi, cp)->0;
        let q = loc_para(new, si, pi, cp)->0;
        lemma_same_controls_same_shape(p, q);
        lemma_doc_infos_replaced(old, new, si, pi, cp, q);
    } else {
        let p = loc_para(old, si, pi, path)->0;
        let q = loc_para(new, si, pi, path)->0;
        let n = (p.field_ranges@[f.field_range_index as int].start_char_idx + value.len()) as usize;
        assert(q.field_ranges@ == adjusted_ranges(p.field_ranges@, f.field_range_index as int, n));
        lemma_same_controls_same_shape(p, q);
        lemma_doc_infos_replaced(old, new, si, pi, path, q);
    }
    lemma_resolution_keeps_agreement(doc_infos(old), doc_infos(new));
}

/// After a field write, the written field reads the value written.
proof fn lemma_written_field_reads_value(old: Document, new: Document, k: int, value: Seq<char>)
    requires
        0 <= k < all_fields(old).len(),
        value_writable(old, all_fields(old)[k], value.len()),
        value_written(old, new, all_fields(old)[k], value),
    ensures
        k < all_fields(new).len(),
        all_fields(new)[k].value == value,
{
    let f = all_fields(old)[k];
    lemma_write_keeps_fields(old, new, f, value);
    lemma_all_fields_read(old);
    lemma_all_fields_read(new);
    let g = all_fields(new)[k];
    assert(field_reads(old, f));
    assert(field_reads(new, g));
    let si = f.location.section_index as int;
    let pi = f.location.para_index as int;
    let path = f.location.nested_path;
    if f.is_virtual_cell_field {
        let cp = cell_value_path(path)->0;
        assert(cp =~= path);
    } else {
        lemma_field_text_reads_back(old, new, si, pi, path, f.field_range_index as int, value);
    }
}

/// What a read of a field gives back of a write, by ID: once
/// `set_field_value_by_id` has written `value` into the field with ID
/// `id`, that field is still the only one with this ID and its value is
/// `value`, so `get_field_value_by_id` answers with `value`.
pub proof fn lemma_set_by_id_then_get(old: Document, new: Document, id: u32, value: Seq<char>)
    requires
        sole_id_index(all_fields(old), id) matches Some(k) && value_writable(old, all_fields(old)[k], value.len())
            && value_written(old, new, all_fields(old)[k], value),
    ensures
        sole_id_index(all_fields(new), id) matches Some(k) && all_fields(new)[k].value == value,
{
    let a = all_fields(old);
    let k = sole_id_index(a, id)->0;
    assert(sole_with_id(a, k, id));
    lemma_write_keeps_fields(old, new, a[k], value);
    lemma_written_field_reads_value(old, new, k, value);
    let b = all_fields(new);
    assert forall|j: int| #[trigger] has_id(b, j, id) implies j == k by {
        assert(has_id(a, j, id));
    }
    assert(has_id(b, k, id));
    lemma_sole_index(b, k, id);
}

proof fn lemma_first_named_same(a: Seq<FieldInfoView>, b: Seq<FieldInfoView>, name: Seq<char>, k: int)
    requires
        same_but_values(a, b),
        0 <= k,
    ensures
        first_named_from(b, name, k) == first_named_from(a, name, k),
    decreases a.len() - k,
{
    if k < a.len() {
        assert(b[k].field == a[k].field);
        lemma_first_named_same(a, b, name, k + 1);
    }
}

/// What a read of a field gives back of a write, by name: once
/// `set_field_value_by_name` has written `value` into the first field
/// named `name`, that field is still the first so named and its value is
/// `value`, so `get_field_value_by_name` answers with `value`.
pub proof fn lemma_set_by_name_then_get(old: Document, new: Document, name: Seq<char>, value: Seq<char>)
    requires
        first_named(all_fields(old), name) matches Some(k) && value_writable(old, all_fields(old)[k], value.len())
            && value_written(old, new, all_fields(old)[k], value),
    ensures
        first_named(all_fields(new), name) == first_named(all_fields(old), name),
        first_named(all_fields(new), name) matches Some(k) && all_fields(new)[k].value == value,
{
    let a = all_fields(old);
    let k = first_named(a, name)->0;
    crate::document_core::queries::field_query::lookup::lemma_first_named_from(a, name, 0);
    lemma_write_keeps_fields(old, new, a[k], value);
    lemma_first_named_same(a, all_fields(new), name, 0);
    lemma_written_field_reads_value(old, new, k, value);
}

} // verus!
