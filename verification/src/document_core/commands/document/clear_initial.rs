//! Clearing the guide text that an untouched click-here field holds as its
//! text, so that the field shows as empty (with its guide drawn apart).

use vstd::prelude::*;
use crate::document_core::queries::field_query::collect::range_value;
use crate::document_core::queries::field_query::field_removal_support::{
    ctrls_before_text,
    offsets_for,
    rebuild_char_offsets,
};
use crate::encoding::{chars_of, push_char};
use crate::model::control::{guide_of, Control, FieldType};
use crate::document_core::DocumentCore;
use crate::model::document::{Document, Section};
use crate::model::paragraph::{FieldRange, Paragraph};
use crate::model::shape::{ShapeObject, TextBox};
use crate::model::table::{Cell, Table};
use crate::text::chars_equal_at;

verus! {

/// Range `fr` of `p` is that of a click-here field never filled in (bit 15
/// of its properties clear) whose text is still its non-empty guide text.
pub open spec fn is_initial_click_here(p: Paragraph, fr: FieldRange) -> bool {
    &&& fr.control_idx < p.controls@.len()
    &&& p.controls@[fr.control_idx as int] matches Control::Field(f)
    &&& f.field_type == FieldType::ClickHere
    &&& f.properties & 0x8000 == 0
    &&& guide_of(f.command@) matches Some(g)
    &&& g.len() > 0
    &&& range_value(p.text@, fr) == g
}

/// Character `x` of `p` lies in the range of one of the first `m` ranges
/// that hold an initial guide text.
pub open spec fn removed_by(p: Paragraph, x: int, m: int) -> bool
    decreases m,
{
    if m <= 0 || m > p.field_ranges@.len() {
        false
    } else {
        removed_by(p, x, m - 1) || (is_initial_click_here(p, p.field_ranges@[m - 1])
            && p.field_ranges@[m - 1].start_char_idx <= x < p.field_ranges@[m - 1].end_char_idx)
    }
}

/// Character `x` of `p` is part of an initial guide text, and goes.
pub open spec fn removed_at(p: Paragraph, x: int) -> bool {
    removed_by(p, x, p.field_ranges@.len() as int)
}

/// One of the first `m` ranges of `p` holds an initial guide text.
pub open spec fn any_initial_upto(p: Paragraph, m: int) -> bool
    decreases m,
{
    if m <= 0 || m > p.field_ranges@.len() {
        false
    } else {
        any_initial_upto(p, m - 1) || is_initial_click_here(p, p.field_ranges@[m - 1])
    }
}

/// Some range of `p` holds an initial guide text.
pub open spec fn any_initial(p: Paragraph) -> bool {
    any_initial_upto(p, p.field_ranges@.len() as int)
}

/// How many of the first `x` characters of `p` stay.
pub open spec fn kept_count(p: Paragraph, x: int) -> nat
    decreases x,
{
    if x <= 0 {
        0
    } else {
        kept_count(p, x - 1) + if removed_at(p, x - 1) {
            0nat
        } else {
            1nat
        }
    }
}

/// The characters that stay among the first `x` of `p`.
pub open spec fn kept_text(p: Paragraph, x: int) -> Seq<char>
    decreases x,
{
    if x <= 0 {
        Seq::empty()
    } else {
        kept_text(p, x - 1) + if removed_at(p, x - 1) {
            Seq::empty()
        } else {
            seq![p.text@[x - 1]]
        }
    }
}

/// Where position `x` of `p` lands once the guide texts are gone: `x` less
/// the removed characters before it.
pub open spec fn new_pos(p: Paragraph, x: usize) -> usize {
    let n = p.text@.len() as int;
    if x <= n {
        kept_count(p, x as int) as usize
    } else {
        (kept_count(p, n) + (x - n)) as usize
    }
}

/// The field ranges of `p` with both ends moved by `new_pos`.
pub open spec fn cleared_ranges(p: Paragraph) -> Seq<FieldRange> {
    Seq::new(
        p.field_ranges@.len(),
        |k: int|
            FieldRange {
                start_char_idx: new_pos(p, p.field_ranges@[k].start_char_idx),
                end_char_idx: new_pos(p, p.field_ranges@[k].end_char_idx),
                control_idx: p.field_ranges@[k].control_idx,
            },
    )
}

/// `b` is `a` with its own initial guide texts cleared: where there are
/// any, the text keeps only the other characters, both ends of every range
/// move by `new_pos` and the character offsets are rebuilt; where there are
/// none, the paragraph's text, ranges and offsets stay. Line segments stay.
pub open spec fn own_texts_cleared(a: Paragraph, b: Paragraph) -> bool {
    &&& b.line_segs == a.line_segs
    &&& b.ctrl_data_records == a.ctrl_data_records
    &&& if any_initial(a) {
        &&& b.text@ == kept_text(a, a.text@.len() as int)
        &&& b.field_ranges@ == cleared_ranges(a)
        &&& b.char_offsets@ == offsets_for(b.text@, b.field_ranges@, ctrls_before_text(a))
    } else {
        &&& b.text == a.text
        &&& b.field_ranges == a.field_ranges
        &&& b.char_offsets == a.char_offsets
    }
}

proof fn lemma_kept_count_le(p: Paragraph, x: int)
    requires
        0 <= x,
    ensures
        kept_count(p, x) <= x,
        kept_text(p, x).len() == kept_count(p, x),
    decreases x,
{
    if x > 0 {
        lemma_kept_count_le(p, x - 1);
    }
}

/// `kept_count` never goes down.
pub proof fn lemma_kept_count_monotone(p: Paragraph, x: int, y: int)
    requires
        x <= y,
    ensures
        kept_count(p, x) <= kept_count(p, y),
    decreases y - x,
{
    if x < y {
        lemma_kept_count_monotone(p, x, y - 1);
    }
}

proof fn lemma_new_pos_monotone(p: Paragraph, x: usize, y: usize)
    requires
        x <= y,
    ensures
        new_pos(p, x) <= new_pos(p, y),
        new_pos(p, x) <= x,
{
    let n = p.text@.len() as int;
    lemma_kept_count_le(p, x as int);
    lemma_kept_count_le(p, y as int);
    lemma_kept_count_le(p, n);
    lemma_kept_count_monotone(p, x as int, y as int);
    if x <= n {
        lemma_kept_count_monotone(p, x as int, n);
    }
}

proof fn lemma_removed_by_includes(p: Paragraph, x: int, k: int, m: int)
    requires
        0 <= k < m <= p.field_ranges@.len(),
        is_initial_click_here(p, p.field_ranges@[k]),
        p.field_ranges@[k].start_char_idx <= x < p.field_ranges@[k].end_char_idx,
    ensures
        removed_by(p, x, m),
    decreases m,
{
    if m > k + 1 {
        lemma_removed_by_includes(p, x, k, m - 1);
    }
}

proof fn lemma_kept_count_flat(p: Paragraph, k: int, y: int)
    requires
        0 <= k < p.field_ranges@.len(),
        is_initial_click_here(p, p.field_ranges@[k]),
        p.field_ranges@[k].start_char_idx <= y <= p.field_ranges@[k].end_char_idx,
    ensures
        kept_count(p, y) == kept_count(p, p.field_ranges@[k].start_char_idx as int),
    decreases y - p.field_ranges@[k].start_char_idx,
{
    if y > p.field_ranges@[k].start_char_idx {
        lemma_kept_count_flat(p, k, y - 1);
        lemma_removed_by_includes(p, y - 1, k, p.field_ranges@.len() as int);
    }
}

/// Clearing the guide texts never turns a field range around: a range
/// whose start is not after its end still has its start not after its end.
pub proof fn lemma_cleared_ranges_ordered(p: Paragraph, k: int)
    requires
        0 <= k < p.field_ranges@.len(),
        p.field_ranges@[k].start_char_idx <= p.field_ranges@[k].end_char_idx,
    ensures
        cleared_ranges(p)[k].start_char_idx <= cleared_ranges(p)[k].end_char_idx,
{
    lemma_new_pos_monotone(p, p.field_ranges@[k].start_char_idx, p.field_ranges@[k].end_char_idx);
}

/// A field whose guide text is cleared is left empty: both ends of its
/// range land on one position.
pub proof fn lemma_initial_ranges_collapse(p: Paragraph, k: int)
    requires
        0 <= k < p.field_ranges@.len(),
        is_initial_click_here(p, p.field_ranges@[k]),
    ensures
        cleared_ranges(p)[k].start_char_idx == cleared_ranges(p)[k].end_char_idx,
{
    let fr = p.field_ranges@[k];
    lemma_kept_count_flat(p, k, fr.end_char_idx as int);
}

/// A field range that ends inside the text still ends inside the text once
/// the guide texts are cleared.
pub proof fn lemma_cleared_ranges_in_text(p: Paragraph, k: int)
    requires
        0 <= k < p.field_ranges@.len(),
        p.field_ranges@[k].end_char_idx <= p.text@.len(),
    ensures
        cleared_ranges(p)[k].end_char_idx <= kept_text(p, p.text@.len() as int).len(),
{
    let n = p.text@.len() as int;
    lemma_kept_count_le(p, n);
    lemma_kept_count_le(p, p.field_ranges@[k].end_char_idx as int);
    lemma_kept_count_monotone(p, p.field_ranges@[k].end_char_idx as int, n);
}

/// Whether range `fr` of `para` holds an initial guide text (`chars` are
/// the characters of its text).
fn initial_click_here(para: &Paragraph, fr: FieldRange, chars: &Vec<char>) -> (b: bool)
    requires
        chars@ == para.text@,
    ensures
        b == is_initial_click_here(*para, fr),
{
    if fr.control_idx >= para.controls.len() {
        return false;
    }
    match &para.controls[fr.control_idx] {
        Control::Field(f) => {
            if f.field_type != FieldType::ClickHere || f.properties & 0x8000 != 0 {
                return false;
            }
            match f.guide_text() {
                None => false,
                Some(g) => {
                    let gc = chars_of(g);
                    if gc.len() == 0 || fr.start_char_idx >= fr.end_char_idx || fr.end_char_idx > chars.len() {
                        return false;
                    }
                    if fr.end_char_idx - fr.start_char_idx != gc.len() {
                        return false;
                    }
                    chars_equal_at(chars.as_slice(), fr.start_char_idx, gc.as_slice())
                },
            }
        },
        _ => false,
    }
}

/// Marks, for each character of `para`, whether it is part of an initial
/// guide text; tells whether any range holds one.
#[verifier::loop_isolation(false)]
fn mark_initial_texts(para: &Paragraph, chars: &Vec<char>) -> (r: (Vec<bool>, bool))
    requires
        chars@ == para.text@,
    ensures
        r.0@.len() == chars@.len(),
        forall|x: int| 0 <= x < chars@.len() ==> #[trigger] r.0@[x] == removed_at(*para, x),
        r.1 == any_initial(*para),
{
    let n = chars.len();
    let mut marks: Vec<bool> = Vec::new();
    let mut i: usize = 0;
    while i < n
        invariant
            i <= n,
            marks@.len() == i,
            forall|x: int| 0 <= x < i ==> !#[trigger] marks@[x],
        decreases n - i,
    {
        marks.push(false);
        i = i + 1;
    }
    let nr = para.field_ranges.len();
    let mut any = false;
    let mut k: usize = 0;
    while k < nr
        invariant
            k <= nr,
            nr == para.field_ranges@.len(),
            marks@.len() == n,
            forall|x: int| 0 <= x < n ==> #[trigger] marks@[x] == removed_by(*para, x, k as int),
            any == any_initial_upto(*para, k as int),
        decreases nr - k,
    {
        let fr = para.field_ranges[k];
        if initial_click_here(para, fr, chars) {
            let mut x = fr.start_char_idx;
            while x < fr.end_char_idx
                invariant
                    fr.start_char_idx <= x <= fr.end_char_idx,
                    fr.end_char_idx <= n,
                    marks@.len() == n,
                    forall|y: int|
                        0 <= y < n ==> #[trigger] marks@[y] == (removed_by(*para, y, k as int) || (
                        fr.start_char_idx <= y < x)),
                decreases fr.end_char_idx - x,
            {
                marks.set(x, true);
                x = x + 1;
            }
            any = true;
        }
        k = k + 1;
    }
    (marks, any)
}

/// Clears the initial guide texts of `para` itself (see
/// `own_texts_cleared`); its controls stay.
pub fn clear_own_initial_texts(para: &mut Paragraph)
    ensures
        own_texts_cleared(*old(para), *final(para)),
        final(para).controls == old(para).controls,
{
    let ghost p0 = *para;
    let chars = chars_of(para.text.as_str());
    let n = chars.len();
    let (marks, any) = mark_initial_texts(para, &chars);
    if !any {
        return;
    }
    let mut text = String::new();
    let mut kept_before: Vec<usize> = Vec::new();
    let mut cnt: usize = 0;
    let mut x: usize = 0;
    while x < n
        invariant
            x <= n,
            n == p0.text@.len(),
            chars@ == p0.text@,
            marks@.len() == n,
            forall|y: int| 0 <= y < n ==> #[trigger] marks@[y] == removed_at(p0, y),
            cnt == kept_count(p0, x as int),
            cnt <= x,
            text@ == kept_text(p0, x as int),
            kept_before@.len() == x,
            forall|y: int| 0 <= y < x ==> #[trigger] kept_before@[y] == kept_count(p0, y),
        decreases n - x,
    {
        kept_before.push(cnt);
        if !marks[x] {
            push_char(&mut text, chars[x]);
            cnt = cnt + 1;
        }
        x = x + 1;
    }
    kept_before.push(cnt);
    let nr = para.field_ranges.len();
    let mut k: usize = 0;
    while k < nr
        invariant
            k <= nr,
            nr == p0.field_ranges@.len(),
            n == p0.text@.len(),
            cnt == kept_count(p0, n as int),
            cnt <= n,
            kept_before@.len() == n + 1,
            forall|y: int| 0 <= y <= n ==> #[trigger] kept_before@[y] == kept_count(p0, y),
            para.field_ranges@.len() == nr,
            forall|j: int| 0 <= j < k ==> #[trigger] para.field_ranges@[j] == cleared_ranges(p0)[j],
            forall|j: int| k <= j < nr ==> #[trigger] para.field_ranges@[j] == p0.field_ranges@[j],
            para.text == p0.text,
            para.controls == p0.controls,
            para.char_offsets == p0.char_offsets,
            para.line_segs == p0.line_segs,
            para.ctrl_data_records == p0.ctrl_data_records,
        decreases nr - k,
    {
        let fr = para.field_ranges[k];
        let s = if fr.start_char_idx <= n {
            kept_before[fr.start_char_idx]
        } else {
            cnt + (fr.start_char_idx - n)
        };
        let e = if fr.end_char_idx <= n {
            kept_before[fr.end_char_idx]
        } else {
            cnt + (fr.end_char_idx - n)
        };
        para.field_ranges.set(k, FieldRange { start_char_idx: s, end_char_idx: e, control_idx: fr.control_idx });
        k = k + 1;
    }
    assert(para.field_ranges@ =~= cleared_ranges(p0));
    assert(ctrls_before_text(*para) == ctrls_before_text(p0));
    para.text = text;
    rebuild_char_offsets(para);
}

/// `b` is `a` with the initial guide texts cleared in it and, recursively,
/// in the paragraphs of its tables and text boxes.
pub open spec fn para_cleared(a: Paragraph, b: Paragraph) -> bool
    decreases a, a.controls@.len() + 1,
{
    &&& own_texts_cleared(a, b)
    &&& b.controls@.len() == a.controls@.len()
    &&& controls_cleared(a, b, a.controls@.len() as int)
}

/// The first `n` controls of `b` are those of `a`, cleared.
pub open spec fn controls_cleared(a: Paragraph, b: Paragraph, n: int) -> bool
    decreases a, n,
{
    if n <= 0 || n > a.controls@.len() {
        true
    } else {
        controls_cleared(a, b, n - 1) && control_cleared(a.controls@[n - 1], b.controls@[n - 1])
    }
}

/// Control `cb` is `ca` with the paragraphs of its table cells or its text
/// box cleared; any other control stays.
pub open spec fn control_cleared(ca: Control, cb: Control) -> bool
    decreases ca, 0int,
{
    match ca {
        Control::Table(ta) => match cb {
            Control::Table(tb) => {
                &&& tb.row_count == ta.row_count
                &&& tb.col_count == ta.col_count
                &&& tb.cells@.len() == ta.cells@.len()
                &&& cells_cleared(*ta, *tb, ta.cells@.len() as int)
            },
            _ => false,
        },
        Control::Shape(sa) => match cb {
            Control::Shape(sb) => match (sa.drawing_attr(), sb.drawing_attr()) {
                (Some(da), Some(db)) => match (da.text_box, db.text_box) {
                    (Some(xa), Some(xb)) => {
                        &&& xb.paragraphs@.len() == xa.paragraphs@.len()
                        &&& tb_cleared(xa, xb, xa.paragraphs@.len() as int)
                    },
                    (None, None) => true,
                    _ => false,
                },
                (None, None) => sb == sa,
                _ => false,
            },
            _ => false,
        },
        _ => cb == ca,
    }
}

/// The first `n` cells of `tb` are those of `ta`, cleared.
pub open spec fn cells_cleared(ta: Table, tb: Table, n: int) -> bool
    decreases ta, n,
{
    if n <= 0 || n > ta.cells@.len() {
        true
    } else {
        cells_cleared(ta, tb, n - 1) && cell_cleared(ta.cells@[n - 1], tb.cells@[n - 1])
    }
}

/// Cell `b` is `a` with its paragraphs cleared.
pub open spec fn cell_cleared(a: Cell, b: Cell) -> bool
    decreases a, a.paragraphs@.len() + 1,
{
    &&& b.col == a.col
    &&& b.row == a.row
    &&& b.col_span == a.col_span
    &&& b.row_span == a.row_span
    &&& b.width == a.width
    &&& b.height == a.height
    &&& b.border_fill_id == a.border_fill_id
    &&& b.text_direction == a.text_direction
    &&& b.field_name == a.field_name
    &&& b.paragraphs@.len() == a.paragraphs@.len()
    &&& cell_paras_cleared(a, b, a.paragraphs@.len() as int)
}

/// The first `n` paragraphs of cell `b` are those of `a`, cleared.
pub open spec fn cell_paras_cleared(a: Cell, b: Cell, n: int) -> bool
    decreases a, n,
{
    if n <= 0 || n > a.paragraphs@.len() {
        true
    } else {
        cell_paras_cleared(a, b, n - 1) && para_cleared(a.paragraphs@[n - 1], b.paragraphs@[n - 1])
    }
}

/// The first `n` paragraphs of text box `b` are those of `a`, cleared.
pub open spec fn tb_cleared(a: TextBox, b: TextBox, n: int) -> bool
    decreases a, n,
{
    if n <= 0 || n > a.paragraphs@.len() {
        true
    } else {
        tb_cleared(a, b, n - 1) && para_cleared(a.paragraphs@[n - 1], b.paragraphs@[n - 1])
    }
}

/// Document `b` is `a` with the initial guide texts cleared in every
/// paragraph, nested ones included; the raw streams stay.
pub open spec fn doc_cleared(a: Document, b: Document) -> bool {
    &&& b.doc_info == a.doc_info
    &&& b.bin_data_content == a.bin_data_content
    &&& b.sections@.len() == a.sections@.len()
    &&& forall|si: int| 0 <= si < a.sections@.len() ==> #[trigger] section_cleared(a.sections@[si], b.sections@[si])
}

/// Section `b` is `a` with every paragraph cleared.
pub open spec fn section_cleared(a: Section, b: Section) -> bool {
    &&& b.raw_stream == a.raw_stream
    &&& b.paragraphs@.len() == a.paragraphs@.len()
    &&& forall|pi: int| 0 <= pi < a.paragraphs@.len() ==> #[trigger] para_cleared(a.paragraphs@[pi], b.paragraphs@[pi])
}

/// Clears the initial guide texts of `para` and of the paragraphs inside
/// its tables and text boxes.
pub fn clear_para_initial_texts(para: &mut Paragraph)
    ensures
        para_cleared(*old(para), *final(para)),
    decreases *old(para), old(para).controls@.len() + 1,
{
    let ghost p0 = *para;
    clear_own_initial_texts(para);
    let ghost p1 = *para;
    let n = para.controls.len();
    let mut ci: usize = 0;
    while ci < n
        invariant
            ci <= n,
            n == p0.controls@.len(),
            p0 == *old(para),
            own_texts_cleared(p0, *para),
            para.controls@.len() == n,
            controls_cleared(p0, *para, ci as int),
            forall|j: int| ci <= j < n ==> #[trigger] para.controls@[j] == p0.controls@[j],
        decreases n - ci,
    {
        let ghost before = *para;
        proof {
            assert(para.controls@[ci as int] == p0.controls@[ci as int]);
            assert(decreases_to!(p0 => p0.controls));
            assert(decreases_to!(p0.controls => p0.controls@));
            assert(decreases_to!(p0.controls@ => p0.controls@[ci as int]));
            assert(decreases_to!(p0 => p0.controls@[ci as int]));
        }
        clear_control_initial_texts(&mut para.controls[ci]);
        proof {
            assert forall|j: int| 0 <= j < ci implies #[trigger] para.controls@[j] == before.controls@[j] by {}
            lemma_controls_cleared_same_prefix(p0, before, *para, ci as int);
        }
        ci = ci + 1;
    }
}

proof fn lemma_controls_cleared_same_prefix(a: Paragraph, b: Paragraph, c: Paragraph, n: int)
    requires
        0 <= n,
        controls_cleared(a, b, n),
        forall|j: int| 0 <= j < n ==> #[trigger] c.controls@[j] == b.controls@[j],
    ensures
        controls_cleared(a, c, n),
    decreases n,
{
    if n > 0 && n <= a.controls@.len() {
        lemma_controls_cleared_same_prefix(a, b, c, n - 1);
    }
}

proof fn lemma_cells_cleared_same_prefix(a: Table, b: Table, c: Table, n: int)
    requires
        0 <= n,
        cells_cleared(a, b, n),
        forall|j: int| 0 <= j < n ==> #[trigger] c.cells@[j] == b.cells@[j],
    ensures
        cells_cleared(a, c, n),
    decreases n,
{
    if n > 0 && n <= a.cells@.len() {
        lemma_cells_cleared_same_prefix(a, b, c, n - 1);
    }
}

proof fn lemma_cell_paras_cleared_same_prefix(a: Cell, b: Cell, c: Cell, n: int)
    requires
        0 <= n,
        cell_paras_cleared(a, b, n),
        forall|j: int| 0 <= j < n ==> #[trigger] c.paragraphs@[j] == b.paragraphs@[j],
    ensures
        cell_paras_cleared(a, c, n),
    decreases n,
{
    if n > 0 && n <= a.paragraphs@.len() {
        lemma_cell_paras_cleared_same_prefix(a, b, c, n - 1);
    }
}

proof fn lemma_tb_cleared_same_prefix(a: TextBox, b: TextBox, c: TextBox, n: int)
    requires
        0 <= n,
        tb_cleared(a, b, n),
        forall|j: int| 0 <= j < n ==> #[trigger] c.paragraphs@[j] == b.paragraphs@[j],
    ensures
        tb_cleared(a, c, n),
    decreases n,
{
    if n > 0 && n <= a.paragraphs@.len() {
        lemma_tb_cleared_same_prefix(a, b, c, n - 1);
    }
}

/// Clears the initial guide texts in the paragraphs of a table's cells or
/// of a text box.
fn clear_control_initial_texts(c: &mut Control)
    ensures
        control_cleared(*old(c), *final(c)),
    decreases *old(c), 0int,
{
    match c {
        Control::Table(t) => {
            let ghost t0 = **t;
            proof {
                assert(decreases_to!(*old(c) => t0));
            }
            let n = t.cells.len();
            let mut cj: usize = 0;
            while cj < n
                invariant
                    cj <= n,
                    n == t0.cells@.len(),
                    t.row_count == t0.row_count,
                    t.col_count == t0.col_count,
                    t.cells@.len() == n,
                    cells_cleared(t0, **t, cj as int),
                    decreases_to!(*old(c) => t0),
                    forall|j: int| cj <= j < n ==> #[trigger] t.cells@[j] == t0.cells@[j],
                decreases n - cj,
            {
                let ghost before = **t;
                proof {
                    assert(t.cells@[cj as int] == t0.cells@[cj as int]);
                    assert(decreases_to!(t0 => t0.cells));
                    assert(decreases_to!(t0.cells => t0.cells@));
                    assert(decreases_to!(t0.cells@ => t0.cells@[cj as int]));
                    assert(decreases_to!(*old(c) => t0.cells@[cj as int]));
                }
                clear_cell_initial_texts(&mut t.cells[cj]);
                proof {
                    lemma_cells_cleared_same_prefix(t0, before, **t, cj as int);
                }
                cj = cj + 1;
            }
        },
        Control::Shape(s) => if s.drawing().is_some() {
            if let ShapeObject::Drawing(d) = &mut **s {
                match &mut d.text_box {
                    Some(tb) => {
                        let ghost x0 = *tb;
                        proof {
                            assert(decreases_to!(*old(c) => x0));
                        }
                        let n = tb.paragraphs.len();
                        let mut k: usize = 0;
                        while k < n
                            invariant
                                k <= n,
                                n == x0.paragraphs@.len(),
                                tb.paragraphs@.len() == n,
                                tb_cleared(x0, *tb, k as int),
                                decreases_to!(*old(c) => x0),
                                forall|j: int| k <= j < n ==> #[trigger] tb.paragraphs@[j] == x0.paragraphs@[j],
                            decreases n - k,
                        {
                            let ghost before = *tb;
                            proof {
                                assert(tb.paragraphs@[k as int] == x0.paragraphs@[k as int]);
                                assert(decreases_to!(x0 => x0.paragraphs));
                                assert(decreases_to!(x0.paragraphs => x0.paragraphs@));
                                assert(decreases_to!(x0.paragraphs@ => x0.paragraphs@[k as int]));
                                assert(decreases_to!(*old(c) => x0.paragraphs@[k as int]));
                            }
                            clear_para_initial_texts(&mut tb.paragraphs[k]);
                            proof {
                                lemma_tb_cleared_same_prefix(x0, before, *tb, k as int);
                            }
                            k = k + 1;
                        }
                    },
                    None => {},
                }
            }
        },
        _ => {},
    }
}

/// Clears the initial guide texts in the paragraphs of a cell.
fn clear_cell_initial_texts(cell: &mut Cell)
    ensures
        cell_cleared(*old(cell), *final(cell)),
    decreases *old(cell), old(cell).paragraphs@.len() + 1,
{
    let ghost c0 = *cell;
    let n = cell.paragraphs.len();
    let mut k: usize = 0;
    while k < n
        invariant
            k <= n,
            n == c0.paragraphs@.len(),
            cell.paragraphs@.len() == n,
            cell.col == c0.col,
            cell.row == c0.row,
            cell.col_span == c0.col_span,
            cell.row_span == c0.row_span,
            cell.width == c0.width,
            cell.height == c0.height,
            cell.border_fill_id == c0.border_fill_id,
            cell.text_direction == c0.text_direction,
            cell.field_name == c0.field_name,
            cell_paras_cleared(c0, *cell, k as int),
            c0 == *old(cell),
            forall|j: int| k <= j < n ==> #[trigger] cell.paragraphs@[j] == c0.paragraphs@[j],
        decreases n - k,
    {
        let ghost before = *cell;
        proof {
            assert(cell.paragraphs@[k as int] == c0.paragraphs@[k as int]);
            assert(decreases_to!(c0 => c0.paragraphs));
            assert(decreases_to!(c0.paragraphs => c0.paragraphs@));
            assert(decreases_to!(c0.paragraphs@ => c0.paragraphs@[k as int]));
            assert(decreases_to!(c0 => c0.paragraphs@[k as int]));
        }
        clear_para_initial_texts(&mut cell.paragraphs[k]);
        proof {
            lemma_cell_paras_cleared_same_prefix(c0, before, *cell, k as int);
        }
        k = k + 1;
    }
}

impl DocumentCore {
    /// Clears, throughout `doc`, the guide text that each untouched
    /// click-here field holds as its text (see `para_cleared`), so that the
    /// field shows as empty; the raw streams stay.
    pub fn clear_initial_field_texts(doc: &mut Document)
        ensures
            doc_cleared(*old(doc), *final(doc)),
    {
        let ghost d0 = *doc;
        let ns = doc.sections.len();
        let mut si: usize = 0;
        while si < ns
            invariant
                si <= ns,
                ns == d0.sections@.len(),
                doc.sections@.len() == ns,
                doc.bin_data_content == d0.bin_data_content,
                doc.doc_info == d0.doc_info,
                forall|j: int| 0 <= j < si ==> #[trigger] section_cleared(d0.sections@[j], doc.sections@[j]),
                forall|j: int| si <= j < ns ==> #[trigger] doc.sections@[j] == d0.sections@[j],
            decreases ns - si,
        {
            clear_section_initial_texts(&mut doc.sections[si]);
            si = si + 1;
        }
    }
}

/// Clears the initial guide texts in every paragraph of a section.
fn clear_section_initial_texts(sec: &mut Section)
    ensures
        section_cleared(*old(sec), *final(sec)),
{
    let ghost s0 = *sec;
    let np = sec.paragraphs.len();
    let mut pi: usize = 0;
    while pi < np
        invariant
            pi <= np,
            np == s0.paragraphs@.len(),
            sec.paragraphs@.len() == np,
            sec.raw_stream == s0.raw_stream,
            forall|j: int| 0 <= j < pi ==> #[trigger] para_cleared(s0.paragraphs@[j], sec.paragraphs@[j]),
            forall|j: int| pi <= j < np ==> #[trigger] sec.paragraphs@[j] == s0.paragraphs@[j],
        decreases np - pi,
    {
        clear_para_initial_texts(&mut sec.paragraphs[pi]);
        pi = pi + 1;
    }
}

} // verus!
