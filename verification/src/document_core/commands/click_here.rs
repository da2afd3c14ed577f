//! Changing the properties of a click-here field: its guide text and memo,
//! whether it can be edited in a form, and its name (kept in the field and
//! in the CTRL_DATA record of its control).

use vstd::prelude::*;
use crate::document_core::{active_view, DocumentCore};
use crate::document_core::queries::field_query::NestedEntry;
use crate::document_core::queries::field_query::lookup::or_empty;
use crate::document_core::queries::field_query::navigation::{
    clear_raw_stream,
    lemma_doc_replaced_reaches_leaf,
    loc_para,
    loc_para_mut,
    para_at_path,
    replaced_at_path,
    seq_same_but,
    step,
};
use crate::encoding::chars_of;
use crate::model::control::{clickhere_command, guide_of, memo_of, Control, Field, FieldType, FieldView};
use crate::model::document::{Document, Section};
use crate::model::paragraph::Paragraph;
use crate::model::table::Cell;
use crate::serializer::byte_writer::{hwp_string_bytes, ByteWriter};
use crate::text::chars_eq;

verus! {

/// Whether `c` is the click-here field with ID `fid`.
pub open spec fn is_click_here(c: Control, fid: u32) -> bool {
    c matches Control::Field(f) && f.field_id == fid && f.field_type == FieldType::ClickHere
}

/// The first index at or after `k` of the click-here field `fid` among
/// the controls `cs`.
pub open spec fn target_from(cs: Seq<Control>, fid: u32, k: int) -> Option<int>
    decreases cs.len() - k,
{
    if k < 0 || k >= cs.len() {
        None
    } else if is_click_here(cs[k], fid) {
        Some(k)
    } else {
        target_from(cs, fid, k + 1)
    }
}

/// The control index of the click-here field `fid` in paragraph `p`.
pub open spec fn para_target(p: Paragraph, fid: u32) -> Option<int> {
    target_from(p.controls@, fid, 0)
}

/// The first paragraph at or after `k` of `ps` that holds the field.
pub open spec fn paras_hit_from(ps: Seq<Paragraph>, fid: u32, k: int) -> Option<int>
    decreases ps.len() - k,
{
    if k < 0 || k >= ps.len() {
        None
    } else if para_target(ps[k], fid) is Some {
        Some(k)
    } else {
        paras_hit_from(ps, fid, k + 1)
    }
}

/// The first cell at or after `j` of `cells` with a paragraph that holds
/// the field, and that paragraph.
pub open spec fn cells_hit_from(cells: Seq<Cell>, fid: u32, j: int) -> Option<(int, int)>
    decreases cells.len() - j,
{
    if j < 0 || j >= cells.len() {
        None
    } else {
        match paras_hit_from(cells[j].paragraphs@, fid, 0) {
            Some(k) => Some((j, k)),
            None => cells_hit_from(cells, fid, j + 1),
        }
    }
}

/// The step into the paragraph of control `c` (at index `ci`) that holds
/// the field: a cell paragraph of a table, or a paragraph of the text box
/// of a drawing object.
pub open spec fn control_hit(c: Control, ci: int, fid: u32) -> Option<NestedEntry> {
    match c {
        Control::Table(t) => match cells_hit_from(t.cells@, fid, 0) {
            Some((j, k)) => Some(
                NestedEntry::TableCell { control_index: ci as usize, cell_index: j as usize, para_index: k as usize },
            ),
            None => None,
        },
        Control::Shape(s) => match s.drawing_attr() {
            Some(d) => match d.text_box {
                Some(tb) => match paras_hit_from(tb.paragraphs@, fid, 0) {
                    Some(k) => Some(NestedEntry::TextBox { control_index: ci as usize, para_index: k as usize }),
                    None => None,
                },
                None => None,
            },
            None => None,
        },
        _ => None,
    }
}

/// The first control at or after `ci` of `cs` whose cells or text box hold
/// the field, as the step into that paragraph.
pub open spec fn controls_hit_from(cs: Seq<Control>, fid: u32, ci: int) -> Option<NestedEntry>
    decreases cs.len() - ci,
{
    if ci < 0 || ci >= cs.len() {
        None
    } else {
        match control_hit(cs[ci], ci, fid) {
            Some(e) => Some(e),
            None => controls_hit_from(cs, fid, ci + 1),
        }
    }
}

/// Where the field is found from paragraph `p`: in `p` itself (the empty
/// path), else in the cells or text box of its first control that holds it.
pub open spec fn para_hit(p: Paragraph, fid: u32) -> Option<Seq<NestedEntry>> {
    if para_target(p, fid) is Some {
        Some(Seq::empty())
    } else {
        match controls_hit_from(p.controls@, fid, 0) {
            Some(e) => Some(seq![e]),
            None => None,
        }
    }
}

/// The first paragraph at or after `k` of `ps` from which the field is
/// found, and the path to it.
pub open spec fn paras_slot_from(ps: Seq<Paragraph>, fid: u32, k: int) -> Option<(int, Seq<NestedEntry>)>
    decreases ps.len() - k,
{
    if k < 0 || k >= ps.len() {
        None
    } else {
        match para_hit(ps[k], fid) {
            Some(path) => Some((k, path)),
            None => paras_slot_from(ps, fid, k + 1),
        }
    }
}

/// Whether `fid` is the click-here field at control `ci`.
fn is_target(c: &Control, fid: u32) -> (r: bool)
    ensures
        r == is_click_here(*c, fid),
{
    match c {
        Control::Field(f) => f.field_id == fid && f.field_type == FieldType::ClickHere,
        _ => false,
    }
}

/// The control index of the click-here field `fid` in `p`.
pub(crate) fn find_target(p: &Paragraph, fid: u32) -> (r: Option<usize>)
    ensures
        match r {
            Some(k) => para_target(*p, fid) == Some(k as int),
            None => para_target(*p, fid) is None,
        },
{
    let n = p.controls.len();
    let mut k: usize = 0;
    while k < n
        invariant
            k <= n,
            n == p.controls@.len(),
            target_from(p.controls@, fid, 0) == target_from(p.controls@, fid, k as int),
        decreases n - k,
    {
        if is_target(&p.controls[k], fid) {
            return Some(k);
        }
        k = k + 1;
    }
    None
}

/// The first paragraph of `ps` that holds the field.
fn find_in_paras(ps: &Vec<Paragraph>, fid: u32) -> (r: Option<usize>)
    ensures
        match r {
            Some(k) => paras_hit_from(ps@, fid, 0) == Some(k as int),
            None => paras_hit_from(ps@, fid, 0) is None,
        },
{
    let n = ps.len();
    let mut k: usize = 0;
    while k < n
        invariant
            k <= n,
            n == ps@.len(),
            paras_hit_from(ps@, fid, 0) == paras_hit_from(ps@, fid, k as int),
        decreases n - k,
    {
        if find_target(&ps[k], fid).is_some() {
            return Some(k);
        }
        k = k + 1;
    }
    None
}

/// The first cell of `cells` with a paragraph that holds the field.
fn find_in_cells(cells: &Vec<Cell>, fid: u32) -> (r: Option<(usize, usize)>)
    ensures
        match r {
            Some((j, k)) => cells_hit_from(cells@, fid, 0) == Some((j as int, k as int)),
            None => cells_hit_from(cells@, fid, 0) is None,
        },
{
    let n = cells.len();
    let mut j: usize = 0;
    while j < n
        invariant
            j <= n,
            n == cells@.len(),
            cells_hit_from(cells@, fid, 0) == cells_hit_from(cells@, fid, j as int),
        decreases n - j,
    {
        match find_in_paras(&cells[j].paragraphs, fid) {
            Some(k) => {
                return Some((j, k));
            },
            None => {},
        }
        j = j + 1;
    }
    None
}

/// The step into the paragraph of control `c` that holds the field.
fn find_in_control(c: &Control, ci: usize, fid: u32) -> (r: Option<NestedEntry>)
    ensures
        r == control_hit(*c, ci as int, fid),
{
    match c {
        Control::Table(t) => match find_in_cells(&t.cells, fid) {
            Some((j, k)) => Some(NestedEntry::TableCell { control_index: ci, cell_index: j, para_index: k }),
            None => None,
        },
        Control::Shape(s) => match s.drawing() {
            Some(d) => match &d.text_box {
                Some(tb) => match find_in_paras(&tb.paragraphs, fid) {
                    Some(k) => Some(NestedEntry::TextBox { control_index: ci, para_index: k }),
                    None => None,
                },
                None => None,
            },
            None => None,
        },
        _ => None,
    }
}

/// Where the field is found from paragraph `p` (see `para_hit`).
fn find_from_para(p: &Paragraph, fid: u32) -> (r: Option<Vec<NestedEntry>>)
    ensures
        match r {
            Some(path) => para_hit(*p, fid) == Some(path@),
            None => para_hit(*p, fid) is None,
        },
{
    if find_target(p, fid).is_some() {
        let path: Vec<NestedEntry> = Vec::new();
        assert(path@ =~= Seq::<NestedEntry>::empty());
        return Some(path);
    }
    let n = p.controls.len();
    let mut ci: usize = 0;
    while ci < n
        invariant
            ci <= n,
            n == p.controls@.len(),
            controls_hit_from(p.controls@, fid, 0) == controls_hit_from(p.controls@, fid, ci as int),
            para_target(*p, fid) is None,
        decreases n - ci,
    {
        match find_in_control(&p.controls[ci], ci, fid) {
            Some(e) => {
                let mut path: Vec<NestedEntry> = Vec::new();
                path.push(e);
                assert(path@ =~= seq![e]);
                return Some(path);
            },
            None => {},
        }
        ci = ci + 1;
    }
    None
}

/// The first paragraph of `ps` from which the field is found, and the
/// path to it.
pub(crate) fn find_slot(ps: &Vec<Paragraph>, fid: u32) -> (r: Option<(usize, Vec<NestedEntry>)>)
    ensures
        match r {
            Some((k, path)) => paras_slot_from(ps@, fid, 0) == Some((k as int, path@)),
            None => paras_slot_from(ps@, fid, 0) is None,
        },
{
    let n = ps.len();
    let mut k: usize = 0;
    while k < n
        invariant
            k <= n,
            n == ps@.len(),
            paras_slot_from(ps@, fid, 0) == paras_slot_from(ps@, fid, k as int),
        decreases n - k,
    {
        match find_from_para(&ps[k], fid) {
            Some(path) => {
                return Some((k, path));
            },
            None => {},
        }
        k = k + 1;
    }
    None
}

/// The first section at or after `si` of `ss` from which the field is
/// found: the section, the paragraph and the path to the paragraph that
/// holds it.
pub open spec fn sections_slot_from(ss: Seq<Section>, fid: u32, si: int) -> Option<(int, int, Seq<NestedEntry>)>
    decreases ss.len() - si,
{
    if si < 0 || si >= ss.len() {
        None
    } else {
        match paras_slot_from(ss[si].paragraphs@, fid, 0) {
            Some((pi, path)) => Some((si, pi, path)),
            None => sections_slot_from(ss, fid, si + 1),
        }
    }
}

/// Where the click-here field `fid` is found in `doc`: the section
/// paragraphs in order, each before the cell and text box paragraphs of
/// its controls.
pub open spec fn click_here_location(doc: Document, fid: u32) -> Option<(int, int, Seq<NestedEntry>)> {
    sections_slot_from(doc.sections@, fid, 0)
}

proof fn lemma_target(cs: Seq<Control>, fid: u32, k: int)
    requires
        target_from(cs, fid, k) is Some,
    ensures
        target_from(cs, fid, k) matches Some(m) && 0 <= m < cs.len() && is_click_here(cs[m], fid),
    decreases cs.len() - k,
{
    if !is_click_here(cs[k], fid) {
        lemma_target(cs, fid, k + 1);
    }
}

proof fn lemma_paras_hit(ps: Seq<Paragraph>, fid: u32, k: int)
    requires
        paras_hit_from(ps, fid, k) is Some,
    ensures
        paras_hit_from(ps, fid, k) matches Some(m) && 0 <= m < ps.len() && para_target(ps[m], fid) is Some,
    decreases ps.len() - k,
{
    if k >= 0 && k < ps.len() && para_target(ps[k], fid) is None {
        lemma_paras_hit(ps, fid, k + 1);
    }
}

proof fn lemma_cells_hit(cells: Seq<Cell>, fid: u32, j: int)
    requires
        cells_hit_from(cells, fid, j) is Some,
    ensures
        cells_hit_from(cells, fid, j) matches Some((a, b)) && 0 <= a < cells.len() && 0 <= b
            < cells[a].paragraphs@.len() && para_target(cells[a].paragraphs@[b], fid) is Some,
    decreases cells.len() - j,
{
    if paras_hit_from(cells[j].paragraphs@, fid, 0) is Some {
        lemma_paras_hit(cells[j].paragraphs@, fid, 0);
    } else {
        lemma_cells_hit(cells, fid, j + 1);
    }
}

proof fn lemma_controls_hit(p: Paragraph, fid: u32, ci: int)
    requires
        controls_hit_from(p.controls@, fid, ci) is Some,
    ensures
        step(p, controls_hit_from(p.controls@, fid, ci)->0) matches Some(q) && para_target(q, fid) is Some,
    decreases p.controls@.len() - ci,
{
    let c = p.controls@[ci];
    match control_hit(c, ci, fid) {
        Some(e) => {
            assert(p.controls.len() == p.controls@.len());
            match c {
                Control::Table(t) => {
                    lemma_cells_hit(t.cells@, fid, 0);
                    let (a, b) = cells_hit_from(t.cells@, fid, 0)->0;
                    assert(t.cells.len() == t.cells@.len());
                    assert(t.cells@[a].paragraphs.len() == t.cells@[a].paragraphs@.len());
                    assert((a as usize) as int == a && (b as usize) as int == b);
                    assert((ci as usize) as int == ci);
                },
                Control::Shape(sh) => {
                    let tb = sh.drawing_attr()->0.text_box->0;
                    lemma_paras_hit(tb.paragraphs@, fid, 0);
                    let k = paras_hit_from(tb.paragraphs@, fid, 0)->0;
                    assert(tb.paragraphs.len() == tb.paragraphs@.len());
                    assert((k as usize) as int == k);
                    assert((ci as usize) as int == ci);
                },
                _ => {},
            }
        },
        None => {
            lemma_controls_hit(p, fid, ci + 1);
        },
    }
}

/// From a paragraph where the field is found, its path leads to a
/// paragraph that holds the field.
proof fn lemma_para_hit(p: Paragraph, fid: u32)
    requires
        para_hit(p, fid) is Some,
    ensures
        para_at_path(p, para_hit(p, fid)->0) matches Some(q) && para_target(q, fid) is Some,
{
    if para_target(p, fid) is None {
        lemma_controls_hit(p, fid, 0);
        let e = controls_hit_from(p.controls@, fid, 0)->0;
        let q = step(p, e)->0;
        assert(seq![e].drop_first() =~= Seq::<NestedEntry>::empty());
        assert(para_at_path(q, Seq::<NestedEntry>::empty()) == Some(q));
    }
}

proof fn lemma_paras_slot(ps: Seq<Paragraph>, fid: u32, k: int)
    requires
        paras_slot_from(ps, fid, k) is Some,
    ensures
        paras_slot_from(ps, fid, k) matches Some((m, path)) && 0 <= m < ps.len() && para_hit(ps[m], fid)
            == Some(path),
    decreases ps.len() - k,
{
    if para_hit(ps[k], fid) is None {
        lemma_paras_slot(ps, fid, k + 1);
    }
}

/// The CTRL_DATA records of a paragraph, as byte sequences.
pub open spec fn records_view(rs: Seq<Option<Vec<u8>>>) -> Seq<Option<Seq<u8>>> {
    rs.map_values(
        |o: Option<Vec<u8>>|
            match o {
                Some(v) => Some(v@),
                None => None,
            },
    )
}

/// The 10-byte header of a new CTRL_DATA record that holds a field name.
pub open spec fn ctrl_data_header() -> Seq<u8> {
    seq![0x1Bu8, 0x02u8, 0x01u8, 0x00u8, 0x00u8, 0x00u8, 0x00u8, 0x40u8, 0x01u8, 0x00u8]
}

/// The records `rs` (with empty entries added up to index `ci`) with the
/// record of control `ci` naming `name`: an existing record of at least
/// 12 bytes keeps its 10-byte header and gets the name (a `u16` count of
/// UTF-16 units, then the units, little-endian), a shorter one stays, and
/// a missing one is made with the standard header.
pub open spec fn records_renamed(rs: Seq<Option<Seq<u8>>>, ci: int, name: Seq<char>) -> Seq<Option<Seq<u8>>> {
    let ext = if ci < rs.len() {
        rs
    } else {
        rs + Seq::new((ci + 1 - rs.len()) as nat, |i: int| None::<Seq<u8>>)
    };
    match ext[ci] {
        Some(d) => if d.len() >= 12 {
            ext.update(ci, Some(d.subrange(0, 10) + hwp_string_bytes(name)))
        } else {
            ext
        },
        None => ext.update(ci, Some(ctrl_data_header() + hwp_string_bytes(name))),
    }
}

/// Field `b` is `a` with its properties changed: the command rebuilt from
/// `guide` and `memo` unless both are what it holds already, bit 0 of the
/// properties set by `editable`, and the name set (none for an empty one).
pub open spec fn field_props_updated(
    a: FieldView,
    b: FieldView,
    guide: Seq<char>,
    memo: Seq<char>,
    name: Seq<char>,
    editable: bool,
) -> bool {
    &&& b.field_type == a.field_type
    &&& b.extra_properties == a.extra_properties
    &&& b.field_id == a.field_id
    &&& b.ctrl_id == a.ctrl_id
    &&& b.memo_index == a.memo_index
    &&& b.properties == ((a.properties & 0xFFFF_FFFEu32) | if editable { 1u32 } else { 0u32 })
    &&& b.command == if guide == or_empty(guide_of(a.command)) && memo == or_empty(memo_of(a.command)) {
        a.command
    } else {
        clickhere_command(guide, memo, Seq::empty())
    }
    &&& b.ctrl_data_name == if name.len() == 0 {
        None
    } else {
        Some(name)
    }
}

/// Paragraph `b` is `a` with the field at control `ci` updated (see
/// `field_props_updated`) and its CTRL_DATA record renamed.
pub open spec fn para_props_updated(
    a: Paragraph,
    b: Paragraph,
    ci: int,
    guide: Seq<char>,
    memo: Seq<char>,
    name: Seq<char>,
    editable: bool,
) -> bool {
    &&& b.text == a.text
    &&& b.field_ranges == a.field_ranges
    &&& b.char_offsets == a.char_offsets
    &&& b.line_segs == a.line_segs
    &&& b.controls@.len() == a.controls@.len()
    &&& forall|k: int| 0 <= k < a.controls@.len() && k != ci ==> #[trigger] b.controls@[k] == a.controls@[k]
    &&& match (a.controls@[ci], b.controls@[ci]) {
        (Control::Field(fa), Control::Field(fb)) => field_props_updated(fa@, fb@, guide, memo, name, editable),
        _ => false,
    }
    &&& records_view(b.ctrl_data_records@) == records_renamed(records_view(a.ctrl_data_records@), ci, name)
}

/// The raw streams of the first `n` sections of `new` are dropped, the
/// others are those of `old`.
pub open spec fn raw_cleared_upto(old: Document, new: Document, n: int) -> bool {
    &&& new.sections@.len() == old.sections@.len()
    &&& forall|k: int|
        0 <= k < old.sections@.len() ==> if k < n {
            (#[trigger] new.sections@[k]).raw_stream is None
        } else {
            new.sections@[k].raw_stream == old.sections@[k].raw_stream
        }
}

/// `new` is `old` once the properties of the click-here field `fid` are
/// changed: where the field is found (see `click_here_location`), the raw
/// streams of the sections up to its own are dropped and the paragraph
/// that holds it is updated (see `para_props_updated`), all else staying;
/// where it is not, every raw stream is dropped and nothing else changes.
pub open spec fn click_here_props_updated(
    old: Document,
    new: Document,
    fid: u32,
    guide: Seq<char>,
    memo: Seq<char>,
    name: Seq<char>,
    editable: bool,
) -> bool {
    &&& new.doc_info == old.doc_info
    &&& new.bin_data_content == old.bin_data_content
    &&& match click_here_location(old, fid) {
        Some((si, pi, path)) => {
            &&& raw_cleared_upto(old, new, si + 1)
            &&& forall|k: int|
                0 <= k < old.sections@.len() && k != si ==> (#[trigger] new.sections@[k]).paragraphs
                    == old.sections@[k].paragraphs
            &&& seq_same_but(old.sections@[si].paragraphs@, new.sections@[si].paragraphs@, pi)
            &&& match (loc_para(old, si, pi, path), loc_para(new, si, pi, path)) {
                (Some(p), Some(q)) => {
                    &&& replaced_at_path(old.sections@[si].paragraphs@[pi], new.sections@[si].paragraphs@[pi], path, q)
                    &&& match para_target(p, fid) {
                        Some(ci) => para_props_updated(p, q, ci, guide, memo, name, editable),
                        None => false,
                    }
                },
                _ => false,
            }
        },
        None => {
            &&& raw_cleared_upto(old, new, old.sections@.len() as int)
            &&& forall|k: int|
                0 <= k < old.sections@.len() ==> (#[trigger] new.sections@[k]).paragraphs
                    == old.sections@[k].paragraphs
        },
    }
}

/// Whether `a` and `b` are the same string.
fn same_str(a: &str, b: &str) -> (r: bool)
    ensures
        r == (a@ == b@),
{
    let x = chars_of(a);
    let y = chars_of(b);
    chars_eq(x.as_slice(), y.as_slice())
}

/// Names the field of control `ci` in its CTRL_DATA record (see
/// `records_renamed`).
fn rename_ctrl_data(records: &mut Vec<Option<Vec<u8>>>, ci: usize, name: &str)
    requires
        ci < usize::MAX,
    ensures
        records_view(final(records)@) == records_renamed(records_view(old(records)@), ci as int, name@),
{
    let ghost r0 = records_view(records@);
    let ghost ext = if (ci as int) < r0.len() {
        r0
    } else {
        r0 + Seq::new((ci + 1 - r0.len()) as nat, |i: int| None::<Seq<u8>>)
    };
    assert(ext.subrange(0, records@.len() as int) =~= r0);
    while records.len() <= ci
        invariant
            (ci as int) >= r0.len() ==> records@.len() <= ci + 1,
            r0.len() <= records@.len(),
            records_view(records@) == ext.subrange(0, records@.len() as int),
            r0.len() <= ci ==> ext.len() == ci + 1,
            r0.len() <= ci ==> ext == r0 + Seq::new((ci + 1 - r0.len()) as nat, |i: int| None::<Seq<u8>>),
            (ci as int) < r0.len() ==> records@.len() == r0.len() && ext == r0,
        decreases ci + 1 - records@.len(),
    {
        let ghost before = records@;
        records.push(None);
        assert(ext[before.len() as int] == None::<Seq<u8>>);
        assert(records@ == before.push(None));
        assert(records_view(records@) =~= records_view(before).push(None));
        assert(records_view(records@) =~= ext.subrange(0, records@.len() as int));
    }
    assert(records_view(records@) =~= ext.subrange(0, ext.len() as int));
    assert(ext.subrange(0, ext.len() as int) =~= ext);
    let mut w = ByteWriter::new();
    w.write_hwp_string(name);
    let name_bytes = w.into_bytes();
    assert(name_bytes@ =~= hwp_string_bytes(name@));
    let ghost v1 = records_view(records@);
    match &records[ci] {
        Some(d) => {
            if d.len() >= 12 {
                let mut nd: Vec<u8> = Vec::new();
                let mut k: usize = 0;
                while k < 10
                    invariant
                        k <= 10,
                        d@.len() >= 12,
                        nd@ == d@.subrange(0, k as int),
                    decreases 10 - k,
                {
                    nd.push(d[k]);
                    k = k + 1;
                    assert(nd@ =~= d@.subrange(0, k as int));
                }
                let mut m: usize = 0;
                while m < name_bytes.len()
                    invariant
                        m <= name_bytes@.len(),
                        nd@ == d@.subrange(0, 10) + name_bytes@.subrange(0, m as int),
                    decreases name_bytes@.len() - m,
                {
                    nd.push(name_bytes[m]);
                    m = m + 1;
                    assert(nd@ =~= d@.subrange(0, 10) + name_bytes@.subrange(0, m as int));
                }
                assert(name_bytes@.subrange(0, name_bytes@.len() as int) =~= name_bytes@);
                records.set(ci, Some(nd));
                assert(records_view(records@) =~= v1.update(ci as int, Some(d@.subrange(0, 10) + hwp_string_bytes(name@))));
            }
        },
        None => {
            let mut nd: Vec<u8> = vec![0x1B, 0x02, 0x01, 0x00, 0x00, 0x00, 0x00, 0x40, 0x01, 0x00];
            assert(nd@ =~= ctrl_data_header());
            let mut m: usize = 0;
            while m < name_bytes.len()
                invariant
                    m <= name_bytes@.len(),
                    nd@ == ctrl_data_header() + name_bytes@.subrange(0, m as int),
                decreases name_bytes@.len() - m,
            {
                nd.push(name_bytes[m]);
                m = m + 1;
                assert(nd@ =~= ctrl_data_header() + name_bytes@.subrange(0, m as int));
            }
            assert(name_bytes@.subrange(0, name_bytes@.len() as int) =~= name_bytes@);
            records.set(ci, Some(nd));
            assert(records_view(records@) =~= v1.update(ci as int, Some(ctrl_data_header() + hwp_string_bytes(name@))));
        },
    }
}

/// Updates the click-here field at control `ci` of `para` and its
/// CTRL_DATA record (see `para_props_updated`).
fn update_field_in_para(para: &mut Paragraph, ci: usize, guide: &str, memo: &str, name: &str, editable: bool)
    requires
        ci < old(para).controls@.len(),
        old(para).controls@[ci as int] is Field,
    ensures
        para_props_updated(*old(para), *final(para), ci as int, guide@, memo@, name@, editable),
{
    assert(ci < para.controls.len());
    proof {
        reveal_strlit("");
    }
    let rebuild = match &para.controls[ci] {
        Control::Field(f) => {
            let og = match f.guide_text() {
                Some(g) => g,
                None => "",
            };
            let om = match f.memo_text() {
                Some(m) => m,
                None => "",
            };
            assert(og@ == or_empty(guide_of(f.command@)));
            assert(om@ == or_empty(memo_of(f.command@)));
            !(same_str(guide, og) && same_str(memo, om))
        },
        _ => false,
    };
    let ghost fa = old(para).controls@[ci as int]->Field_0;
    assert(rebuild == !(guide@ == or_empty(guide_of(fa.command@)) && memo@ == or_empty(memo_of(fa.command@))));
    let new_cmd = if rebuild {
        Some(Field::build_clickhere_command(guide, memo, ""))
    } else {
        None
    };
    assert(match new_cmd {
        Some(c) => rebuild && c@ == clickhere_command(guide@, memo@, Seq::empty()),
        None => !rebuild,
    });
    let bit: u32 = if editable { 1 } else { 0 };
    let new_name = if chars_of(name).len() == 0 {
        None
    } else {
        Some(String::from_str(name))
    };
    match &mut para.controls[ci] {
        Control::Field(f) => {
            match new_cmd {
                Some(c) => {
                    f.command = c;
                },
                None => {},
            }
            f.properties = (f.properties & 0xFFFF_FFFE) | bit;
            f.ctrl_data_name = new_name;
        },
        _ => {},
    }
    rename_ctrl_data(&mut para.ctrl_data_records, ci, name);
}

impl DocumentCore {
    /// Changes the properties of the click-here field with ID `field_id`:
    /// its guide text and memo, whether it can be edited in a form, and its
    /// name (see `click_here_props_updated`). Answers `{"ok":true}` where
    /// the field is found, after marking the render cache stale, else
    /// `{"ok":false}`. The raw streams of the sections searched are dropped.
    pub fn update_click_here_props(
        &mut self,
        field_id: u32,
        guide: &str,
        memo: &str,
        name: &str,
        editable: bool,
    ) -> (r: String)
        ensures
            click_here_props_updated(
                old(self).document,
                final(self).document,
                field_id,
                guide@,
                memo@,
                name@,
                editable,
            ),
            active_view(final(self).active_field) == active_view(old(self).active_field),
            final(self).sections_to_recompose == old(self).sections_to_recompose,
            click_here_location(old(self).document, field_id) is Some ==> r@ == "{\"ok\":true}"@
                && !final(self).page_tree_cache_valid,
            click_here_location(old(self).document, field_id) is None ==> r@ == "{\"ok\":false}"@
                && final(self).page_tree_cache_valid == old(self).page_tree_cache_valid,
    {
        let ghost d0 = self.document;
        let ns = self.document.sections.len();
        let mut si: usize = 0;
        while si < ns
            invariant
                si <= ns,
                ns == d0.sections@.len(),
                d0 == old(self).document,
                self.document.doc_info == d0.doc_info,
                self.document.bin_data_content == d0.bin_data_content,
                raw_cleared_upto(d0, self.document, si as int),
                forall|k: int| 0 <= k < ns ==> (#[trigger] self.document.sections@[k]).paragraphs == d0.sections@[k].paragraphs,
                sections_slot_from(d0.sections@, field_id, 0) == sections_slot_from(d0.sections@, field_id, si as int),
                self.active_field == old(self).active_field,
                self.page_tree_cache_valid == old(self).page_tree_cache_valid,
                self.sections_to_recompose == old(self).sections_to_recompose,
            decreases ns - si,
        {
            clear_raw_stream(&mut self.document, si);
            match find_slot(&self.document.sections[si].paragraphs, field_id) {
                Some((pi, path)) => {
                    let ghost mid = self.document;
                    proof {
                        lemma_paras_slot(d0.sections@[si as int].paragraphs@, field_id, 0);
                        lemma_para_hit(d0.sections@[si as int].paragraphs@[pi as int], field_id);
                        assert(loc_para(mid, si as int, pi as int, path@) == loc_para(d0, si as int, pi as int, path@));
                    }
                    let para = loc_para_mut(&mut self.document, si, pi, path.as_slice());
                    let ci = match find_target(&*para, field_id) {
                        Some(ci) => ci,
                        None => {
                            vstd::pervasive::unreached()
                        },
                    };
                    proof {
                        lemma_target(para.controls@, field_id, 0);
                    }
                    update_field_in_para(para, ci, guide, memo, name, editable);
                    proof {
                        lemma_doc_replaced_reaches_leaf(mid, self.document, si as int, pi as int, path@, *para);
                    }
                    self.invalidate_page_tree_cache();
                    return String::from_str("{\"ok\":true}");
                },
                None => {},
            }
            si = si + 1;
        }
        String::from_str("{\"ok\":false}")
    }
}

} // verus!
