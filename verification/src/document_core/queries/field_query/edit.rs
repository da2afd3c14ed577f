//! Replacing the text of a field range in a paragraph, and moving the other
//! field ranges with it.

use vstd::prelude::*;
use crate::document_core::queries::field_query::field_removal_support::{
    ctrls_before_text,
    offsets_for,
    rebuild_char_offsets,
};
use crate::encoding::chars_of;
use crate::model::paragraph::{FieldRange, Paragraph};
use crate::text::push_chars_range;

verus! {

/// `text` with its characters `[s, e)` replaced by `value`.
pub open spec fn spliced_text(text: Seq<char>, s: int, e: int, value: Seq<char>) -> Seq<char> {
    text.subrange(0, s) + value + text.subrange(e, text.len() as int)
}

/// Position `x` moved by `n - e` (a field ending at `e` now ends at `n`),
/// wrapping around the range of `usize`.
pub open spec fn shifted(x: usize, e: usize, n: usize) -> usize {
    let v = x + n - e;
    if v < 0 {
        (v + usize::MAX + 1) as usize
    } else if v > usize::MAX {
        (v - usize::MAX - 1) as usize
    } else {
        v as usize
    }
}

/// Range `other` (at index `j`) is a field that encloses the field of range
/// `fr` (at index `fri`): it opened before it (a smaller control index),
/// closed after it (a larger index in the list) and spans it.
pub open spec fn genuine_parent(other: FieldRange, j: int, fr: FieldRange, fri: int) -> bool {
    &&& j > fri
    &&& other.control_idx < fr.control_idx
    &&& other.start_char_idx <= fr.start_char_idx
    &&& other.end_char_idx >= fr.end_char_idx
}

/// Range `other` (at index `j`) once the field of range `fr` (at index
/// `fri`) holds new text ending at `n`: the field itself ends at `n`, an
/// enclosing field's end moves with it, a range at or after the field's end
/// moves as a whole, and any other range stays.
pub open spec fn adjusted_range(other: FieldRange, j: int, fr: FieldRange, fri: int, n: usize) -> FieldRange {
    if j == fri {
        FieldRange { end_char_idx: n, ..other }
    } else if genuine_parent(other, j, fr, fri) {
        FieldRange { end_char_idx: shifted(other.end_char_idx, fr.end_char_idx, n), ..other }
    } else if other.start_char_idx >= fr.end_char_idx {
        FieldRange {
            start_char_idx: shifted(other.start_char_idx, fr.end_char_idx, n),
            end_char_idx: shifted(other.end_char_idx, fr.end_char_idx, n),
            ..other
        }
    } else {
        other
    }
}

/// The field ranges once range `fri` holds new text ending at `n`.
pub open spec fn adjusted_ranges(ranges: Seq<FieldRange>, fri: int, n: usize) -> Seq<FieldRange> {
    Seq::new(ranges.len(), |j: int| adjusted_range(ranges[j], j, ranges[fri], fri, n))
}

/// Whether range `fr` of a paragraph can take new text: it lies inside
/// the text, and the text before its end plus `value_len` characters still
/// counts in a `usize`.
pub open spec fn range_editable(text_len: nat, fr: FieldRange, value_len: nat) -> bool {
    &&& fr.start_char_idx <= fr.end_char_idx
    &&& fr.end_char_idx <= text_len
    &&& fr.start_char_idx + value_len <= usize::MAX
}

/// `x` moved by `n - e`, wrapping as `shifted` does.
fn shift(x: usize, e: usize, n: usize) -> (r: usize)
    ensures
        r == shifted(x, e, n),
{
    x.wrapping_add(n).wrapping_sub(e)
}

/// Replaces the text of field range `fri` of `para` by `value`: the range
/// then spans exactly `value`, the other ranges move as `adjusted_range`
/// says, and the character offsets are rebuilt.
pub fn replace_range_text(para: &mut Paragraph, fri: usize, value: &str)
    requires
        fri < old(para).field_ranges@.len(),
        range_editable(old(para).text@.len(), old(para).field_ranges@[fri as int], value@.len()),
    ensures
        ({
            let fr = old(para).field_ranges@[fri as int];
            let n = (fr.start_char_idx + value@.len()) as usize;
            let text = spliced_text(
                old(para).text@,
                fr.start_char_idx as int,
                fr.end_char_idx as int,
                value@,
            );
            let ranges = adjusted_ranges(old(para).field_ranges@, fri as int, n);
            &&& final(para).text@ == text
            &&& final(para).field_ranges@ == ranges
            &&& final(para).char_offsets@ == offsets_for(text, ranges, ctrls_before_text(*old(para)))
            &&& final(para).controls == old(para).controls
            &&& final(para).line_segs == old(para).line_segs
            &&& final(para).ctrl_data_records == old(para).ctrl_data_records
        }),
{
    let ghost p0 = *para;
    let fr = para.field_ranges[fri];
    let s = fr.start_char_idx;
    let e = fr.end_char_idx;
    let text_chars = chars_of(para.text.as_str());
    let value_chars = chars_of(value);
    let mut text = String::new();
    push_chars_range(&mut text, text_chars.as_slice(), 0, s);
    push_chars_range(&mut text, value_chars.as_slice(), 0, value_chars.len());
    push_chars_range(&mut text, text_chars.as_slice(), e, text_chars.len());
    assert(value_chars@.subrange(0, value_chars@.len() as int) =~= value_chars@);
    assert(text@ =~= spliced_text(p0.text@, s as int, e as int, value@));
    para.text = text;
    let n = s + value_chars.len();
    let nr = para.field_ranges.len();
    let mut j: usize = 0;
    while j < nr
        invariant
            j <= nr,
            nr == p0.field_ranges@.len(),
            fri < nr,
            fr == p0.field_ranges@[fri as int],
            s == fr.start_char_idx,
            e == fr.end_char_idx,
            para.field_ranges@.len() == nr,
            forall|k: int|
                0 <= k < j ==> #[trigger] para.field_ranges@[k] == adjusted_range(
                    p0.field_ranges@[k],
                    k,
                    fr,
                    fri as int,
                    n,
                ),
            forall|k: int| j <= k < nr ==> #[trigger] para.field_ranges@[k] == p0.field_ranges@[k],
            para.text@ == spliced_text(p0.text@, s as int, e as int, value@),
            para.controls == p0.controls,
            para.line_segs == p0.line_segs,
            para.ctrl_data_records == p0.ctrl_data_records,
            para.char_offsets == p0.char_offsets,
        decreases nr - j,
    {
        let other = para.field_ranges[j];
        if j == fri {
            para.field_ranges.set(j, FieldRange { end_char_idx: n, ..other });
        } else if j > fri && other.control_idx < fr.control_idx && other.start_char_idx <= s
            && other.end_char_idx >= e {
            let moved = shift(other.end_char_idx, e, n);
            para.field_ranges.set(j, FieldRange { end_char_idx: moved, ..other });
        } else if other.start_char_idx >= e {
            let ms = shift(other.start_char_idx, e, n);
            let me = shift(other.end_char_idx, e, n);
            para.field_ranges.set(j, FieldRange { start_char_idx: ms, end_char_idx: me, ..other });
        }
        j = j + 1;
    }
    assert(para.field_ranges@ =~= adjusted_ranges(p0.field_ranges@, fri as int, n));
    assert(ctrls_before_text(*para) == ctrls_before_text(p0));
    rebuild_char_offsets(para);
}

/// Every range lies inside a text of `len` characters and does not run
/// backwards.
pub open spec fn ranges_in_text(ranges: Seq<FieldRange>, len: nat) -> bool {
    forall|k: int|
        0 <= k < ranges.len() ==> #[trigger] ranges[k].start_char_idx <= ranges[k].end_char_idx
            && ranges[k].end_char_idx <= len
}

/// The ranges nest around range `fri`: every other range encloses it as a
/// genuine parent, lies at or after its end, or ends at or before its start.
pub open spec fn nested_around(ranges: Seq<FieldRange>, fri: int) -> bool {
    forall|j: int|
        0 <= j < ranges.len() && j != fri ==> genuine_parent(#[trigger] ranges[j], j, ranges[fri], fri)
            || ranges[j].start_char_idx >= ranges[fri].end_char_idx || ranges[j].end_char_idx
            <= ranges[fri].start_char_idx
}

/// Replacing the text of a field keeps every field range inside the text,
/// where the ranges were inside the text before and nest around the field,
/// and the new text's length counts in a `usize`.
pub proof fn lemma_replace_keeps_ranges_in_text(
    text: Seq<char>,
    ranges: Seq<FieldRange>,
    fri: int,
    value: Seq<char>,
)
    requires
        0 <= fri < ranges.len(),
        ranges_in_text(ranges, text.len()),
        nested_around(ranges, fri),
        spliced_text(
            text,
            ranges[fri].start_char_idx as int,
            ranges[fri].end_char_idx as int,
            value,
        ).len() <= usize::MAX,
    ensures
        ranges_in_text(
            adjusted_ranges(ranges, fri, (ranges[fri].start_char_idx + value.len()) as usize),
            spliced_text(
                text,
                ranges[fri].start_char_idx as int,
                ranges[fri].end_char_idx as int,
                value,
            ).len(),
        ),
{
    let fr = ranges[fri];
    let n = (fr.start_char_idx + value.len()) as usize;
    let new_len = spliced_text(text, fr.start_char_idx as int, fr.end_char_idx as int, value).len();
    assert(new_len == fr.start_char_idx + value.len() + text.len() - fr.end_char_idx);
    let adj = adjusted_ranges(ranges, fri, n);
    assert forall|k: int| 0 <= k < adj.len() implies #[trigger] adj[k].start_char_idx
        <= adj[k].end_char_idx && adj[k].end_char_idx <= new_len by {
        assert(ranges[k].start_char_idx <= ranges[k].end_char_idx);
    }
}

/// After its text is replaced, a field's range spans exactly the new text.
pub proof fn lemma_replaced_range_spans_value(
    text: Seq<char>,
    ranges: Seq<FieldRange>,
    fri: int,
    value: Seq<char>,
)
    requires
        0 <= fri < ranges.len(),
        range_editable(text.len(), ranges[fri], value.len()),
    ensures
        ({
            let fr = ranges[fri];
            let adj = adjusted_ranges(ranges, fri, (fr.start_char_idx + value.len()) as usize)[fri];
            let t = spliced_text(text, fr.start_char_idx as int, fr.end_char_idx as int, value);
            &&& adj.start_char_idx == fr.start_char_idx
            &&& adj.end_char_idx == fr.start_char_idx + value.len()
            &&& adj.control_idx == fr.control_idx
            &&& t.subrange(adj.start_char_idx as int, adj.end_char_idx as int) == value
        }),
{
    let fr = ranges[fri];
    let t = spliced_text(text, fr.start_char_idx as int, fr.end_char_idx as int, value);
    assert(t.subrange(fr.start_char_idx as int, fr.start_char_idx + value.len()) =~= value);
}

} // verus!
