//! The click-here field at a caret position, removing a field's range, and
//! rebuilding a paragraph's character offsets.

use vstd::prelude::*;
use crate::encoding::{chars_of, utf16_of_char};
use crate::error::HwpError;
use crate::model::control::{Control, FieldType};
use crate::model::paragraph::{FieldRange, Paragraph};

verus! {

/// Whether field range `fr` of `p` is a click-here field whose range holds
/// caret position `off` (its end included).
pub open spec fn clickhere_hit(p: Paragraph, fr: FieldRange, off: usize) -> bool {
    &&& fr.control_idx < p.controls@.len()
    &&& p.controls@[fr.control_idx as int] matches Control::Field(f)
    &&& f.field_type == FieldType::ClickHere
    &&& fr.start_char_idx <= off <= fr.end_char_idx
}

/// The index of the first field range of `p` from `k` on that is a
/// click-here field holding caret position `off`.
pub open spec fn first_hit_from(p: Paragraph, off: usize, k: int) -> Option<int>
    decreases p.field_ranges@.len() - k,
{
    if k < 0 || k >= p.field_ranges@.len() {
        None
    } else if clickhere_hit(p, p.field_ranges@[k], off) {
        Some(k)
    } else {
        first_hit_from(p, off, k + 1)
    }
}

/// The index of the first field range of `p` that is a click-here field
/// holding caret position `off`.
pub open spec fn first_hit(p: Paragraph, off: usize) -> Option<int> {
    first_hit_from(p, off, 0)
}

/// Whether field range `k` of `p` is a click-here field holding caret
/// position `off`: its control is a field of kind click-here, and `off`
/// lies from its start to its end, both included.
pub open spec fn caret_in_click_here(p: Paragraph, k: int, off: usize) -> bool {
    &&& 0 <= k < p.field_ranges@.len()
    &&& p.field_ranges@[k].control_idx < p.controls@.len()
    &&& p.controls@[p.field_ranges@[k].control_idx as int] matches Control::Field(f)
    &&& f.field_type == FieldType::ClickHere
    &&& p.field_ranges@[k].start_char_idx <= off
    &&& off <= p.field_ranges@[k].end_char_idx
}

/// The field under the caret is the first click-here field range that
/// holds the position: a hit is always a click-here field (never a field
/// of another kind) holding `off`, no earlier range is one, and where no
/// range is one there is no hit.
pub proof fn lemma_caret_hit_is_click_here(p: Paragraph, off: usize)
    ensures
        first_hit(p, off) matches Some(k) ==> caret_in_click_here(p, k, off) && forall|m: int|
            0 <= m < k ==> !caret_in_click_here(p, m, off),
        first_hit(p, off) is None <==> forall|m: int| 0 <= m < p.field_ranges@.len() ==> !caret_in_click_here(
            p,
            m,
            off,
        ),
{
    lemma_first_hit_from(p, off, 0);
    if first_hit(p, off) is None {
        assert forall|m: int| 0 <= m < p.field_ranges@.len() implies !caret_in_click_here(p, m, off) by {
            assert(!clickhere_hit(p, p.field_ranges@[m], off));
        }
    } else {
        let k = first_hit(p, off)->0;
        assert forall|m: int| 0 <= m < k implies !caret_in_click_here(p, m, off) by {
            assert(!clickhere_hit(p, p.field_ranges@[m], off));
        }
    }
}

/// The range `first_hit_from` picks holds the position, and no range
/// before it from `k` on does.
pub proof fn lemma_first_hit_from(p: Paragraph, off: usize, k: int)
    requires
        0 <= k,
    ensures
        first_hit_from(p, off, k) matches Some(j) ==> k <= j < p.field_ranges@.len() && clickhere_hit(
            p,
            p.field_ranges@[j],
            off,
        ) && forall|m: int| k <= m < j ==> !clickhere_hit(p, #[trigger] p.field_ranges@[m], off),
        first_hit_from(p, off, k) is None ==> forall|m: int|
            k <= m < p.field_ranges@.len() ==> !clickhere_hit(p, #[trigger] p.field_ranges@[m], off),
    decreases p.field_ranges@.len() - k,
{
    if k < p.field_ranges@.len() && !clickhere_hit(p, p.field_ranges@[k], off) {
        lemma_first_hit_from(p, off, k + 1);
    }
}

/// Whether field range `fr` of `p` is a click-here field holding `off`.
pub fn is_clickhere_hit(p: &Paragraph, fr: FieldRange, off: usize) -> (b: bool)
    ensures
        b == clickhere_hit(*p, fr, off),
{
    if fr.control_idx < p.controls.len() {
        match &p.controls[fr.control_idx] {
            Control::Field(f) => f.field_type == FieldType::ClickHere && fr.start_char_idx <= off
                && off <= fr.end_char_idx,
            _ => false,
        }
    } else {
        false
    }
}

/// The index of the first field range of `p` that is a click-here field
/// holding caret position `off`.
pub fn find_hit(p: &Paragraph, off: usize) -> (r: Option<usize>)
    ensures
        match r {
            Some(k) => first_hit(*p, off) == Some(k as int),
            None => first_hit(*p, off) is None,
        },
{
    let mut k: usize = 0;
    while k < p.field_ranges.len()
        invariant
            k <= p.field_ranges@.len(),
            first_hit(*p, off) == first_hit_from(*p, off, k as int),
        decreases p.field_ranges@.len() - k,
    {
        if is_clickhere_hit(p, p.field_ranges[k], off) {
            return Some(k);
        }
        k = k + 1;
    }
    None
}

/// The control index of the click-here field holding caret position
/// `char_offset` in `para` (the first such field range).
pub fn find_field_ctrl_idx_in_para(para: &Paragraph, char_offset: usize) -> (r: Option<usize>)
    ensures
        match first_hit(*para, char_offset) {
            Some(k) => r == Some(para.field_ranges@[k].control_idx),
            None => r is None,
        },
{
    match find_hit(para, char_offset) {
        Some(k) => {
            proof {
                lemma_first_hit_from(*para, char_offset, 0);
            }
            Some(para.field_ranges[k].control_idx)
        },
        None => None,
    }
}

/// The error text where no click-here field holds the caret position.
pub open spec fn no_field_at_caret_message() -> Seq<char> {
    "커서 위치에 누름틀 필드 없음"@
}

/// Removes the click-here field at caret position `char_offset`: its range
/// goes, its text stays.
pub fn remove_field_in_para(para: &mut Paragraph, char_offset: usize) -> (r: Result<(), HwpError>)
    ensures
        match first_hit(*old(para), char_offset) {
            Some(k) => {
                &&& r is Ok
                &&& final(para).field_ranges@ == old(para).field_ranges@.remove(k)
                &&& final(para).text == old(para).text
                &&& final(para).controls == old(para).controls
                &&& final(para).char_offsets == old(para).char_offsets
                &&& final(para).line_segs == old(para).line_segs
                &&& final(para).ctrl_data_records == old(para).ctrl_data_records
            },
            None => r matches Err(HwpError::InvalidField(m)) && m@ == no_field_at_caret_message()
                && *final(para) == *old(para),
        },
{
    match find_hit(para, char_offset) {
        Some(i) => {
            proof {
                lemma_first_hit_from(*para, char_offset, 0);
            }
            para.field_ranges.remove(i);
            Ok(())
        },
        None => Err(HwpError::InvalidField(String::from_str("커서 위치에 누름틀 필드 없음"))),
    }
}

/// Stream size, in code units, of a character: 8 for a tab (an inline
/// control), 1 for a line break or a no-break space, otherwise its UTF-16
/// length.
pub open spec fn char_units(c: char) -> nat {
    if c == '\t' {
        8
    } else if c == '\n' || c == '\u{00A0}' {
        1
    } else {
        utf16_of_char(c).len()
    }
}

/// Number of controls taken to stand before the first character: the
/// first stored offset over 8, or, without stored offsets, every control.
pub open spec fn ctrls_before_text(p: Paragraph) -> nat {
    if p.char_offsets@.len() > 0 {
        (p.char_offsets@[0] / 8) as nat
    } else {
        p.controls@.len()
    }
}

/// The position, clamped to `len`, at which a range starts or ends.
pub open spec fn clamp(x: usize, len: nat) -> nat {
    if x < len { x as nat } else { len }
}

/// Number of the first `m` ranges whose field begins (as a control within
/// the text) right before character `i`.
pub open spec fn count_begins(ranges: Seq<FieldRange>, cb: nat, len: nat, i: nat, m: int) -> nat
    decreases m,
{
    if m <= 0 {
        0
    } else {
        count_begins(ranges, cb, len, i, m - 1) + if ranges[m - 1].control_idx >= cb && ranges[m
            - 1].start_char_idx > 0 && clamp(ranges[m - 1].start_char_idx, len) == i {
            1nat
        } else {
            0nat
        }
    }
}

/// Number of the first `m` ranges whose field ends right before character `i`.
pub open spec fn count_ends(ranges: Seq<FieldRange>, len: nat, i: nat, m: int) -> nat
    decreases m,
{
    if m <= 0 {
        0
    } else {
        count_ends(ranges, len, i, m - 1) + if clamp(ranges[m - 1].end_char_idx, len) == i {
            1nat
        } else {
            0nat
        }
    }
}

/// Code units of the field markers right before character `i` of `text`.
pub open spec fn gap_before(text: Seq<char>, ranges: Seq<FieldRange>, cb: nat, i: nat) -> nat {
    let n = ranges.len() as int;
    8 * (count_begins(ranges, cb, text.len(), i, n) + count_ends(ranges, text.len(), i, n))
}

/// The unbounded stream offset of character `i` of `text`, with `cb`
/// controls before the text and the markers of `ranges`.
pub open spec fn raw_offset(text: Seq<char>, ranges: Seq<FieldRange>, cb: nat, i: nat) -> nat
    decreases i,
{
    if i == 0 {
        8 * cb + gap_before(text, ranges, cb, 0)
    } else {
        raw_offset(text, ranges, cb, (i - 1) as nat) + char_units(text[i - 1]) + gap_before(
            text,
            ranges,
            cb,
            i,
        )
    }
}

/// Each character's stream offset (modulo 2^32) after `cb` controls before
/// the text, the field markers of `ranges` and the characters before it.
pub open spec fn offsets_for(text: Seq<char>, ranges: Seq<FieldRange>, cb: nat) -> Seq<u32> {
    Seq::new(text.len(), |i: int| (raw_offset(text, ranges, cb, i as nat) % 0x1_0000_0000) as u32)
}

/// The character offsets `rebuild_char_offsets` gives a paragraph.
pub open spec fn rebuilt_offsets(p: Paragraph) -> Seq<u32> {
    offsets_for(p.text@, p.field_ranges@, ctrls_before_text(p))
}

/// Counts, for each character position below `len`, the field markers
/// that stand right before it: beginnings (of fields whose control is not
/// before the text) and ends.
fn count_markers(ranges: &Vec<FieldRange>, cb: usize, len: usize) -> (r: (Vec<usize>, Vec<usize>))
    ensures
        r.0@.len() == len,
        r.1@.len() == len,
        forall|k: int|
            0 <= k < len ==> #[trigger] r.0@[k] == count_begins(
                ranges@,
                cb as nat,
                len as nat,
                k as nat,
                ranges@.len() as int,
            ),
        forall|k: int|
            0 <= k < len ==> #[trigger] r.1@[k] == count_ends(
                ranges@,
                len as nat,
                k as nat,
                ranges@.len() as int,
            ),
{
    let nr = ranges.len();
    let mut begin_at: Vec<usize> = Vec::new();
    let mut end_at: Vec<usize> = Vec::new();
    let mut j: usize = 0;
    while j < len
        invariant
            j <= len,
            begin_at@.len() == j,
            end_at@.len() == j,
            forall|k: int| 0 <= k < j ==> begin_at@[k] == 0 && end_at@[k] == 0,
        decreases len - j,
    {
        begin_at.push(0);
        end_at.push(0);
        j = j + 1;
    }
    let mut m: usize = 0;
    while m < nr
        invariant
            m <= nr,
            nr == ranges@.len(),
            begin_at@.len() == len,
            end_at@.len() == len,
            forall|k: int|
                0 <= k < len ==> #[trigger] begin_at@[k] == count_begins(
                    ranges@,
                    cb as nat,
                    len as nat,
                    k as nat,
                    m as int,
                ) && begin_at@[k] <= m,
            forall|k: int|
                0 <= k < len ==> #[trigger] end_at@[k] == count_ends(
                    ranges@,
                    len as nat,
                    k as nat,
                    m as int,
                ) && end_at@[k] <= m,
        decreases nr - m,
    {
        let fr = ranges[m];
        if fr.control_idx >= cb && fr.start_char_idx > 0 && fr.start_char_idx < len {
            begin_at.set(fr.start_char_idx, begin_at[fr.start_char_idx] + 1);
        }
        if fr.end_char_idx < len {
            end_at.set(fr.end_char_idx, end_at[fr.end_char_idx] + 1);
        }
        m = m + 1;
    }
    (begin_at, end_at)
}

/// Adding the markers' code units to an offset kept modulo 2^32.
proof fn lemma_marker_step(before: int, off: int, bb: int, ee: int)
    requires
        before >= 0,
        bb >= 0,
        ee >= 0,
        off == before % 0x1_0000_0000,
    ensures
        (off + (bb % 0x1_0000_0000) * 8 + (ee % 0x1_0000_0000) * 8) % 0x1_0000_0000 == (before + 8 * (
        bb + ee)) % 0x1_0000_0000,
{
    let m32 = 0x1_0000_0000int;
    vstd::arithmetic::div_mod::lemma_mul_mod_noop_left(bb, 8, m32);
    vstd::arithmetic::div_mod::lemma_mul_mod_noop_left(ee, 8, m32);
    vstd::arithmetic::div_mod::lemma_add_mod_noop(before, (bb % m32) * 8 + (ee % m32) * 8, m32);
    vstd::arithmetic::div_mod::lemma_add_mod_noop(before, 8 * (bb + ee), m32);
    vstd::arithmetic::div_mod::lemma_add_mod_noop((bb % m32) * 8, (ee % m32) * 8, m32);
    vstd::arithmetic::div_mod::lemma_add_mod_noop(bb * 8, ee * 8, m32);
    vstd::arithmetic::div_mod::lemma_mod_twice(before, m32);
    vstd::arithmetic::div_mod::lemma_add_mod_noop(off, (bb % m32) * 8 + (ee % m32) * 8, m32);
}

/// Rebuilds the character offsets of `para` from its text, its controls and
/// its field ranges (see `rebuilt_offsets`); nothing else changes.
pub fn rebuild_char_offsets(para: &mut Paragraph)
    ensures
        final(para).char_offsets@ == rebuilt_offsets(*old(para)),
        final(para).text == old(para).text,
        final(para).controls == old(para).controls,
        final(para).field_ranges == old(para).field_ranges,
        final(para).line_segs == old(para).line_segs,
        final(para).ctrl_data_records == old(para).ctrl_data_records,
{
    let ghost p0 = *para;
    let text_chars = chars_of(para.text.as_str());
    let len = text_chars.len();
    if len == 0 {
        para.char_offsets = Vec::new();
        assert(para.char_offsets@ =~= rebuilt_offsets(p0));
        return;
    }
    let cb: usize = if para.char_offsets.len() > 0 {
        (para.char_offsets[0] / 8) as usize
    } else {
        para.controls.len()
    };
    assert(cb == ctrls_before_text(p0));
    let (begin_at, end_at) = count_markers(&para.field_ranges, cb, len);
    let mut offset: u64 = ((cb as u64 % 0x1_0000_0000) * 8) % 0x1_0000_0000;
    proof {
        vstd::arithmetic::div_mod::lemma_mul_mod_noop_left(cb as int, 8, 0x1_0000_0000);
    }
    let mut new_offsets: Vec<u32> = Vec::new();
    let mut i: usize = 0;
    while i < len
        invariant
            i <= len,
            len == p0.text@.len(),
            text_chars@ == p0.text@,
            cb == ctrls_before_text(p0),
            begin_at@.len() == len,
            end_at@.len() == len,
            forall|k: int|
                0 <= k < len ==> #[trigger] begin_at@[k] == count_begins(
                    p0.field_ranges@,
                    cb as nat,
                    len as nat,
                    k as nat,
                    p0.field_ranges@.len() as int,
                ),
            forall|k: int|
                0 <= k < len ==> #[trigger] end_at@[k] == count_ends(
                    p0.field_ranges@,
                    len as nat,
                    k as nat,
                    p0.field_ranges@.len() as int,
                ),
            new_offsets@.len() == i,
            forall|k: int| 0 <= k < i ==> new_offsets@[k] == rebuilt_offsets(p0)[k],
            offset < 0x1_0000_0000,
            i == 0 ==> offset == (8 * cb) % 0x1_0000_0000,
            i > 0 ==> offset == (raw_offset(p0.text@, p0.field_ranges@, cb as nat, (i - 1) as nat) + char_units(p0.text@[i - 1]))
                % 0x1_0000_0000,
        decreases len - i,
    {
        let b = begin_at[i] as u64 % 0x1_0000_0000;
        let e = end_at[i] as u64 % 0x1_0000_0000;
        let ghost before: int = if i == 0 {
            8 * (cb as int)
        } else {
            (raw_offset(p0.text@, p0.field_ranges@, cb as nat, (i - 1) as nat) + char_units(p0.text@[i - 1])) as int
        };
        proof {
            lemma_marker_step(before, offset as int, begin_at@[i as int] as int, end_at@[i as int] as int);
            assert(gap_before(p0.text@, p0.field_ranges@, cb as nat, i as nat) == 8 * (begin_at@[i as int] + end_at@[i as int]));
            assert(raw_offset(p0.text@, p0.field_ranges@, cb as nat, i as nat) == before + gap_before(p0.text@, p0.field_ranges@, cb as nat, i as nat));
        }
        offset = (offset + b * 8 + e * 8) % 0x1_0000_0000;
        new_offsets.push(offset as u32);
        let ch = text_chars[i];
        let size: u64 = if ch == '\t' {
            8
        } else if ch == '\n' || ch == '\u{00A0}' {
            1
        } else {
            crate::encoding::char_utf16_len(ch) as u64
        };
        proof {
            vstd::arithmetic::div_mod::lemma_add_mod_noop_right(
                size as int,
                raw_offset(p0.text@, p0.field_ranges@, cb as nat, i as nat) as int,
                0x1_0000_0000,
            );
            assert(size == char_units(p0.text@[i as int]));
        }
        offset = (offset + size) % 0x1_0000_0000;
        i = i + 1;
    }
    para.char_offsets = new_offsets;
    assert(para.char_offsets@ =~= rebuilt_offsets(p0));
}

} // verus!
