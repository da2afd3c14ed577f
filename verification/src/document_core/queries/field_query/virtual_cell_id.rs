//! Document-wide field IDs for table cells that are named as form fields.
//!
//! Such a "virtual cell field" has no field control and so no stored ID; it
//! gets one derived from its location, with bit 31 set to keep it apart from
//! the small sequential IDs an editor gives real fields. Where two fields
//! still end up with one ID, `resolve_virtual_field_id_collisions` moves
//! the virtual ones to free IDs.

use std::collections::hash_map::DefaultHasher;
use std::collections::HashSet;
use std::hash::Hasher;
use vstd::prelude::*;
use crate::document_core::queries::field_query::{FieldInfo, FieldInfoView, FieldLocation, LocationView, NestedEntry, infos_view};
use crate::model::control::FieldView;

verus! {

/// The `n` bytes of `x`, least significant first.
pub open spec fn le_bytes(x: nat, n: nat) -> Seq<u8>
    decreases n,
{
    if n == 0 {
        Seq::empty()
    } else {
        seq![(x % 256) as u8] + le_bytes(x / 256, (n - 1) as nat)
    }
}

/// The bytes of an index as the hasher takes them: all `usize::BITS / 8`
/// of them, least significant first. This fixes the byte order; it is the
/// order in which `usize::hash` feeds a hasher on little-endian targets.
pub open spec fn index_bytes(x: usize) -> Seq<u8> {
    le_bytes(x as nat, (usize::BITS / 8) as nat)
}

/// What one location step feeds the hasher: a tag byte (0 for a table
/// cell, 1 for a text box), then its indices.
pub open spec fn entry_chunks(e: NestedEntry) -> Seq<Seq<u8>> {
    match e {
        NestedEntry::TableCell { control_index, cell_index, para_index } => seq![
            seq![0u8],
            index_bytes(control_index),
            index_bytes(cell_index),
            index_bytes(para_index),
        ],
        NestedEntry::TextBox { control_index, para_index } => seq![
            seq![1u8],
            index_bytes(control_index),
            index_bytes(para_index),
        ],
    }
}

/// What the steps of a path feed the hasher, in order.
pub open spec fn path_chunks(path: Seq<NestedEntry>) -> Seq<Seq<u8>>
    decreases path.len(),
{
    if path.len() == 0 {
        Seq::empty()
    } else {
        path_chunks(path.drop_last()) + entry_chunks(path.last())
    }
}

/// What a location feeds the hasher: its section and paragraph indices,
/// then its steps.
pub open spec fn location_chunks(loc: LocationView) -> Seq<Seq<u8>> {
    seq![index_bytes(loc.section_index), index_bytes(loc.para_index)] + path_chunks(loc.nested_path)
}

/// The proposed ID of the virtual cell field at `loc` (whose last step is
/// the cell): bit 31 set, the low 31 bits from the hash of the location.
pub open spec fn virtual_id(loc: LocationView) -> u32 {
    (0x8000_0000 + <DefaultHasher as vstd::std_specs::hash::DefaultHasherAdditionalSpecFns>::spec_finish(
        location_chunks(loc),
    ) % 0x8000_0000) as u32
}

/// The bytes of `x` as the hasher takes them (see `index_bytes`).
fn index_bytes_of(x: usize) -> (r: Vec<u8>)
    ensures
        r@ == index_bytes(x),
{
    let n: usize = (usize::BITS / 8) as usize;
    let mut r: Vec<u8> = Vec::new();
    let mut cur = x;
    let mut k: usize = 0;
    while k < n
        invariant
            k <= n,
            n == usize::BITS / 8,
            r@ + le_bytes(cur as nat, (n - k) as nat) == le_bytes(x as nat, n as nat),
        decreases n - k,
    {
        let ghost rest = le_bytes((cur / 256) as nat, (n - k - 1) as nat);
        assert(le_bytes(cur as nat, (n - k) as nat) == seq![(cur % 256) as u8] + rest);
        r.push((cur % 256) as u8);
        cur = cur / 256;
        k = k + 1;
        assert(r@ + le_bytes(cur as nat, (n - k) as nat) =~= le_bytes(x as nat, n as nat));
    }
    assert(r@ + le_bytes(cur as nat, 0) =~= r@);
    r
}

/// Feeds the hasher the indices of one location step.
fn hash_entry(h: &mut DefaultHasher, e: NestedEntry)
    ensures
        final(h)@ == old(h)@ + entry_chunks(e),
{
    match e {
        NestedEntry::TableCell { control_index, cell_index, para_index } => {
            let mut tag: Vec<u8> = Vec::new();
            tag.push(0u8);
            assert(tag@ =~= seq![0u8]);
            h.write(tag.as_slice());
            h.write(index_bytes_of(control_index).as_slice());
            h.write(index_bytes_of(cell_index).as_slice());
            h.write(index_bytes_of(para_index).as_slice());
        },
        NestedEntry::TextBox { control_index, para_index } => {
            let mut tag: Vec<u8> = Vec::new();
            tag.push(1u8);
            assert(tag@ =~= seq![1u8]);
            h.write(tag.as_slice());
            h.write(index_bytes_of(control_index).as_slice());
            h.write(index_bytes_of(para_index).as_slice());
        },
    }
    assert(h@ =~= old(h)@ + entry_chunks(e));
}

/// The proposed ID of the virtual cell field at `loc`.
pub fn virtual_cell_field_id(loc: &FieldLocation) -> (id: u32)
    ensures
        id == virtual_id(loc@),
        id >= 0x8000_0000,
{
    let mut h = DefaultHasher::new();
    h.write(index_bytes_of(loc.section_index).as_slice());
    h.write(index_bytes_of(loc.para_index).as_slice());
    let ghost start = h@;
    let mut i: usize = 0;
    while i < loc.nested_path.len()
        invariant
            i <= loc.nested_path@.len(),
            h@ == start + path_chunks(loc.nested_path@.subrange(0, i as int)),
        decreases loc.nested_path@.len() - i,
    {
        hash_entry(&mut h, loc.nested_path[i]);
        let ghost pre = loc.nested_path@.subrange(0, i + 1);
        assert(pre.drop_last() =~= loc.nested_path@.subrange(0, i as int));
        i = i + 1;
        assert(h@ =~= start + path_chunks(loc.nested_path@.subrange(0, i as int)));
    }
    assert(loc.nested_path@.subrange(0, loc.nested_path@.len() as int) =~= loc.nested_path@);
    assert(h@ =~= location_chunks(loc@));
    let d = h.finish();
    0x8000_0000 + (d % 0x8000_0000) as u32
}

/// The IDs of the real (non-virtual) fields among the first `n`.
pub open spec fn real_ids_upto(fields: Seq<FieldInfoView>, n: int) -> Set<u32>
    decreases n,
{
    if n <= 0 {
        Set::empty()
    } else if fields[n - 1].is_virtual_cell_field {
        real_ids_upto(fields, n - 1)
    } else {
        real_ids_upto(fields, n - 1).insert(fields[n - 1].field.field_id)
    }
}

/// The first value `>= c` (below 2^32) that `used` does not hold, or 2^32.
pub open spec fn next_free(used: Set<u32>, c: int) -> int
    decreases 0x1_0000_0000 - c,
{
    if c >= 0x1_0000_0000 || c < 0 {
        c
    } else if !used.contains(c as u32) {
        c
    } else {
        next_free(used, c + 1)
    }
}

/// The IDs in use, the probe cursor and the resolved IDs after the first
/// `i` fields: a real field keeps its ID; a virtual field keeps its ID
/// where no real field and no earlier field already has it, and otherwise
/// takes the first free value at or after the cursor (kept where none is
/// left below 2^32).
pub open spec fn resolve_state(fields: Seq<FieldInfoView>, i: int) -> (Set<u32>, int, Seq<u32>)
    decreases i,
{
    if i <= 0 {
        (real_ids_upto(fields, fields.len() as int), 0x8000_0000, Seq::empty())
    } else {
        let (used, cursor, ids) = resolve_state(fields, i - 1);
        let f = fields[i - 1];
        let id = f.field.field_id;
        if !f.is_virtual_cell_field {
            (used, cursor, ids.push(id))
        } else if !used.contains(id) {
            (used.insert(id), cursor, ids.push(id))
        } else {
            let c = next_free(used, cursor);
            if c < 0x1_0000_0000 {
                (used.insert(c as u32), c + 1, ids.push(c as u32))
            } else {
                (used, c, ids.push(id))
            }
        }
    }
}

/// The field IDs after resolution.
pub open spec fn resolved_ids(fields: Seq<FieldInfoView>) -> Seq<u32> {
    resolve_state(fields, fields.len() as int).2
}

/// `fields` with its IDs replaced by `ids`.
pub open spec fn with_ids(fields: Seq<FieldInfoView>, ids: Seq<u32>) -> Seq<FieldInfoView> {
    Seq::new(
        fields.len(),
        |i: int| FieldInfoView { field: FieldView { field_id: ids[i], ..fields[i].field }, ..fields[i] },
    )
}

proof fn lemma_resolve_state_len(fields: Seq<FieldInfoView>, i: int)
    requires
        0 <= i,
    ensures
        resolve_state(fields, i).2.len() == i,
    decreases i,
{
    if i > 0 {
        lemma_resolve_state_len(fields, i - 1);
    }
}

/// Gives the virtual cell fields among `fields` IDs that no other field
/// has: a virtual field whose proposed ID is already taken (by a real field
/// anywhere in the list, or by an earlier field) moves to the first free
/// value at or above the probe cursor, which only moves forward, so the
/// whole pass is linear. Real fields keep their IDs.
pub fn resolve_virtual_field_id_collisions(fields: &mut Vec<FieldInfo>)
    ensures
        infos_view(final(fields)@) == with_ids(infos_view(old(fields)@), resolved_ids(infos_view(old(fields)@))),
{
    broadcast use vstd::std_specs::hash::group_hash_axioms;

    let ghost v0 = infos_view(fields@);
    let n = fields.len();
    let mut used: HashSet<u32> = HashSet::new();
    let mut i: usize = 0;
    while i < n
        invariant
            i <= n,
            n == fields@.len(),
            infos_view(fields@) == v0,
            used@ == real_ids_upto(v0, i as int),
        decreases n - i,
    {
        if !fields[i].is_virtual_cell_field {
            used.insert(fields[i].field.field_id);
        }
        i = i + 1;
    }
    let mut cursor: u64 = 0x8000_0000;
    let mut i: usize = 0;
    proof {
        lemma_resolve_state_len(v0, 0);
    }
    while i < n
        invariant
            i <= n,
            n == fields@.len(),
            n == v0.len(),
            used@ == resolve_state(v0, i as int).0,
            cursor == resolve_state(v0, i as int).1,
            resolve_state(v0, i as int).1 <= 0x1_0000_0000,
            infos_view(fields@) == with_ids(v0, resolve_state(v0, i as int).2 + v0.subrange(i as int, n as int).map_values(|f: FieldInfoView| f.field.field_id)),
        decreases n - i,
    {
        proof {
            lemma_resolve_state_len(v0, i as int);
            lemma_resolve_state_len(v0, i + 1);
        }
        let ghost st = resolve_state(v0, i as int);
        let ghost fv = fields@;
        let ghost rest = v0.subrange(i as int, n as int).map_values(|f: FieldInfoView| f.field.field_id);
        assert(fields@[i as int]@ == infos_view(fields@)[i as int]);
        assert((st.2 + rest)[i as int] == rest[0]);
        assert(fields[i as int].is_virtual_cell_field == v0[i as int].is_virtual_cell_field);
        assert(fields[i as int].field.field_id == v0[i as int].field.field_id);
        if fields[i].is_virtual_cell_field {
            let id = fields[i].field.field_id;
            if used.contains(&id) {
                let ghost c0 = cursor as int;
                while cursor < 0x1_0000_0000 && used.contains(&(cursor as u32))
                    invariant
                        c0 <= cursor <= 0x1_0000_0000,
                        next_free(used@, cursor as int) == next_free(used@, c0),
                    decreases 0x1_0000_0000 - cursor,
                {
                    cursor = cursor + 1;
                }
                assert(cursor as int == next_free(used@, c0));
                if cursor < 0x1_0000_0000 {
                    let nid = cursor as u32;
                    fields[i].field.field_id = nid;
                    used.insert(nid);
                    cursor = cursor + 1;
                }
            } else {
                used.insert(id);
            }
        }
        let ghost ids_before = st.2 + rest;
        let ghost st2 = resolve_state(v0, i + 1);
        let ghost rest2 = v0.subrange(i + 1, n as int).map_values(|f: FieldInfoView| f.field.field_id);
        assert(st2.2 == st.2.push(st2.2[i as int]));
        assert(st2.2 + rest2 =~= ids_before.update(i as int, st2.2[i as int]));
        assert(fields@[i as int]@ == with_ids(v0, st2.2 + rest2)[i as int]);
        assert forall|k: int| 0 <= k < n && k != i implies #[trigger] infos_view(fields@)[k] == with_ids(v0, st2.2 + rest2)[k] by {
            assert(infos_view(fields@)[k] == fields@[k]@);
            assert(fields@[k] == fv[k]);
            assert(infos_view(fv)[k] == with_ids(v0, ids_before)[k]);
        }
        i = i + 1;
        assert(infos_view(fields@) =~= with_ids(v0, resolve_state(v0, i as int).2 + v0.subrange(i as int, n as int).map_values(|f: FieldInfoView| f.field.field_id)));
    }
    assert(resolve_state(v0, n as int).2 + v0.subrange(n as int, n as int).map_values(|f: FieldInfoView| f.field.field_id) =~= resolved_ids(v0));
}

} // verus!

verus! {

/// The values from 0x8000_0000 up to (not including) `c`.
spec fn high_range(c: int) -> Set<u32> {
    Set::new(|x: u32| 0x8000_0000 <= x && (x as int) < c)
}

/// Number of virtual cell fields among the first `n`.
pub open spec fn count_virtual(fields: Seq<FieldInfoView>, n: int) -> int
    decreases n,
{
    if n <= 0 {
        0
    } else {
        count_virtual(fields, n - 1) + if fields[n - 1].is_virtual_cell_field { 1int } else { 0int }
    }
}

proof fn lemma_count_virtual_bounds(fields: Seq<FieldInfoView>, i: int, j: int)
    requires
        0 <= i <= j,
    ensures
        0 <= count_virtual(fields, i) <= i,
        count_virtual(fields, i) <= count_virtual(fields, j),
        count_virtual(fields, j) - count_virtual(fields, i) <= j - i,
    decreases j,
{
    if j > i {
        lemma_count_virtual_bounds(fields, i, j - 1);
    } else if i > 0 {
        lemma_count_virtual_bounds(fields, i - 1, i - 1);
    }
}

proof fn lemma_high_range(c: int)
    requires
        0x8000_0000 <= c <= 0x1_0000_0000,
    ensures
        high_range(c).finite(),
        high_range(c).len() == c - 0x8000_0000,
    decreases c,
{
    if c == 0x8000_0000 {
        assert(high_range(c) =~= Set::<u32>::empty());
    } else {
        lemma_high_range(c - 1);
        assert(high_range(c) =~= high_range(c - 1).insert((c - 1) as u32));
    }
}

proof fn lemma_real_ids(fields: Seq<FieldInfoView>, n: int)
    requires
        0 <= n <= fields.len(),
    ensures
        real_ids_upto(fields, n).finite(),
        real_ids_upto(fields, n).len() <= n - count_virtual(fields, n),
        forall|k: int| 0 <= k < n && !fields[k].is_virtual_cell_field ==> #[trigger] real_ids_upto(
            fields,
            n,
        ).contains(fields[k].field.field_id),
        forall|x: u32| #[trigger] real_ids_upto(fields, n).contains(x) ==> exists|k: int|
            0 <= k < n && !fields[k].is_virtual_cell_field && fields[k].field.field_id == x,
    decreases n,
{
    if n > 0 {
        lemma_real_ids(fields, n - 1);
        if !fields[n - 1].is_virtual_cell_field {
            assert forall|x: u32| #[trigger] real_ids_upto(fields, n).contains(x) implies exists|k: int|
                0 <= k < n && !fields[k].is_virtual_cell_field && fields[k].field.field_id == x by {
                if x != fields[n - 1].field.field_id {
                    assert(real_ids_upto(fields, n - 1).contains(x));
                }
            }
        }
    }
}

proof fn lemma_next_free(used: Set<u32>, c: int)
    requires
        0x8000_0000 <= c <= 0x1_0000_0000,
        high_range(c).subset_of(used),
    ensures
        c <= next_free(used, c) <= 0x1_0000_0000,
        high_range(next_free(used, c)).subset_of(used),
        next_free(used, c) < 0x1_0000_0000 ==> !used.contains(next_free(used, c) as u32),
    decreases 0x1_0000_0000 - c,
{
    if c < 0x1_0000_0000 && used.contains(c as u32) {
        assert(high_range(c + 1).subset_of(used)) by {
            assert forall|x: u32| #[trigger] high_range(c + 1).contains(x) implies used.contains(x) by {
                if (x as int) < c {
                    assert(high_range(c).contains(x));
                } else {
                    assert(x == c as u32);
                }
            }
        }
        lemma_next_free(used, c + 1);
    }
}

/// The resolution state after `i` fields: used IDs hold the real IDs, the
/// probe range below the cursor, and each resolved virtual ID, which is no
/// real ID and no other virtual field's ID.
spec fn resolve_inv(fields: Seq<FieldInfoView>, i: int) -> bool {
    let (used, cursor, ids) = resolve_state(fields, i);
    let realset = real_ids_upto(fields, fields.len() as int);
    &&& used.finite()
    &&& used.len() <= realset.len() + count_virtual(fields, i)
    &&& 0x8000_0000 <= cursor <= 0x1_0000_0000
    &&& high_range(cursor).subset_of(used)
    &&& realset.subset_of(used)
    &&& ids.len() == i
    &&& forall|k: int| 0 <= k < i && !fields[k].is_virtual_cell_field ==> #[trigger] ids[k] == fields[k].field.field_id
    &&& forall|k: int| 0 <= k < i && fields[k].is_virtual_cell_field ==> used.contains(#[trigger] ids[k]) && !realset.contains(ids[k])
    &&& forall|k1: int, k2: int| 0 <= k1 < k2 < i && fields[k1].is_virtual_cell_field && fields[k2].is_virtual_cell_field ==> #[trigger] ids[k1] != #[trigger] ids[k2]
}

proof fn lemma_resolve_inv(fields: Seq<FieldInfoView>, i: int)
    requires
        0 <= i <= fields.len(),
        fields.len() < 0x8000_0000,
    ensures
        resolve_inv(fields, i),
    decreases i,
{
    let n = fields.len() as int;
    let realset = real_ids_upto(fields, n);
    lemma_real_ids(fields, n);
    lemma_count_virtual_bounds(fields, i, n);
    if i == 0 {
        lemma_high_range(0x8000_0000);
        assert(high_range(0x8000_0000) =~= Set::<u32>::empty());
    } else {
        lemma_resolve_inv(fields, i - 1);
        lemma_count_virtual_bounds(fields, i - 1, n);
        let (used, cursor, ids) = resolve_state(fields, i - 1);
        let f = fields[i - 1];
        let id = f.field.field_id;
        if f.is_virtual_cell_field && used.contains(id) {
            lemma_next_free(used, cursor);
            let c = next_free(used, cursor);
            if c >= 0x1_0000_0000 {
                lemma_high_range(0x1_0000_0000);
                vstd::set_lib::lemma_len_subset(high_range(0x1_0000_0000), used);
                assert(count_virtual(fields, i) == count_virtual(fields, i - 1) + 1);
                assert(false);
            }
            assert(high_range(c + 1) =~= high_range(c).insert(c as u32));
        }
    }
}

/// After resolution a real field keeps its ID, and a virtual cell field has
/// an ID that no other field in the list has (for lists shorter than
/// 2^31, which leave enough free IDs above 0x8000_0000).
pub proof fn lemma_resolved_ids_distinct(fields: Seq<FieldInfoView>)
    requires
        fields.len() < 0x8000_0000,
    ensures
        resolved_ids(fields).len() == fields.len(),
        forall|k: int| 0 <= k < fields.len() && !fields[k].is_virtual_cell_field ==> #[trigger] resolved_ids(fields)[k]
            == fields[k].field.field_id,
        forall|k1: int, k2: int|
            0 <= k1 < fields.len() && 0 <= k2 < fields.len() && k1 != k2 && fields[k1].is_virtual_cell_field
                ==> #[trigger] resolved_ids(fields)[k1] != #[trigger] resolved_ids(fields)[k2],
{
    let n = fields.len() as int;
    lemma_resolve_inv(fields, n);
    lemma_real_ids(fields, n);
    let ids = resolved_ids(fields);
    let realset = real_ids_upto(fields, n);
    assert forall|k1: int, k2: int|
        0 <= k1 < fields.len() && 0 <= k2 < fields.len() && k1 != k2 && fields[k1].is_virtual_cell_field
            implies #[trigger] ids[k1] != #[trigger] ids[k2] by {
        if !fields[k2].is_virtual_cell_field {
            assert(realset.contains(fields[k2].field.field_id));
        } else if k1 < k2 {
        } else {
        }
    }
}

} // verus!
