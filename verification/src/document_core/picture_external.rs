//! Pictures whose image is a file outside the document: the names of the
//! files that are still to be loaded, and loading one of them.

use vstd::prelude::*;
use crate::document_core::{editor_state_unchanged, DocumentCore};
use crate::document_core::queries::field_query::navigation::para_same_but_controls;
use crate::encoding::chars_of;
use crate::json::serde_strings_json;
use crate::model::bin_data::BinDataContent;
use crate::model::control::{opt_string_view, Control};
use crate::model::document::{Document, Section};
use crate::model::paragraph::Paragraph;
use crate::model::picture::Picture;
use crate::model::shape::ShapeObject;
use crate::text::{
    chars_eq,
    chars_less,
    lemma_str_lt_irreflexive,
    lemma_str_lt_total,
    lemma_str_lt_transitive,
    str_lt,
    strings_view,
};

verus! {

/// The picture that control `c` shows: a picture control, or a shape that
/// is a picture.
pub open spec fn control_picture(c: Control) -> Option<Picture> {
    match c {
        Control::Picture(p) => Some(*p),
        Control::Shape(s) => match *s {
            ShapeObject::Picture(p) => Some(p),
            _ => None,
        },
        _ => None,
    }
}

/// The pictures among the controls `cs`, in order.
pub open spec fn controls_pictures(cs: Seq<Control>) -> Seq<Picture>
    decreases cs.len(),
{
    if cs.len() == 0 {
        Seq::empty()
    } else {
        controls_pictures(cs.drop_last()) + match control_picture(cs.last()) {
            Some(p) => seq![p],
            None => Seq::empty(),
        }
    }
}

/// The pictures among the controls of the paragraphs `ps`, in order.
pub open spec fn paras_pictures(ps: Seq<Paragraph>) -> Seq<Picture>
    decreases ps.len(),
{
    if ps.len() == 0 {
        Seq::empty()
    } else {
        paras_pictures(ps.drop_last()) + controls_pictures(ps.last().controls@)
    }
}

/// The pictures among the controls of the paragraphs of the sections `ss`,
/// in order (pictures inside tables and text boxes are not among them).
pub open spec fn sections_pictures(ss: Seq<Section>) -> Seq<Picture>
    decreases ss.len(),
{
    if ss.len() == 0 {
        Seq::empty()
    } else {
        sections_pictures(ss.drop_last()) + paras_pictures(ss.last().paragraphs@)
    }
}

/// The pictures of the paragraphs of `doc`, in document order.
pub open spec fn doc_pictures(doc: Document) -> Seq<Picture> {
    sections_pictures(doc.sections@)
}

/// Whether the binary data item with ID `id` holds bytes.
pub open spec fn bin_loaded(contents: Seq<BinDataContent>, id: u16) -> bool {
    exists|k: int| 0 <= k < contents.len() && #[trigger] contents[k].id == id && contents[k].data@.len() > 0
}

/// The last component of `path`: what follows its last `/` or `\`.
pub open spec fn path_basename(path: Seq<char>) -> Seq<char>
    decreases path.len(),
{
    if path.len() == 0 {
        path
    } else if path.last() == '/' || path.last() == '\\' {
        Seq::empty()
    } else {
        path_basename(path.drop_last()).push(path.last())
    }
}

/// The file name that picture `p` waits for: the last component of its
/// external path, where it has one and its image is not loaded yet.
pub open spec fn awaited_name(p: Picture, contents: Seq<BinDataContent>) -> Option<Seq<char>> {
    match p.image_attr.external_path {
        Some(path) => if bin_loaded(contents, p.image_attr.bin_data_id) {
            None
        } else {
            Some(path_basename(path@))
        },
        None => None,
    }
}

/// The file names that the pictures `pics` wait for.
pub open spec fn awaited_names(pics: Seq<Picture>, contents: Seq<BinDataContent>) -> Set<Seq<char>>
    decreases pics.len(),
{
    if pics.len() == 0 {
        Set::empty()
    } else {
        let s = awaited_names(pics.drop_last(), contents);
        match awaited_name(pics.last(), contents) {
            Some(n) => s.insert(n),
            None => s,
        }
    }
}

/// Each string of `l` comes before the next (see `str_lt`), so no string
/// occurs twice.
pub open spec fn strictly_sorted(l: Seq<Seq<char>>) -> bool {
    forall|i: int, j: int| 0 <= i < j < l.len() ==> str_lt(#[trigger] l[i], #[trigger] l[j])
}

/// Two strictly sorted lists of the same strings are the same list.
pub proof fn lemma_sorted_lists_equal(a: Seq<Seq<char>>, b: Seq<Seq<char>>)
    requires
        strictly_sorted(a),
        strictly_sorted(b),
        a.to_set() == b.to_set(),
    ensures
        a == b,
    decreases a.len(),
{
    if a.len() == 0 {
        if b.len() > 0 {
            assert(b.to_set().contains(b[0]));
        }
    } else if b.len() == 0 {
        assert(a.to_set().contains(a[0]));
    } else {
        // The least element of each list is the least of the common set.
        assert(b.to_set().contains(a[0]));
        assert(a.to_set().contains(b[0]));
        let ia = choose|i: int| 0 <= i < a.len() && a[i] == b[0];
        let ib = choose|i: int| 0 <= i < b.len() && b[i] == a[0];
        if a[0] != b[0] {
            assert(ia > 0 && ib > 0);
            assert(str_lt(a[0], a[ia]));
            assert(str_lt(b[0], b[ib]));
            lemma_str_lt_transitive(a[0], b[0], a[0]);
            lemma_str_lt_irreflexive(a[0]);
        }
        let ta = a.drop_first();
        let tb = b.drop_first();
        assert forall|x: Seq<char>| ta.to_set().contains(x) implies tb.to_set().contains(x) by {
            let i = choose|i: int| 0 <= i < ta.len() && ta[i] == x;
            assert(a[i + 1] == x);
            assert(str_lt(a[0], x));
            assert(b.to_set().contains(x));
            let j = choose|j: int| 0 <= j < b.len() && b[j] == x;
            if j == 0 {
                lemma_str_lt_irreflexive(a[0]);
            }
            assert(tb[j - 1] == x);
        }
        assert forall|x: Seq<char>| tb.to_set().contains(x) implies ta.to_set().contains(x) by {
            let i = choose|i: int| 0 <= i < tb.len() && tb[i] == x;
            assert(b[i + 1] == x);
            assert(str_lt(b[0], x));
            assert(a.to_set().contains(x));
            let j = choose|j: int| 0 <= j < a.len() && a[j] == x;
            if j == 0 {
                lemma_str_lt_irreflexive(b[0]);
            }
            assert(ta[j - 1] == x);
        }
        assert(ta.to_set() =~= tb.to_set());
        lemma_sorted_lists_equal(ta, tb);
        assert(a =~= seq![a[0]] + ta);
        assert(b =~= seq![b[0]] + tb);
    }
}

/// Adds `name` to the strictly sorted list `names`, where it is not there
/// yet.
fn insert_sorted(names: &mut Vec<String>, name: String)
    requires
        strictly_sorted(strings_view(old(names)@)),
    ensures
        strictly_sorted(strings_view(final(names)@)),
        strings_view(final(names)@).to_set() == strings_view(old(names)@).to_set().insert(name@),
{
    let ghost sv = strings_view(names@);
    let nc = chars_of(name.as_str());
    let n = names.len();
    let mut i: usize = 0;
    let mut stop = false;
    while i < n && !stop
        invariant
            i <= n,
            n == names@.len(),
            sv == strings_view(names@),
            strictly_sorted(sv),
            nc@ == name@,
            forall|k: int| 0 <= k < i ==> str_lt(#[trigger] sv[k], name@),
            stop ==> i < n && str_lt(name@, sv[i as int]),
        decreases n - i + if stop { 0int } else { 1int },
    {
        let c = chars_of(names[i].as_str());
        assert(c@ == sv[i as int]);
        if chars_eq(c.as_slice(), nc.as_slice()) {
            proof {
                assert(sv.to_set().insert(name@) =~= sv.to_set());
            }
            return;
        }
        if chars_less(nc.as_slice(), c.as_slice()) {
            stop = true;
        } else {
            proof {
                lemma_str_lt_total(name@, sv[i as int]);
            }
            i = i + 1;
        }
    }
    names.insert(i, name);
    proof {
        let nv = strings_view(names@);
        assert(nv =~= sv.insert(i as int, nc@));
        assert forall|a: int, b: int| 0 <= a < b < nv.len() implies str_lt(#[trigger] nv[a], #[trigger] nv[b]) by {
            if b < i {
            } else if b == i {
            } else if a < i {
                assert(nv[b] == sv[b - 1]);
                lemma_str_lt_transitive(sv[a], name@, sv[i as int]);
                if b - 1 > i {
                    lemma_str_lt_transitive(sv[a], sv[i as int], sv[b - 1]);
                }
            } else if a == i {
                assert(nv[b] == sv[b - 1]);
                if b - 1 > i {
                    lemma_str_lt_transitive(name@, sv[i as int], sv[b - 1]);
                }
            } else {
                assert(nv[a] == sv[a - 1] && nv[b] == sv[b - 1]);
            }
        }
        assert forall|x: Seq<char>| nv.to_set().contains(x) implies sv.to_set().insert(name@).contains(x) by {
            let k = choose|k: int| 0 <= k < nv.len() && nv[k] == x;
            if k < i {
                assert(sv[k] == x);
            } else if k > i {
                assert(sv[k - 1] == x);
            }
        }
        assert forall|x: Seq<char>| sv.to_set().insert(name@).contains(x) implies nv.to_set().contains(x) by {
            if x == name@ {
                assert(nv[i as int] == x);
            } else {
                let k = choose|k: int| 0 <= k < sv.len() && sv[k] == x;
                if k < i {
                    assert(nv[k] == x);
                } else {
                    assert(nv[k + 1] == x);
                }
            }
        }
        assert(nv.to_set() =~= sv.to_set().insert(name@));
    }
}

/// The names awaited by two runs of pictures are those of each.
proof fn lemma_awaited_concat(a: Seq<Picture>, b: Seq<Picture>, contents: Seq<BinDataContent>)
    ensures
        awaited_names(a + b, contents) == awaited_names(a, contents).union(awaited_names(b, contents)),
    decreases b.len(),
{
    if b.len() == 0 {
        assert(a + b =~= a);
        assert(awaited_names(a, contents).union(Set::empty()) =~= awaited_names(a, contents));
    } else {
        assert((a + b).drop_last() =~= a + b.drop_last());
        assert((a + b).last() == b.last());
        lemma_awaited_concat(a, b.drop_last(), contents);
        let sa = awaited_names(a, contents);
        let sb = awaited_names(b.drop_last(), contents);
        match awaited_name(b.last(), contents) {
            Some(n) => {
                assert(sa.union(sb).insert(n) =~= sa.union(sb.insert(n)));
            },
            None => {},
        }
    }
}

/// The picture of control `c`, where it shows one.
fn picture_of(c: &Control) -> (r: Option<&Picture>)
    ensures
        match r {
            Some(p) => control_picture(*c) == Some(*p),
            None => control_picture(*c) is None,
        },
{
    match c {
        Control::Picture(p) => Some(&**p),
        Control::Shape(s) => match &**s {
            ShapeObject::Picture(p) => Some(p),
            _ => None,
        },
        _ => None,
    }
}

/// Whether the binary data item with ID `id` holds bytes.
fn is_loaded(contents: &Vec<BinDataContent>, id: u16) -> (r: bool)
    ensures
        r == bin_loaded(contents@, id),
{
    let mut k: usize = 0;
    while k < contents.len()
        invariant
            k <= contents@.len(),
            forall|m: int| 0 <= m < k ==> !(#[trigger] contents@[m].id == id && contents@[m].data@.len() > 0),
        decreases contents@.len() - k,
    {
        if contents[k].id == id && contents[k].data.len() > 0 {
            return true;
        }
        k = k + 1;
    }
    false
}

/// The last component of `path` (see `path_basename`).
fn basename_of(path: &str) -> (r: String)
    ensures
        r@ == path_basename(path@),
{
    let chars = chars_of(path);
    let n = chars.len();
    let mut start: usize = 0;
    let mut k: usize = 0;
    while k < n
        invariant
            start <= k <= n,
            n == chars@.len(),
            chars@ == path@,
            path_basename(chars@.subrange(0, k as int)) == chars@.subrange(start as int, k as int),
        decreases n - k,
    {
        let ghost pre = chars@.subrange(0, k as int);
        assert(chars@.subrange(0, k + 1).drop_last() =~= pre);
        assert(chars@.subrange(0, k + 1).last() == chars@[k as int]);
        if chars[k] == '/' || chars[k] == '\\' {
            start = k + 1;
            assert(chars@.subrange(start as int, k + 1) =~= Seq::<char>::empty());
        } else {
            assert(chars@.subrange(start as int, k + 1) =~= chars@.subrange(start as int, k as int).push(chars@[k as int]));
        }
        k = k + 1;
    }
    assert(chars@.subrange(0, n as int) =~= path@);
    let mut r = String::new();
    let mut m: usize = start;
    while m < n
        invariant
            start <= m <= n,
            n == chars@.len(),
            r@ == chars@.subrange(start as int, m as int),
        decreases n - m,
    {
        crate::encoding::push_char(&mut r, chars[m]);
        assert(r@ =~= chars@.subrange(start as int, m + 1));
        m = m + 1;
    }
    r
}

/// Adds to `names` the file names awaited by the pictures among `cs`.
fn collect_awaited_in_controls(cs: &Vec<Control>, contents: &Vec<BinDataContent>, names: &mut Vec<String>)
    requires
        strictly_sorted(strings_view(old(names)@)),
    ensures
        strictly_sorted(strings_view(final(names)@)),
        strings_view(final(names)@).to_set() == strings_view(old(names)@).to_set().union(
            awaited_names(controls_pictures(cs@), contents@),
        ),
{
    let ghost s0 = strings_view(names@).to_set();
    let n = cs.len();
    let mut k: usize = 0;
    while k < n
        invariant
            k <= n,
            n == cs@.len(),
            strictly_sorted(strings_view(names@)),
            strings_view(names@).to_set() == s0.union(awaited_names(controls_pictures(cs@.subrange(0, k as int)), contents@)),
        decreases n - k,
    {
        let ghost pre = controls_pictures(cs@.subrange(0, k as int));
        assert(cs@.subrange(0, k + 1).drop_last() =~= cs@.subrange(0, k as int));
        assert(cs@.subrange(0, k + 1).last() == cs@[k as int]);
        let ghost post = controls_pictures(cs@.subrange(0, k + 1));
        match picture_of(&cs[k]) {
            Some(pic) => {
                assert(post == pre + seq![*pic]);
                assert((pre + seq![*pic]).drop_last() =~= pre);
                assert((pre + seq![*pic]).last() == *pic);
                match &pic.image_attr.external_path {
                    Some(path) => {
                        if !is_loaded(contents, pic.image_attr.bin_data_id) {
                            let b = basename_of(path.as_str());
                            insert_sorted(names, b);
                            assert(s0.union(awaited_names(pre, contents@)).insert(b@) =~= s0.union(
                                awaited_names(pre, contents@).insert(b@),
                            ));
                        }
                    },
                    None => {},
                }
            },
            None => {
                assert(post =~= pre);
            },
        }
        k = k + 1;
    }
    assert(cs@.subrange(0, n as int) =~= cs@);
}

/// Adds to `names` the file names awaited by the pictures of the paragraphs
/// `ps`.
fn collect_awaited_in_paras(ps: &Vec<Paragraph>, contents: &Vec<BinDataContent>, names: &mut Vec<String>)
    requires
        strictly_sorted(strings_view(old(names)@)),
    ensures
        strictly_sorted(strings_view(final(names)@)),
        strings_view(final(names)@).to_set() == strings_view(old(names)@).to_set().union(
            awaited_names(paras_pictures(ps@), contents@),
        ),
{
    let ghost s0 = strings_view(names@).to_set();
    let n = ps.len();
    let mut k: usize = 0;
    while k < n
        invariant
            k <= n,
            n == ps@.len(),
            strictly_sorted(strings_view(names@)),
            strings_view(names@).to_set() == s0.union(awaited_names(paras_pictures(ps@.subrange(0, k as int)), contents@)),
        decreases n - k,
    {
        let ghost pre = paras_pictures(ps@.subrange(0, k as int));
        assert(ps@.subrange(0, k + 1).drop_last() =~= ps@.subrange(0, k as int));
        assert(ps@.subrange(0, k + 1).last() == ps@[k as int]);
        let ghost mid = strings_view(names@).to_set();
        collect_awaited_in_controls(&ps[k].controls, contents, names);
        proof {
            let cp = controls_pictures(ps@[k as int].controls@);
            lemma_awaited_concat(pre, cp, contents@);
            assert(mid.union(awaited_names(cp, contents@)) =~= s0.union(awaited_names(pre + cp, contents@)));
        }
        k = k + 1;
    }
    assert(ps@.subrange(0, n as int) =~= ps@);
}

/// The targets of two runs of pictures are those of the first, then those
/// of the second.
proof fn lemma_targets_concat(a: Seq<Picture>, b: Seq<Picture>, contents: Seq<BinDataContent>, name: Seq<char>)
    ensures
        target_ids(a + b, contents, name) == target_ids(a, contents, name) + target_ids(b, contents, name),
    decreases b.len(),
{
    if b.len() == 0 {
        assert(a + b =~= a);
        assert(target_ids(a, contents, name) + Seq::empty() =~= target_ids(a, contents, name));
    } else {
        assert((a + b).drop_last() =~= a + b.drop_last());
        assert((a + b).last() == b.last());
        lemma_targets_concat(a, b.drop_last(), contents, name);
        let ta = target_ids(a, contents, name);
        let tb = target_ids(b.drop_last(), contents, name);
        let p = b.last();
        let tail: Seq<u16> = match p.image_attr.external_path {
            Some(path) => if path_basename(path@) == name && !bin_loaded(contents, p.image_attr.bin_data_id) {
                seq![p.image_attr.bin_data_id]
            } else {
                Seq::empty()
            },
            None => Seq::empty(),
        };
        assert(ta + tb + tail =~= ta + (tb + tail));
    }
}

/// A file name is listed as awaited exactly when loading a file of that
/// name fills at least one binary data item: the names that
/// `get_external_image_basenames` lists are those that
/// `inject_external_image` has pictures to load into.
pub proof fn lemma_awaited_iff_targets(pics: Seq<Picture>, contents: Seq<BinDataContent>, name: Seq<char>)
    ensures
        awaited_names(pics, contents).contains(name) <==> target_ids(pics, contents, name).len() > 0,
    decreases pics.len(),
{
    if pics.len() > 0 {
        lemma_awaited_iff_targets(pics.drop_last(), contents, name);
    }
}

/// Appends to `ids` the targets of a file named `name` among the pictures
/// of `cs` (see `target_ids`).
fn targets_in_controls(cs: &Vec<Control>, contents: &Vec<BinDataContent>, name: &[char], ids: &mut Vec<u16>)
    ensures
        final(ids)@ == old(ids)@ + target_ids(controls_pictures(cs@), contents@, name@),
{
    let ghost i0 = ids@;
    let n = cs.len();
    let mut k: usize = 0;
    while k < n
        invariant
            k <= n,
            n == cs@.len(),
            ids@ == i0 + target_ids(controls_pictures(cs@.subrange(0, k as int)), contents@, name@),
        decreases n - k,
    {
        let ghost pre = controls_pictures(cs@.subrange(0, k as int));
        let ghost before = ids@;
        assert(cs@.subrange(0, k + 1).drop_last() =~= cs@.subrange(0, k as int));
        assert(cs@.subrange(0, k + 1).last() == cs@[k as int]);
        match picture_of(&cs[k]) {
            Some(pic) => {
                assert((pre + seq![*pic]).drop_last() =~= pre);
                assert((pre + seq![*pic]).last() == *pic);
                let mut hit = false;
                match &pic.image_attr.external_path {
                    Some(path) => {
                        let b = chars_of(basename_of(path.as_str()).as_str());
                        if chars_eq(b.as_slice(), name) && !is_loaded(contents, pic.image_attr.bin_data_id) {
                            hit = true;
                        }
                    },
                    None => {},
                }
                let ghost tail: Seq<u16> = if hit { seq![pic.image_attr.bin_data_id] } else { Seq::empty() };
                if hit {
                    ids.push(pic.image_attr.bin_data_id);
                }
                assert(ids@ =~= before + tail);
                assert(target_ids(pre + seq![*pic], contents@, name@) == target_ids(pre, contents@, name@) + tail);
                assert(ids@ =~= i0 + target_ids(pre, contents@, name@) + tail);
            },
            None => {
                assert(controls_pictures(cs@.subrange(0, k + 1)) =~= pre);
            },
        }
        k = k + 1;
    }
    assert(cs@.subrange(0, n as int) =~= cs@);
}

/// Appends to `ids` the targets of a file named `name` among the pictures
/// of the paragraphs `ps`.
fn targets_in_paras(ps: &Vec<Paragraph>, contents: &Vec<BinDataContent>, name: &[char], ids: &mut Vec<u16>)
    ensures
        final(ids)@ == old(ids)@ + target_ids(paras_pictures(ps@), contents@, name@),
{
    let ghost i0 = ids@;
    let n = ps.len();
    let mut k: usize = 0;
    while k < n
        invariant
            k <= n,
            n == ps@.len(),
            ids@ == i0 + target_ids(paras_pictures(ps@.subrange(0, k as int)), contents@, name@),
        decreases n - k,
    {
        let ghost pre = paras_pictures(ps@.subrange(0, k as int));
        assert(ps@.subrange(0, k + 1).drop_last() =~= ps@.subrange(0, k as int));
        assert(ps@.subrange(0, k + 1).last() == ps@[k as int]);
        targets_in_controls(&ps[k].controls, contents, name, ids);
        proof {
            let cp = controls_pictures(ps@[k as int].controls@);
            lemma_targets_concat(pre, cp, contents@, name@);
            assert(i0 + target_ids(pre, contents@, name@) + target_ids(cp, contents@, name@) =~= i0 + (target_ids(
                pre,
                contents@,
                name@,
            ) + target_ids(cp, contents@, name@)));
        }
        k = k + 1;
    }
    assert(ps@.subrange(0, n as int) =~= ps@);
}

/// The targets of a file named `name` among the pictures of `doc`.
fn targets_in_doc(doc: &Document, name: &[char]) -> (ids: Vec<u16>)
    ensures
        ids@ == target_ids(doc_pictures(*doc), doc.bin_data_content@, name@),
{
    let mut ids: Vec<u16> = Vec::new();
    let ss = &doc.sections;
    let n = ss.len();
    let mut k: usize = 0;
    while k < n
        invariant
            k <= n,
            n == ss@.len(),
            ids@ == target_ids(sections_pictures(ss@.subrange(0, k as int)), doc.bin_data_content@, name@),
        decreases n - k,
    {
        let ghost pre = sections_pictures(ss@.subrange(0, k as int));
        assert(ss@.subrange(0, k + 1).drop_last() =~= ss@.subrange(0, k as int));
        assert(ss@.subrange(0, k + 1).last() == ss@[k as int]);
        targets_in_paras(&ss[k].paragraphs, &doc.bin_data_content, name, &mut ids);
        proof {
            lemma_targets_concat(pre, paras_pictures(ss@[k as int].paragraphs@), doc.bin_data_content@, name@);
        }
        k = k + 1;
    }
    assert(ss@.subrange(0, n as int) =~= ss@);
    ids
}

/// Stores `data` with extension `ext` as item `id` (see `store_item`).
fn store_bin(contents: &mut Vec<BinDataContent>, id: u16, data: &[u8], ext: &str)
    ensures
        contents_view(final(contents)@) == store_item(contents_view(old(contents)@), id, data@, ext@),
{
    let idx: usize = if id == 0 { 0 } else { (id - 1) as usize };
    let item = BinDataContent { id, data: vstd::slice::slice_to_vec(data), extension: String::from_str(ext) };
    let ghost v0 = contents_view(contents@);
    if idx < contents.len() {
        contents.set(idx, item);
    } else {
        contents.push(item);
    }
    assert(contents_view(contents@) =~= store_item(v0, id, data@, ext@));
}

/// Relabeling by no ID changes nothing.
proof fn lemma_relabeled_none(d: Document, resolved: Seq<char>)
    ensures
        relabeled_sections(d, d, Set::empty(), resolved),
{
    assert forall|i: int| 0 <= i < d.sections@.len() implies #[trigger] relabeled_section(
        d.sections@[i],
        d.sections@[i],
        Set::empty(),
        resolved,
    ) by {
        let sec = d.sections@[i];
        assert forall|j: int| 0 <= j < sec.paragraphs@.len() implies #[trigger] relabeled_para(
            sec.paragraphs@[j],
            sec.paragraphs@[j],
            Set::empty(),
            resolved,
        ) by {
            let p = sec.paragraphs@[j];
            assert forall|k: int| 0 <= k < p.controls@.len() implies #[trigger] relabeled_control(
                p.controls@[k],
                p.controls@[k],
                Set::empty(),
                resolved,
            ) by {
                match p.controls@[k] {
                    Control::Shape(sh) => match *sh {
                        ShapeObject::Picture(_) => {},
                        _ => {},
                    },
                    _ => {},
                }
            }
        }
    }
}

/// Relabeling by `ids`, then by `id`, is relabeling by both.
proof fn lemma_relabeled_control_compose(a: Control, b: Control, c: Control, ids: Set<u16>, id: u16, r: Seq<char>)
    requires
        relabeled_control(a, b, ids, r),
        relabeled_control(b, c, set![id], r),
    ensures
        relabeled_control(a, c, ids.insert(id), r),
{
    match a {
        Control::Picture(pa) => {},
        Control::Shape(sa) => match *sa {
            ShapeObject::Picture(pa) => {},
            _ => {},
        },
        _ => {},
    }
}

/// Relabeling the sections by `ids`, then by `id`, is relabeling them by
/// both.
proof fn lemma_relabeled_compose(a: Document, b: Document, c: Document, ids: Set<u16>, id: u16, r: Seq<char>)
    requires
        relabeled_sections(a, b, ids, r),
        relabeled_sections(b, c, set![id], r),
    ensures
        relabeled_sections(a, c, ids.insert(id), r),
{
    assert forall|i: int| 0 <= i < a.sections@.len() implies #[trigger] relabeled_section(
        a.sections@[i],
        c.sections@[i],
        ids.insert(id),
        r,
    ) by {
        let (sa, sb, sc) = (a.sections@[i], b.sections@[i], c.sections@[i]);
        assert(relabeled_section(sa, sb, ids, r));
        assert(relabeled_section(sb, sc, set![id], r));
        assert forall|j: int| 0 <= j < sa.paragraphs@.len() implies #[trigger] relabeled_para(
            sa.paragraphs@[j],
            sc.paragraphs@[j],
            ids.insert(id),
            r,
        ) by {
            let (pa, pb, pc) = (sa.paragraphs@[j], sb.paragraphs@[j], sc.paragraphs@[j]);
            assert(relabeled_para(pa, pb, ids, r));
            assert(relabeled_para(pb, pc, set![id], r));
            assert forall|k: int| 0 <= k < pa.controls@.len() implies #[trigger] relabeled_control(
                pa.controls@[k],
                pc.controls@[k],
                ids.insert(id),
                r,
            ) by {
                assert(relabeled_control(pa.controls@[k], pb.controls@[k], ids, r));
                assert(relabeled_control(pb.controls@[k], pc.controls@[k], set![id], r));
                lemma_relabeled_control_compose(pa.controls@[k], pb.controls@[k], pc.controls@[k], ids, id, r);
            }
        }
    }
}

/// Sets the external path of each picture among `cs` with ID `id` and an
/// external path to `resolved`.
fn relabel_in_controls(cs: &mut Vec<Control>, id: u16, resolved: &str)
    ensures
        final(cs)@.len() == old(cs)@.len(),
        forall|k: int|
            0 <= k < old(cs)@.len() ==> #[trigger] relabeled_control(old(cs)@[k], final(cs)@[k], set![id], resolved@),
{
    let ghost c0 = cs@;
    let n = cs.len();
    let mut k: usize = 0;
    while k < n
        invariant
            k <= n,
            n == c0.len(),
            cs@.len() == n,
            forall|j: int| 0 <= j < k ==> #[trigger] relabeled_control(c0[j], cs@[j], set![id], resolved@),
            forall|j: int| k <= j < n ==> #[trigger] cs@[j] == c0[j],
        decreases n - k,
    {
        let hit = match picture_of(&cs[k]) {
            Some(pic) => pic.image_attr.bin_data_id == id && pic.image_attr.external_path.is_some(),
            None => false,
        };
        if hit {
            let path = String::from_str(resolved);
            match &mut cs[k] {
                Control::Picture(p) => {
                    p.image_attr.external_path = Some(path);
                },
                Control::Shape(s) => match &mut **s {
                    ShapeObject::Picture(p) => {
                        p.image_attr.external_path = Some(path);
                    },
                    _ => {},
                },
                _ => {},
            }
        } else {
            proof {
                match c0[k as int] {
                    Control::Shape(sh) => match *sh {
                        ShapeObject::Picture(_) => {},
                        _ => {},
                    },
                    _ => {},
                }
            }
        }
        k = k + 1;
    }
}

/// Relabels the pictures of paragraph `p` (see `relabel_in_controls`).
fn relabel_in_para(p: &mut Paragraph, id: u16, resolved: &str)
    ensures
        relabeled_para(*old(p), *final(p), set![id], resolved@),
{
    relabel_in_controls(&mut p.controls, id, resolved);
}

/// Relabels the pictures of the paragraphs of section `sec`.
fn relabel_in_section(sec: &mut Section, id: u16, resolved: &str)
    ensures
        relabeled_section(*old(sec), *final(sec), set![id], resolved@),
{
    let ghost s0 = *sec;
    let n = sec.paragraphs.len();
    let mut k: usize = 0;
    while k < n
        invariant
            k <= n,
            n == s0.paragraphs@.len(),
            sec.paragraphs@.len() == n,
            sec.raw_stream == s0.raw_stream,
            forall|j: int| 0 <= j < k ==> #[trigger] relabeled_para(s0.paragraphs@[j], sec.paragraphs@[j], set![id], resolved@),
            forall|j: int| k <= j < n ==> #[trigger] sec.paragraphs@[j] == s0.paragraphs@[j],
        decreases n - k,
    {
        relabel_in_para(&mut sec.paragraphs[k], id, resolved);
        k = k + 1;
    }
}

/// Relabels the pictures of every section of `doc`; its binary data stays.
fn relabel_in_doc(doc: &mut Document, id: u16, resolved: &str)
    ensures
        relabeled_sections(*old(doc), *final(doc), set![id], resolved@),
        final(doc).bin_data_content == old(doc).bin_data_content,
        final(doc).doc_info == old(doc).doc_info,
{
    let ghost d0 = *doc;
    let n = doc.sections.len();
    let mut k: usize = 0;
    while k < n
        invariant
            k <= n,
            n == d0.sections@.len(),
            doc.sections@.len() == n,
            doc.bin_data_content == d0.bin_data_content,
            doc.doc_info == d0.doc_info,
            forall|j: int| 0 <= j < k ==> #[trigger] relabeled_section(d0.sections@[j], doc.sections@[j], set![id], resolved@),
            forall|j: int| k <= j < n ==> #[trigger] doc.sections@[j] == d0.sections@[j],
        decreases n - k,
    {
        relabel_in_section(&mut doc.sections[k], id, resolved);
        k = k + 1;
    }
}

/// The position of the last `.` in `s`.
pub open spec fn last_dot(s: Seq<char>) -> Option<int>
    decreases s.len(),
{
    if s.len() == 0 {
        None
    } else if s.last() == '.' {
        Some(s.len() - 1)
    } else {
        last_dot(s.drop_last())
    }
}

/// The extension of a file name that is a single path component: what
/// follows its last `.`, or nothing where it has no `.` or its only `.` is
/// its first character (so `.` and `..` have none).
pub open spec fn path_extension(name: Seq<char>) -> Seq<char> {
    match last_dot(name) {
        Some(i) => if i == 0 {
            Seq::empty()
        } else {
            name.subrange(i + 1, name.len() as int)
        },
        None => Seq::empty(),
    }
}

/// Whether `name` holds none of the characters that separate path
/// components or start a drive prefix on some platform (`/`, `\`, `:`).
pub open spec fn single_component(name: Seq<char>) -> bool {
    !name.contains('/') && !name.contains('\\') && !name.contains(':')
}

/// The extension of the file name `name`, or nothing (calls
/// `std::path::Path::extension`, converting its result to a string).
///
/// Trusted: for a name that is a single path component on every platform,
/// the result is `path_extension(name)`, as the documentation of
/// `Path::extension` gives it; for any name, no `.` means no extension, and
/// an extension holds no `.`. Where the name holds separators, which
/// component is the last is left to the platform and unsaid here.
#[verifier::external_body]
fn file_extension(name: &str) -> (r: String)
    ensures
        single_component(name@) ==> r@ == path_extension(name@),
        !name@.contains('.') ==> r@.len() == 0,
        !r@.contains('.'),
{
    std::path::Path::new(name).extension().and_then(|e| e.to_str()).unwrap_or("").to_string()
}

/// The JSON text of a list of strings (calls `serde_json::to_string`).
///
/// Trusted: serializing a list of strings does not fail (serde_json fails
/// only where a value's serialization or a map key does, and writing to a
/// `Vec` cannot), and its compact text is `serde_strings_json` of the
/// strings, as serde_json's escape table gives it.
#[verifier::external_body]
fn strings_to_json(items: &Vec<String>) -> (r: Option<String>)
    ensures
        r is Some,
        r is Some ==> r->0@ == serde_strings_json(strings_view(items@)),
{
    match serde_json::to_string(items) {
        Ok(s) => Some(s),
        Err(_) => None,
    }
}

/// The IDs of the binary data items that a file named `name` fills: those
/// of the pictures of `pics`, in order, whose external path ends in the
/// component `name` and whose image is not loaded.
pub open spec fn target_ids(pics: Seq<Picture>, contents: Seq<BinDataContent>, name: Seq<char>) -> Seq<u16>
    decreases pics.len(),
{
    if pics.len() == 0 {
        Seq::empty()
    } else {
        let p = pics.last();
        target_ids(pics.drop_last(), contents, name) + match p.image_attr.external_path {
            Some(path) => if path_basename(path@) == name && !bin_loaded(contents, p.image_attr.bin_data_id) {
                seq![p.image_attr.bin_data_id]
            } else {
                Seq::empty()
            },
            None => Seq::empty(),
        }
    }
}

/// What a binary data item holds.
pub struct BinDataView {
    pub id: u16,
    pub data: Seq<u8>,
    pub extension: Seq<char>,
}

/// The contents of binary data items.
pub open spec fn contents_view(cs: Seq<BinDataContent>) -> Seq<BinDataView> {
    cs.map_values(|c: BinDataContent| BinDataView { id: c.id, data: c.data@, extension: c.extension@ })
}

/// `cs` with item `id` (at position `id - 1`, or 0 for ID 0) holding `data`
/// with extension `ext`; where there is no such position, the item is
/// added at the end.
pub open spec fn store_item(cs: Seq<BinDataView>, id: u16, data: Seq<u8>, ext: Seq<char>) -> Seq<BinDataView> {
    let idx = if id == 0 { 0int } else { id - 1 };
    let item = BinDataView { id, data, extension: ext };
    if idx < cs.len() {
        cs.update(idx, item)
    } else {
        cs.push(item)
    }
}

/// `cs` with `data` stored for each of `ids` in turn (see `store_item`).
pub open spec fn store_items(cs: Seq<BinDataView>, ids: Seq<u16>, data: Seq<u8>, ext: Seq<char>) -> Seq<BinDataView>
    decreases ids.len(),
{
    if ids.len() == 0 {
        cs
    } else {
        store_item(store_items(cs, ids.drop_last(), data, ext), ids.last(), data, ext)
    }
}

/// Picture `b` is `a`, with its external path set to `resolved` where it
/// has one and its ID is among `ids`.
pub open spec fn relabeled_picture(a: Picture, b: Picture, ids: Set<u16>, resolved: Seq<char>) -> bool {
    &&& b.image_attr.bin_data_id == a.image_attr.bin_data_id
    &&& opt_string_view(b.image_attr.external_path) == if a.image_attr.external_path is Some && ids.contains(
        a.image_attr.bin_data_id,
    ) {
        Some(resolved)
    } else {
        opt_string_view(a.image_attr.external_path)
    }
}

/// Control `b` is `a`, its picture relabeled (see `relabeled_picture`)
/// where it shows one.
pub open spec fn relabeled_control(a: Control, b: Control, ids: Set<u16>, resolved: Seq<char>) -> bool {
    match a {
        Control::Picture(pa) => match b {
            Control::Picture(pb) => relabeled_picture(*pa, *pb, ids, resolved),
            _ => false,
        },
        Control::Shape(sa) => match *sa {
            ShapeObject::Picture(pa) => match b {
                Control::Shape(sb) => match *sb {
                    ShapeObject::Picture(pb) => relabeled_picture(pa, pb, ids, resolved),
                    _ => false,
                },
                _ => false,
            },
            _ => b == a,
        },
        _ => b == a,
    }
}

/// Paragraph `b` is `a` with the pictures of its controls relabeled.
pub open spec fn relabeled_para(a: Paragraph, b: Paragraph, ids: Set<u16>, resolved: Seq<char>) -> bool {
    &&& para_same_but_controls(a, b)
    &&& forall|k: int|
        0 <= k < a.controls@.len() ==> #[trigger] relabeled_control(a.controls@[k], b.controls@[k], ids, resolved)
}

/// Section `b` is `a` with the pictures of its paragraphs relabeled; its
/// raw stream stays.
pub open spec fn relabeled_section(a: Section, b: Section, ids: Set<u16>, resolved: Seq<char>) -> bool {
    &&& b.raw_stream == a.raw_stream
    &&& b.paragraphs@.len() == a.paragraphs@.len()
    &&& forall|k: int|
        0 <= k < a.paragraphs@.len() ==> #[trigger] relabeled_para(a.paragraphs@[k], b.paragraphs@[k], ids, resolved)
}

/// The sections of `b` are those of `a` with the pictures of their
/// paragraphs relabeled.
pub open spec fn relabeled_sections(a: Document, b: Document, ids: Set<u16>, resolved: Seq<char>) -> bool {
    &&& b.sections@.len() == a.sections@.len()
    &&& forall|k: int|
        0 <= k < a.sections@.len() ==> #[trigger] relabeled_section(a.sections@[k], b.sections@[k], ids, resolved)
}

/// The path a loaded external image is shown under: `display_path`, or
/// `/samples/<name>` where that is empty.
pub open spec fn resolved_path(name: Seq<char>, display_path: Seq<char>) -> Seq<char> {
    if display_path.len() == 0 {
        "/samples/"@ + name
    } else {
        display_path
    }
}

/// `new` is `old` once the file `name` with bytes `data` and extension
/// `ext` is loaded: each target item (see `target_ids`) holds the bytes, in
/// turn, and the pictures of those items show `resolved_path` as their
/// external path; the definitions stay.
pub open spec fn images_injected(
    old: Document,
    new: Document,
    name: Seq<char>,
    data: Seq<u8>,
    display_path: Seq<char>,
    ext: Seq<char>,
) -> bool {
    let ids = target_ids(doc_pictures(old), old.bin_data_content@, name);
    &&& contents_view(new.bin_data_content@) == store_items(contents_view(old.bin_data_content@), ids, data, ext)
    &&& relabeled_sections(old, new, ids.to_set(), resolved_path(name, display_path))
    &&& new.doc_info == old.doc_info
}

impl DocumentCore {
    /// The file names that the document's pictures wait for: the last
    /// component (after the last `/` or `\`) of the external path of each
    /// picture of a section paragraph whose image is not loaded yet, each
    /// name once, in the order of strings.
    pub fn awaited_file_names(&self) -> (r: Vec<String>)
        ensures
            strictly_sorted(strings_view(r@)),
            strings_view(r@).to_set() == awaited_names(doc_pictures(self.document), self.document.bin_data_content@),
    {
        let mut names: Vec<String> = Vec::new();
        let ss = &self.document.sections;
        let contents = &self.document.bin_data_content;
        assert(strings_view(names@).to_set() =~= Set::<Seq<char>>::empty());
        let n = ss.len();
        let mut k: usize = 0;
        while k < n
            invariant
                k <= n,
                n == ss@.len(),
                strictly_sorted(strings_view(names@)),
                strings_view(names@).to_set() == awaited_names(sections_pictures(ss@.subrange(0, k as int)), contents@),
            decreases n - k,
        {
            let ghost pre = sections_pictures(ss@.subrange(0, k as int));
            assert(ss@.subrange(0, k + 1).drop_last() =~= ss@.subrange(0, k as int));
            assert(ss@.subrange(0, k + 1).last() == ss@[k as int]);
            let ghost mid = strings_view(names@).to_set();
            collect_awaited_in_paras(&ss[k].paragraphs, contents, &mut names);
            proof {
                let pp = paras_pictures(ss@[k as int].paragraphs@);
                lemma_awaited_concat(pre, pp, contents@);
            }
            k = k + 1;
        }
        assert(ss@.subrange(0, n as int) =~= ss@);
        names
    }

    /// The file names that the document's pictures wait for (see
    /// `awaited_file_names`) as a JSON list of strings, such as
    /// `["a.gif","b.png"]`.
    pub fn get_external_image_basenames(&self) -> (r: String)
        ensures
            exists|names: Seq<Seq<char>>|
                {
                    &&& strictly_sorted(names)
                    &&& names.to_set() == awaited_names(doc_pictures(self.document), self.document.bin_data_content@)
                    &&& r@ == serde_strings_json(names)
                },
    {
        let names = self.awaited_file_names();
        match strings_to_json(&names) {
            Some(s) => s,
            None => String::from_str("[]"),
        }
    }

    /// Loads the image file named `basename` (its bytes `data`, its
    /// extension `ext`) into the pictures that wait for it: each target item
    /// (see `target_ids`) receives the bytes in turn, and those pictures show
    /// `display_path` (or `/samples/<basename>` where that is empty) as their
    /// path. Answers how many items were filled (modulo 2^32). The raw
    /// streams and the editor state stay.
    pub fn inject_external_image_with_extension(
        &mut self,
        basename: &str,
        data: &[u8],
        display_path: &str,
        ext: &str,
    ) -> (r: u32)
        ensures
            images_injected(old(self).document, final(self).document, basename@, data@, display_path@, ext@),
            r == target_ids(doc_pictures(old(self).document), old(self).document.bin_data_content@, basename@).len() as u32,
            editor_state_unchanged(*old(self), *final(self)),
    {
        let ghost d0 = self.document;
        let name = chars_of(basename);
        let targets = targets_in_doc(&self.document, name.as_slice());
        let resolved = if chars_of(display_path).len() == 0 {
            let mut s = String::from_str("/samples/");
            s.append(basename);
            s
        } else {
            String::from_str(display_path)
        };
        let ghost cv0 = contents_view(d0.bin_data_content@);
        let ghost r = resolved_path(basename@, display_path@);
        assert(resolved@ == r);
        proof {
            lemma_relabeled_none(d0, r);
            assert(targets@.subrange(0, 0).to_set() =~= Set::<u16>::empty());
        }
        let n = targets.len();
        let mut t: usize = 0;
        while t < n
            invariant
                t <= n,
                n == targets@.len(),
                targets@ == target_ids(doc_pictures(d0), d0.bin_data_content@, basename@),
                resolved@ == r,
                contents_view(self.document.bin_data_content@) == store_items(
                    cv0,
                    targets@.subrange(0, t as int),
                    data@,
                    ext@,
                ),
                relabeled_sections(d0, self.document, targets@.subrange(0, t as int).to_set(), r),
                self.document.doc_info == d0.doc_info,
                editor_state_unchanged(*old(self), *self),
                d0 == old(self).document,
            decreases n - t,
        {
            let id = targets[t];
            let ghost d1 = self.document;
            store_bin(&mut self.document.bin_data_content, id, data, ext);
            let ghost d2 = self.document;
            relabel_in_doc(&mut self.document, id, resolved.as_str());
            proof {
                assert(targets@.subrange(0, t + 1).drop_last() =~= targets@.subrange(0, t as int));
                assert(targets@.subrange(0, t + 1).last() == id);
                assert(relabeled_sections(d0, d2, targets@.subrange(0, t as int).to_set(), r));
                lemma_relabeled_compose(d0, d2, self.document, targets@.subrange(0, t as int).to_set(), id, r);
                assert(targets@.subrange(0, t + 1).to_set() =~= targets@.subrange(0, t as int).to_set().insert(id));
            }
            t = t + 1;
        }
        assert(targets@.subrange(0, n as int) =~= targets@);
        n as u32
    }

    /// Loads the image file named `basename` (its bytes `data`) into the
    /// pictures that wait for it, with the file's extension (see
    /// `inject_external_image_with_extension`): for a name that is a single
    /// path component, `path_extension(basename)`. Answers how many binary
    /// data items were filled.
    pub fn inject_external_image(&mut self, basename: &str, data: &[u8], display_path: &str) -> (r: u32)
        ensures
            exists|ext: Seq<char>|
                {
                    &&& !ext.contains('.')
                    &&& !basename@.contains('.') ==> ext.len() == 0
                    &&& single_component(basename@) ==> ext == path_extension(basename@)
                    &&& #[trigger] images_injected(
                        old(self).document,
                        final(self).document,
                        basename@,
                        data@,
                        display_path@,
                        ext,
                    )
                },
            r == target_ids(doc_pictures(old(self).document), old(self).document.bin_data_content@, basename@).len() as u32,
            editor_state_unchanged(*old(self), *final(self)),
    {
        let ext = file_extension(basename);
        self.inject_external_image_with_extension(basename, data, display_path, ext.as_str())
    }
}

} // verus!
