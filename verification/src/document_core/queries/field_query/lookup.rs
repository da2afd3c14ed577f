//! Listing the fields of a document and reading their values.

use vstd::prelude::*;
use crate::document_core::DocumentCore;
use crate::document_core::queries::field_query::{FieldInfo, FieldInfoView, FieldLocation, infos_view};
use crate::document_core::queries::field_query::collect::{
    collect_fields_from_paragraph,
    doc_infos,
    doc_infos_upto,
    section_infos,
};
use crate::document_core::queries::field_query::location_json::{location_json, push_location_json};
use crate::document_core::queries::field_query::virtual_cell_id::{
    resolve_virtual_field_id_collisions,
    resolved_ids,
    with_ids,
};
use crate::encoding::chars_of;
use crate::error::HwpError;
use crate::json::{decimal, json_string, push_decimal, push_json_string};
use crate::model::control::{field_type_name, guide_of};
use crate::model::document::Document;
use crate::text::chars_eq;

verus! {

/// Every field of the document, in document order, with the IDs of virtual
/// cell fields resolved to be unique.
pub open spec fn all_fields(doc: Document) -> Seq<FieldInfoView> {
    with_ids(doc_infos(doc), resolved_ids(doc_infos(doc)))
}

/// Field number `k` of `v` has ID `id`.
pub open spec fn has_id(v: Seq<FieldInfoView>, k: int, id: u32) -> bool {
    0 <= k < v.len() && v[k].field.field_id == id
}

/// Field number `k` is the only field of `v` with ID `id`.
pub open spec fn sole_with_id(v: Seq<FieldInfoView>, k: int, id: u32) -> bool {
    &&& has_id(v, k, id)
    &&& forall|j: int| #[trigger] has_id(v, j, id) ==> j == k
}

/// The index of the only field of `v` with ID `id`, where exactly one has it.
pub open spec fn sole_id_index(v: Seq<FieldInfoView>, id: u32) -> Option<int> {
    if exists|k: int| sole_with_id(v, k, id) {
        Some(choose|k: int| sole_with_id(v, k, id))
    } else {
        None
    }
}

/// The error text where no field, or more than one, has ID `id`.
pub open spec fn id_error_message(v: Seq<FieldInfoView>, id: u32) -> Seq<char> {
    if exists|j: int| has_id(v, j, id) {
        "필드 ID "@ + decimal(id as nat) + " 가 둘 이상의 위치와 일치함 (내부 ID 충돌)"@
    } else {
        "필드 ID "@ + decimal(id as nat) + " 없음"@
    }
}

/// The error text where no field is named `name`.
pub open spec fn name_error_message(name: Seq<char>) -> Seq<char> {
    "필드 이름 '"@ + name + "' 없음"@
}

/// Field `f` is named `name`.
pub open spec fn named(f: FieldInfoView, name: Seq<char>) -> bool {
    f.field.ctrl_data_name == Some(name)
}

/// The index of the first field of `v` named `name`.
pub open spec fn first_named_from(v: Seq<FieldInfoView>, name: Seq<char>, k: int) -> Option<int>
    decreases v.len() - k,
{
    if k < 0 || k >= v.len() {
        None
    } else if named(v[k], name) {
        Some(k)
    } else {
        first_named_from(v, name, k + 1)
    }
}

/// The index of the first field of `v` named `name`.
pub open spec fn first_named(v: Seq<FieldInfoView>, name: Seq<char>) -> Option<int> {
    first_named_from(v, name, 0)
}

/// The field `first_named_from` picks is named so, at or after `k`.
pub proof fn lemma_first_named_from(v: Seq<FieldInfoView>, name: Seq<char>, k: int)
    requires
        0 <= k,
    ensures
        first_named_from(v, name, k) matches Some(j) ==> k <= j < v.len() && named(v[j], name),
    decreases v.len() - k,
{
    if k < v.len() && !named(v[k], name) {
        lemma_first_named_from(v, name, k + 1);
    }
}

/// `s`, or nothing.
pub open spec fn or_empty(s: Option<Seq<char>>) -> Seq<char> {
    match s {
        Some(t) => t,
        None => Seq::empty(),
    }
}

/// The first members of a field-list entry: ID, kind and name.
pub open spec fn entry_head_json(f: FieldInfoView) -> Seq<char> {
    "{\"fieldId\":"@ + decimal(f.field.field_id as nat) + ",\"fieldType\":\""@ + field_type_name(
        f.field.field_type,
    ) + "\",\"name\":"@ + json_string(or_empty(f.field.ctrl_data_name))
}

/// The other members of a field-list entry: guide text, command, value and
/// location.
pub open spec fn entry_tail_json(f: FieldInfoView) -> Seq<char> {
    ",\"guide\":"@ + json_string(or_empty(guide_of(f.field.command))) + ",\"command\":"@ + json_string(
        f.field.command,
    ) + ",\"value\":"@ + json_string(f.value) + ",\"location\":"@ + location_json(f.location) + "}"@
}

/// One field of the field list as a JSON object.
pub open spec fn field_entry_json(f: FieldInfoView) -> Seq<char> {
    entry_head_json(f) + entry_tail_json(f)
}

/// The fields as JSON objects separated by commas.
pub open spec fn field_entries_json(v: Seq<FieldInfoView>) -> Seq<char>
    decreases v.len(),
{
    if v.len() == 0 {
        Seq::empty()
    } else if v.len() == 1 {
        field_entry_json(v[0])
    } else {
        field_entries_json(v.drop_last()) + seq![','] + field_entry_json(v.last())
    }
}

/// The field list as a JSON array.
pub open spec fn field_list_json(v: Seq<FieldInfoView>) -> Seq<char> {
    seq!['['] + field_entries_json(v) + seq![']']
}

/// The answer to a read of a field's value by its ID.
pub open spec fn value_by_id_json(value: Seq<char>) -> Seq<char> {
    "{\"ok\":true,\"value\":"@ + json_string(value) + "}"@
}

/// The answer to a read of a field's value by its name.
pub open spec fn value_by_name_json(id: u32, value: Seq<char>) -> Seq<char> {
    "{\"ok\":true,\"fieldId\":"@ + decimal(id as nat) + ",\"value\":"@ + json_string(value) + "}"@
}

/// The only field with an ID is the one `sole_id_index` picks.
pub proof fn lemma_sole_index(v: Seq<FieldInfoView>, k: int, id: u32)
    requires
        sole_with_id(v, k, id),
    ensures
        sole_id_index(v, id) == Some(k),
{
    let c = choose|j: int| sole_with_id(v, j, id);
    assert(sole_with_id(v, c, id));
    assert(has_id(v, k, id));
}

/// The only field of `fields` with ID `field_id`.
///
/// Fails where no field has that ID, and where more than one has it (an ID
/// collision, which no field is picked for).
pub fn find_field_by_id(fields: &[FieldInfo], field_id: u32) -> (r: Result<&FieldInfo, HwpError>)
    ensures
        match sole_id_index(infos_view(fields@), field_id) {
            Some(k) => r matches Ok(f) && *f == fields@[k],
            None => r matches Err(HwpError::InvalidField(m)) && m@ == id_error_message(
                infos_view(fields@),
                field_id,
            ),
        },
{
    let ghost v = infos_view(fields@);
    let mut first: Option<usize> = None;
    let mut i: usize = 0;
    while i < fields.len()
        invariant
            i <= fields@.len(),
            v == infos_view(fields@),
            v.len() == fields@.len(),
            match first {
                None => forall|j: int| 0 <= j < i ==> !#[trigger] has_id(v, j, field_id),
                Some(k) => {
                    &&& k < i
                    &&& has_id(v, k as int, field_id)
                    &&& forall|j: int| 0 <= j < i && j != k ==> !#[trigger] has_id(v, j, field_id)
                },
            },
        decreases fields@.len() - i,
    {
        assert(v[i as int] == fields@[i as int]@);
        if fields[i].field.field_id == field_id {
            match first {
                None => {
                    first = Some(i);
                },
                Some(k) => {
                    proof {
                        if exists|m: int| sole_with_id(v, m, field_id) {
                            let m = choose|m: int| sole_with_id(v, m, field_id);
                            assert(has_id(v, k as int, field_id));
                            assert(has_id(v, i as int, field_id));
                        }
                        assert(has_id(v, k as int, field_id));
                    }
                    let mut m = String::from_str("필드 ID ");
                    push_decimal(&mut m, field_id as u64);
                    m.append(" 가 둘 이상의 위치와 일치함 (내부 ID 충돌)");
                    return Err(HwpError::InvalidField(m));
                },
            }
        }
        i = i + 1;
    }
    match first {
        Some(k) => {
            proof {
                assert forall|j: int| #[trigger] has_id(v, j, field_id) implies j == k by {}
                lemma_sole_index(v, k as int, field_id);
            }
            Ok(&fields[k])
        },
        None => {
            proof {
                if exists|m: int| sole_with_id(v, m, field_id) {
                    let m = choose|m: int| sole_with_id(v, m, field_id);
                    assert(has_id(v, m, field_id));
                }
                assert(!exists|j: int| has_id(v, j, field_id));
            }
            let mut m = String::from_str("필드 ID ");
            push_decimal(&mut m, field_id as u64);
            m.append(" 없음");
            Err(HwpError::InvalidField(m))
        },
    }
}

impl DocumentCore {
    /// Every field of the document, in document order (within a paragraph:
    /// its field ranges, then the fields inside its tables and text boxes),
    /// the IDs of virtual cell fields made unique.
    pub fn collect_all_fields(&self) -> (r: Vec<FieldInfo>)
        ensures
            infos_view(r@) == all_fields(self.document),
    {
        let mut result: Vec<FieldInfo> = Vec::new();
        let ns = self.document.sections.len();
        let mut si: usize = 0;
        while si < ns
            invariant
                si <= ns,
                ns == self.document.sections@.len(),
                infos_view(result@) == doc_infos_upto(self.document, si as int),
            decreases ns - si,
        {
            let np = self.document.sections[si].paragraphs.len();
            let mut pi: usize = 0;
            while pi < np
                invariant
                    si < ns,
                    ns == self.document.sections@.len(),
                    pi <= np,
                    np == self.document.sections@[si as int].paragraphs@.len(),
                    infos_view(result@) == doc_infos_upto(self.document, si as int) + section_infos(
                        self.document,
                        si as int,
                        pi as int,
                    ),
                decreases np - pi,
            {
                let loc = FieldLocation { section_index: si, para_index: pi, nested_path: Vec::new() };
                assert(loc@.nested_path =~= Seq::empty());
                collect_fields_from_paragraph(&self.document.sections[si].paragraphs[pi], &loc, &mut result);
                pi = pi + 1;
                assert(infos_view(result@) =~= doc_infos_upto(self.document, si as int) + section_infos(
                    self.document,
                    si as int,
                    pi as int,
                ));
            }
            si = si + 1;
        }
        resolve_virtual_field_id_collisions(&mut result);
        result
    }

    /// The list of every field as a JSON array of objects with the field's
    /// ID, kind, name, guide text, command, value and location.
    pub fn get_field_list_json(&self) -> (r: String)
        ensures
            r@ == field_list_json(all_fields(self.document)),
    {
        let fields = self.collect_all_fields();
        let ghost v = infos_view(fields@);
        let mut out = String::new();
        crate::encoding::push_char(&mut out, '[');
        let ghost start = out@;
        let mut i: usize = 0;
        while i < fields.len()
            invariant
                i <= fields@.len(),
                v == infos_view(fields@),
                v.len() == fields@.len(),
                out@ == start + field_entries_json(v.subrange(0, i as int)),
            decreases fields@.len() - i,
        {
            if i > 0 {
                crate::encoding::push_char(&mut out, ',');
            }
            push_field_entry_json(&mut out, &fields[i]);
            let ghost pre = v.subrange(0, i + 1);
            assert(pre.drop_last() =~= v.subrange(0, i as int));
            assert(pre.last() == fields@[i as int]@);
            i = i + 1;
            assert(out@ =~= start + field_entries_json(v.subrange(0, i as int)));
        }
        assert(v.subrange(0, v.len() as int) =~= v);
        crate::encoding::push_char(&mut out, ']');
        assert(out@ =~= field_list_json(v));
        out
    }

    /// The value of the field with ID `field_id`, as `{"ok":true,"value":..}`.
    ///
    /// Fails where no field, or more than one, has that ID.
    pub fn get_field_value_by_id(&self, field_id: u32) -> (r: Result<String, HwpError>)
        ensures
            match sole_id_index(all_fields(self.document), field_id) {
                Some(k) => r matches Ok(s) && s@ == value_by_id_json(all_fields(self.document)[k].value),
                None => r matches Err(HwpError::InvalidField(m)) && m@ == id_error_message(
                    all_fields(self.document),
                    field_id,
                ),
            },
    {
        let fields = self.collect_all_fields();
        let fi = match find_field_by_id(fields.as_slice(), field_id) {
            Ok(fi) => fi,
            Err(e) => return Err(e),
        };
        let mut out = String::from_str("{\"ok\":true,\"value\":");
        push_json_string(&mut out, fi.value.as_str());
        out.append("}");
        Ok(out)
    }

    /// The ID and value of the first field named `name`, as
    /// `{"ok":true,"fieldId":..,"value":..}`.
    ///
    /// Fails where no field has that name.
    pub fn get_field_value_by_name(&self, name: &str) -> (r: Result<String, HwpError>)
        ensures
            match first_named(all_fields(self.document), name@) {
                Some(k) => r matches Ok(s) && s@ == value_by_name_json(
                    all_fields(self.document)[k].field.field_id,
                    all_fields(self.document)[k].value,
                ),
                None => r matches Err(HwpError::InvalidField(m)) && m@ == name_error_message(name@),
            },
    {
        let fields = self.collect_all_fields();
        match find_named(fields.as_slice(), name) {
            Some(k) => {
                proof {
                    lemma_first_named_from(infos_view(fields@), name@, 0);
                }
                let fi = &fields[k];
                let mut out = String::from_str("{\"ok\":true,\"fieldId\":");
                push_decimal(&mut out, fi.field.field_id as u64);
                out.append(",\"value\":");
                push_json_string(&mut out, fi.value.as_str());
                out.append("}");
                Ok(out)
            },
            None => {
                let mut m = String::from_str("필드 이름 '");
                m.append(name);
                m.append("' 없음");
                Err(HwpError::InvalidField(m))
            },
        }
    }
}

/// The index of the first of `fields` named `name`.
pub fn find_named(fields: &[FieldInfo], name: &str) -> (r: Option<usize>)
    ensures
        match r {
            Some(k) => k < fields@.len() && first_named(infos_view(fields@), name@) == Some(k as int),
            None => first_named(infos_view(fields@), name@) is None,
        },
{
    let ghost v = infos_view(fields@);
    let target = chars_of(name);
    let mut i: usize = 0;
    while i < fields.len()
        invariant
            i <= fields@.len(),
            v == infos_view(fields@),
            v.len() == fields@.len(),
            target@ == name@,
            first_named(v, name@) == first_named_from(v, name@, i as int),
        decreases fields@.len() - i,
    {
        assert(v[i as int] == fields@[i as int]@);
        match fields[i].field.field_name() {
            Some(n) => {
                let nc = chars_of(n);
                if chars_eq(nc.as_slice(), target.as_slice()) {
                    return Some(i);
                }
            },
            None => {},
        }
        i = i + 1;
    }
    None
}

/// Appends the first members of a field-list entry.
fn push_entry_head_json(out: &mut String, fi: &FieldInfo)
    ensures
        final(out)@ == old(out)@ + entry_head_json(fi@),
{
    proof {
        reveal_strlit("");
    }
    let ghost o0 = out@;
    out.append("{\"fieldId\":");
    push_decimal(out, fi.field.field_id as u64);
    let ghost o1 = out@;
    out.append(",\"fieldType\":\"");
    out.append(fi.field.field_type_str());
    out.append("\",\"name\":");
    let ghost o2 = out@;
    match fi.field.field_name() {
        Some(n) => push_json_string(out, n),
        None => push_json_string(out, ""),
    }
    assert(out@ == o2 + json_string(or_empty(fi@.field.ctrl_data_name)));
    assert(out@ =~= old(out)@ + entry_head_json(fi@));
}

/// Appends the other members of a field-list entry.
fn push_entry_tail_json(out: &mut String, fi: &FieldInfo)
    ensures
        final(out)@ == old(out)@ + entry_tail_json(fi@),
{
    proof {
        reveal_strlit("");
    }
    out.append(",\"guide\":");
    let ghost o1 = out@;
    match fi.field.guide_text() {
        Some(g) => push_json_string(out, g),
        None => push_json_string(out, ""),
    }
    assert(out@ == o1 + json_string(or_empty(guide_of(fi@.field.command))));
    out.append(",\"command\":");
    push_json_string(out, fi.field.command.as_str());
    out.append(",\"value\":");
    push_json_string(out, fi.value.as_str());
    out.append(",\"location\":");
    push_location_json(out, &fi.location);
    out.append("}");
    assert(out@ =~= old(out)@ + entry_tail_json(fi@));
}

/// Appends one field of the field list as a JSON object.
fn push_field_entry_json(out: &mut String, fi: &FieldInfo)
    ensures
        final(out)@ == old(out)@ + field_entry_json(fi@),
{
    push_entry_head_json(out, fi);
    push_entry_tail_json(out, fi);
    assert(out@ =~= old(out)@ + field_entry_json(fi@));
}

} // verus!
