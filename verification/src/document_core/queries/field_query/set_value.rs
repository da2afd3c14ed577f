//! Setting a field's value by its ID or its name.

use vstd::prelude::*;
use crate::document_core::{active_view, DocumentCore};
use crate::document_core::queries::field_query::{FieldInfoView, infos_view};
use crate::document_core::queries::field_query::edit::range_editable;
use crate::document_core::queries::field_query::lookup::{
    all_fields,
    find_field_by_id,
    find_named,
    first_named,
    id_error_message,
    name_error_message,
    sole_id_index,
};
use crate::document_core::queries::field_query::navigation::{clear_raw_stream, loc_para};
use crate::document_core::queries::field_query::locate::locate_message;
use crate::document_core::queries::field_query::update::{
    cell_text_message,
    cell_value_path,
    field_text_message,
    field_text_replaced,
    para_text_replaced,
};
use crate::error::HwpError;
use crate::json::{decimal, json_string, push_decimal, push_json_string};
use crate::model::document::Document;

verus! {

/// The answer to a successful write of a field's value.
pub open spec fn set_answer_json(id: u32, old_value: Seq<char>, value: Seq<char>) -> Seq<char> {
    "{\"ok\":true,\"fieldId\":"@ + decimal(id as nat) + ",\"oldValue\":"@ + json_string(old_value)
        + ",\"newValue\":"@ + json_string(value) + "}"@
}

/// `new` is `old` once section `si` is due for layout again: the active
/// field is kept, the render cache is stale, and `si` is among the
/// sections to compose.
pub open spec fn section_recomposed(old: DocumentCore, new: DocumentCore, si: usize) -> bool {
    &&& active_view(new.active_field) == active_view(old.active_field)
    &&& !new.page_tree_cache_valid
    &&& new.sections_to_recompose@.to_set() == old.sections_to_recompose@.to_set().insert(si)
}

/// Whether the value of field `f` can be written in `doc`: for a virtual
/// cell field, the cell's first paragraph is there; for another field, its
/// paragraph is there and its range lies inside the text.
pub open spec fn value_writable(doc: Document, f: FieldInfoView, value_len: nat) -> bool {
    let si = f.location.section_index as int;
    let pi = f.location.para_index as int;
    let path = f.location.nested_path;
    if f.is_virtual_cell_field {
        match cell_value_path(path) {
            Some(cp) => loc_para(doc, si, pi, cp) is Some,
            None => false,
        }
    } else {
        match loc_para(doc, si, pi, path) {
            Some(p) => f.field_range_index < p.field_ranges@.len() && range_editable(
                p.text@.len(),
                p.field_ranges@[f.field_range_index as int],
                value_len,
            ),
            None => false,
        }
    }
}

/// Why the value of field `f` cannot be written in `doc` (see
/// `cell_text_message`, `locate_message` and `field_text_message`).
pub open spec fn write_error_message(doc: Document, f: FieldInfoView, value_len: nat) -> Seq<char> {
    let si = f.location.section_index as int;
    let pi = f.location.para_index as int;
    let path = f.location.nested_path;
    if f.is_virtual_cell_field {
        cell_text_message(doc, si, pi, path)
    } else {
        match loc_para(doc, si, pi, path) {
            Some(p) => field_text_message(p, f.field_range_index as int, value_len),
            None => locate_message(doc, si, pi, path),
        }
    }
}

/// `new` is `old` with the value of field `f` written: a virtual cell
/// field's cell paragraph holds `value` as its text, another field's range
/// holds it (see `field_text_replaced`); the raw stream of the field's
/// section is dropped.
pub open spec fn value_written(old: Document, new: Document, f: FieldInfoView, value: Seq<char>) -> bool {
    let si = f.location.section_index as int;
    let pi = f.location.para_index as int;
    let path = f.location.nested_path;
    &&& new.sections@[si].raw_stream is None
    &&& if f.is_virtual_cell_field {
        match cell_value_path(path) {
            Some(cp) => para_text_replaced(old, new, si, pi, cp, value),
            None => false,
        }
    } else {
        field_text_replaced(old, new, si, pi, path, f.field_range_index as int, value)
    }
}

impl DocumentCore {
    /// Writes `value` as the value of field `f` (one of the document's
    /// fields), then marks its section for layout.
    fn write_field_value(&mut self, f: &crate::document_core::queries::field_query::FieldInfo, value: &str) -> (r: Result<(), HwpError>)
        ensures
            if value_writable(old(self).document, f@, value@.len()) {
                &&& r is Ok
                &&& value_written(old(self).document, final(self).document, f@, value@)
                &&& section_recomposed(*old(self), *final(self), f@.location.section_index)
            } else {
                &&& r matches Err(HwpError::InvalidField(m)) && m@ == write_error_message(
                    old(self).document,
                    f@,
                    value@.len(),
                )
                &&& *final(self) == *old(self)
            },
    {
        let si = f.location.section_index;
        if f.is_virtual_cell_field {
            match self.set_cell_field_text(&f.location, value) {
                Err(e) => return Err(e),
                Ok(()) => {},
            }
            let ghost d1 = self.document;
            clear_raw_stream(&mut self.document, si);
            proof {
                let cp = cell_value_path(f@.location.nested_path)->0;
                assert(loc_para(self.document, si as int, f.location.para_index as int, cp) == loc_para(
                    d1,
                    si as int,
                    f.location.para_index as int,
                    cp,
                ));
            }
        } else {
            match self.set_field_text_at(&f.location, f.field_range_index, value) {
                Err(e) => return Err(e),
                Ok(()) => {},
            }
        }
        self.recompose_section(si);
        Ok(())
    }

    /// Writes `value` into the field with ID `field_id` and answers
    /// `{"ok":true,"fieldId":..,"oldValue":..,"newValue":..}`.
    ///
    /// Fails, changing nothing, where no field or more than one has that
    /// ID, or the field's place in the document cannot take the value.
    pub fn set_field_value_by_id(&mut self, field_id: u32, value: &str) -> (r: Result<String, HwpError>)
        ensures
            ({
                let v = all_fields(old(self).document);
                match sole_id_index(v, field_id) {
                    Some(k) if value_writable(old(self).document, v[k], value@.len()) => {
                        &&& r matches Ok(s) && s@ == set_answer_json(field_id, v[k].value, value@)
                        &&& value_written(old(self).document, final(self).document, v[k], value@)
                        &&& section_recomposed(*old(self), *final(self), v[k].location.section_index)
                    },
                    Some(k) => {
                        &&& r matches Err(HwpError::InvalidField(m)) && m@ == write_error_message(
                            old(self).document,
                            v[k],
                            value@.len(),
                        )
                        &&& *final(self) == *old(self)
                    },
                    None => r matches Err(HwpError::InvalidField(m)) && m@ == id_error_message(v, field_id)
                        && *final(self) == *old(self),
                }
            }),
    {
        let fields = self.collect_all_fields();
        let fi = match find_field_by_id(fields.as_slice(), field_id) {
            Ok(fi) => fi,
            Err(e) => return Err(e),
        };
        let old_value = fi.value.clone();
        match self.write_field_value(fi, value) {
            Err(e) => return Err(e),
            Ok(()) => {},
        }
        let mut out = String::from_str("{\"ok\":true,\"fieldId\":");
        push_decimal(&mut out, field_id as u64);
        out.append(",\"oldValue\":");
        push_json_string(&mut out, old_value.as_str());
        out.append(",\"newValue\":");
        push_json_string(&mut out, value);
        out.append("}");
        Ok(out)
    }

    /// Writes `value` into the first field named `name` and answers
    /// `{"ok":true,"fieldId":..,"oldValue":..,"newValue":..}`.
    ///
    /// Fails, changing nothing, where no field has that name or the field's
    /// place in the document cannot take the value.
    pub fn set_field_value_by_name(&mut self, name: &str, value: &str) -> (r: Result<String, HwpError>)
        ensures
            ({
                let v = all_fields(old(self).document);
                match first_named(v, name@) {
                    Some(k) if value_writable(old(self).document, v[k], value@.len()) => {
                        &&& r matches Ok(s) && s@ == set_answer_json(v[k].field.field_id, v[k].value, value@)
                        &&& value_written(old(self).document, final(self).document, v[k], value@)
                        &&& section_recomposed(*old(self), *final(self), v[k].location.section_index)
                    },
                    Some(k) => {
                        &&& r matches Err(HwpError::InvalidField(m)) && m@ == write_error_message(
                            old(self).document,
                            v[k],
                            value@.len(),
                        )
                        &&& *final(self) == *old(self)
                    },
                    None => r matches Err(HwpError::InvalidField(m)) && m@ == name_error_message(name@)
                        && *final(self) == *old(self),
                }
            }),
    {
        let fields = self.collect_all_fields();
        let k = match find_named(fields.as_slice(), name) {
            Some(k) => k,
            None => {
                let mut m = String::from_str("필드 이름 '");
                m.append(name);
                m.append("' 없음");
                return Err(HwpError::InvalidField(m));
            },
        };
        let fi = &fields[k];
        assert(infos_view(fields@)[k as int] == fi@);
        let field_id = fi.field.field_id;
        let old_value = fi.value.clone();
        match self.write_field_value(fi, value) {
            Err(e) => return Err(e),
            Ok(()) => {},
        }
        let mut out = String::from_str("{\"ok\":true,\"fieldId\":");
        push_decimal(&mut out, field_id as u64);
        out.append(",\"oldValue\":");
        push_json_string(&mut out, old_value.as_str());
        out.append(",\"newValue\":");
        push_json_string(&mut out, value);
        out.append("}");
        Ok(out)
    }
}

} // verus!
