//! Field locations as JSON objects.

use vstd::prelude::*;
use crate::document_core::queries::field_query::{FieldLocation, LocationView, NestedEntry};
use crate::json::{decimal, push_decimal};

verus! {

/// One step of a location path as a JSON object.
pub open spec fn entry_json(e: NestedEntry) -> Seq<char> {
    match e {
        NestedEntry::TableCell { control_index, cell_index, para_index } => "{\"type\":\"cell\",\"controlIndex\":"@
            + decimal(control_index as nat) + ",\"cellIndex\":"@ + decimal(cell_index as nat)
            + ",\"paraIndex\":"@ + decimal(para_index as nat) + "}"@,
        NestedEntry::TextBox { control_index, para_index } => "{\"type\":\"textbox\",\"controlIndex\":"@
            + decimal(control_index as nat) + ",\"paraIndex\":"@ + decimal(para_index as nat) + "}"@,
    }
}

/// The steps of a path as JSON objects separated by commas.
pub open spec fn entries_json(path: Seq<NestedEntry>) -> Seq<char>
    decreases path.len(),
{
    if path.len() == 0 {
        Seq::empty()
    } else if path.len() == 1 {
        entry_json(path[0])
    } else {
        entries_json(path.drop_last()) + seq![','] + entry_json(path.last())
    }
}

/// A field location as a JSON object; the `path` member is there only for
/// a field inside a table or text box.
pub open spec fn location_json(loc: LocationView) -> Seq<char> {
    if loc.nested_path.len() == 0 {
        "{\"sectionIndex\":"@ + decimal(loc.section_index as nat) + ",\"paraIndex\":"@ + decimal(
            loc.para_index as nat,
        ) + "}"@
    } else {
        "{\"sectionIndex\":"@ + decimal(loc.section_index as nat) + ",\"paraIndex\":"@ + decimal(
            loc.para_index as nat,
        ) + ",\"path\":["@ + entries_json(loc.nested_path) + "]}"@
    }
}

/// Appends one path step as a JSON object.
fn push_entry_json(out: &mut String, e: NestedEntry)
    ensures
        final(out)@ == old(out)@ + entry_json(e),
{
    match e {
        NestedEntry::TableCell { control_index, cell_index, para_index } => {
            out.append("{\"type\":\"cell\",\"controlIndex\":");
            push_decimal(out, control_index as u64);
            out.append(",\"cellIndex\":");
            push_decimal(out, cell_index as u64);
            out.append(",\"paraIndex\":");
            push_decimal(out, para_index as u64);
            out.append("}");
        },
        NestedEntry::TextBox { control_index, para_index } => {
            out.append("{\"type\":\"textbox\",\"controlIndex\":");
            push_decimal(out, control_index as u64);
            out.append(",\"paraIndex\":");
            push_decimal(out, para_index as u64);
            out.append("}");
        },
    }
    assert(final(out)@ =~= old(out)@ + entry_json(e));
}

/// Appends a field location as a JSON object.
pub fn push_location_json(out: &mut String, loc: &FieldLocation)
    ensures
        final(out)@ == old(out)@ + location_json(loc@),
{
    out.append("{\"sectionIndex\":");
    push_decimal(out, loc.section_index as u64);
    out.append(",\"paraIndex\":");
    push_decimal(out, loc.para_index as u64);
    if loc.nested_path.len() == 0 {
        out.append("}");
        assert(final(out)@ =~= old(out)@ + location_json(loc@));
        return;
    }
    out.append(",\"path\":[");
    let ghost start = out@;
    let mut i: usize = 0;
    while i < loc.nested_path.len()
        invariant
            i <= loc.nested_path@.len(),
            out@ == start + entries_json(loc.nested_path@.subrange(0, i as int)),
        decreases loc.nested_path@.len() - i,
    {
        if i > 0 {
            push_char_comma(out);
        }
        push_entry_json(out, loc.nested_path[i]);
        let ghost pre = loc.nested_path@.subrange(0, i + 1);
        assert(pre.drop_last() =~= loc.nested_path@.subrange(0, i as int));
        if i == 0 {
            assert(pre.len() == 1);
        }
        i = i + 1;
        assert(out@ =~= start + entries_json(loc.nested_path@.subrange(0, i as int)));
    }
    assert(loc.nested_path@.subrange(0, loc.nested_path@.len() as int) =~= loc.nested_path@);
    out.append("]}");
    assert(final(out)@ =~= old(out)@ + location_json(loc@));
}

fn push_char_comma(out: &mut String)
    ensures
        final(out)@ == old(out)@.push(','),
{
    crate::encoding::push_char(out, ',');
}

/// A field location as a JSON object.
pub fn field_location_json(loc: &FieldLocation) -> (r: String)
    ensures
        r@ == location_json(loc@),
{
    let mut r = String::new();
    push_location_json(&mut r, loc);
    assert(r@ =~= location_json(loc@));
    r
}

} // verus!
