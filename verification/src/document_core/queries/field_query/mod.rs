//! Finding the fields of a whole document and reading or setting their
//! values.

pub mod caret;
pub mod collect;
pub mod edit;
pub mod field_removal_support;
pub mod locate;
pub mod lookup;
pub mod location_json;
pub mod navigation;
pub mod read_back;
pub mod remove;
pub mod set_value;
pub mod update;
pub mod virtual_cell_id;

use vstd::prelude::*;
use crate::model::control::{Field, FieldView};

verus! {

/// One step into a control of a paragraph.
#[derive(Debug, Clone, Copy, PartialEq, Eq)]
pub enum NestedEntry {
    /// A paragraph of a table cell: `controls[control_index]` is the table,
    /// `cells[cell_index]` the cell, `paragraphs[para_index]` the paragraph.
    TableCell { control_index: usize, cell_index: usize, para_index: usize },
    /// A paragraph of the text box of `controls[control_index]`.
    TextBox { control_index: usize, para_index: usize },
}

/// Where a field is: a section paragraph, then the steps into tables and
/// text boxes down to the field's paragraph.
#[derive(Debug, Clone)]
pub struct FieldLocation {
    pub section_index: usize,
    pub para_index: usize,
    pub nested_path: Vec<NestedEntry>,
}

/// What a field location holds.
pub struct LocationView {
    pub section_index: usize,
    pub para_index: usize,
    pub nested_path: Seq<NestedEntry>,
}

impl View for FieldLocation {
    type V = LocationView;

    open spec fn view(&self) -> LocationView {
        LocationView {
            section_index: self.section_index,
            para_index: self.para_index,
            nested_path: self.nested_path@,
        }
    }
}

/// A field found in the document.
#[derive(Debug)]
pub struct FieldInfo {
    pub field: Field,
    pub location: FieldLocation,
    /// The text inside the field's range (empty for an empty field).
    pub value: String,
    /// The index of the field's range in its paragraph's `field_ranges`.
    pub field_range_index: usize,
    /// Whether this is not a field control but a table cell named as a form
    /// field, whose value is the text of the cell's first paragraph.
    pub is_virtual_cell_field: bool,
}

/// What a found field holds.
pub struct FieldInfoView {
    pub field: FieldView,
    pub location: LocationView,
    pub value: Seq<char>,
    pub field_range_index: usize,
    pub is_virtual_cell_field: bool,
}

impl View for FieldInfo {
    type V = FieldInfoView;

    open spec fn view(&self) -> FieldInfoView {
        FieldInfoView {
            field: self.field@,
            location: self.location@,
            value: self.value@,
            field_range_index: self.field_range_index,
            is_virtual_cell_field: self.is_virtual_cell_field,
        }
    }
}

/// What a list of found fields holds.
pub open spec fn infos_view(v: Seq<FieldInfo>) -> Seq<FieldInfoView> {
    Seq::new(v.len(), |i: int| v[i]@)
}

impl FieldLocation {
    /// A copy of this location.
    pub fn duplicate(&self) -> (r: FieldLocation)
        ensures
            r@ == self@,
    {
        let mut path: Vec<NestedEntry> = Vec::new();
        let mut i: usize = 0;
        while i < self.nested_path.len()
            invariant
                i <= self.nested_path@.len(),
                path@ == self.nested_path@.subrange(0, i as int),
            decreases self.nested_path@.len() - i,
        {
            path.push(self.nested_path[i]);
            i = i + 1;
            assert(path@ =~= self.nested_path@.subrange(0, i as int));
        }
        assert(path@ =~= self.nested_path@);
        FieldLocation { section_index: self.section_index, para_index: self.para_index, nested_path: path }
    }

    /// This location extended by one step.
    pub fn child(&self, e: NestedEntry) -> (r: FieldLocation)
        ensures
            r@ == (LocationView { nested_path: self@.nested_path.push(e), ..self@ }),
    {
        let mut r = self.duplicate();
        r.nested_path.push(e);
        r
    }
}

} // verus!
