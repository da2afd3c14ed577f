//! The editing core of a document: the document and the editor state kept
//! beside it.

pub mod commands;
pub mod numbering;
pub mod picture_external;
pub mod queries;
pub mod validation;

use vstd::prelude::*;
use crate::model::document::{DocInfo, Document};

verus! {

/// The click-here field the caret is in, which the renderer draws without
/// its guide text.
#[derive(Debug)]
pub struct ActiveFieldInfo {
    pub section_idx: usize,
    pub para_idx: usize,
    pub control_idx: usize,
    /// For a field inside table cells: the (control, cell, paragraph) steps
    /// from the section paragraph to the field's paragraph.
    pub cell_path: Option<Vec<(usize, usize, usize)>>,
}

/// What an active-field record holds.
pub struct ActiveFieldView {
    pub section_idx: usize,
    pub para_idx: usize,
    pub control_idx: usize,
    pub cell_path: Option<Seq<(usize, usize, usize)>>,
}

impl View for ActiveFieldInfo {
    type V = ActiveFieldView;

    open spec fn view(&self) -> ActiveFieldView {
        ActiveFieldView {
            section_idx: self.section_idx,
            para_idx: self.para_idx,
            control_idx: self.control_idx,
            cell_path: match self.cell_path {
                Some(p) => Some(p@),
                None => None,
            },
        }
    }
}

/// What the optional active field holds.
pub open spec fn active_view(a: Option<ActiveFieldInfo>) -> Option<ActiveFieldView> {
    match a {
        Some(x) => Some(x@),
        None => None,
    }
}

/// Whether two cell paths are equal.
fn cell_paths_eq(a: &Vec<(usize, usize, usize)>, b: &Vec<(usize, usize, usize)>) -> (r: bool)
    ensures
        r == (a@ == b@),
{
    if a.len() != b.len() {
        return false;
    }
    let mut i: usize = 0;
    while i < a.len()
        invariant
            i <= a@.len(),
            a@.len() == b@.len(),
            forall|k: int| 0 <= k < i ==> a@[k] == b@[k],
        decreases a@.len() - i,
    {
        if a[i].0 != b[i].0 || a[i].1 != b[i].1 || a[i].2 != b[i].2 {
            return false;
        }
        i = i + 1;
    }
    assert(a@ =~= b@);
    true
}

/// Whether the active field `a` is the one `b` describes.
pub fn active_field_is(a: &Option<ActiveFieldInfo>, b: &ActiveFieldInfo) -> (r: bool)
    ensures
        r == (active_view(*a) == Some(b@)),
{
    match a {
        None => false,
        Some(x) => {
            if x.section_idx != b.section_idx || x.para_idx != b.para_idx || x.control_idx
                != b.control_idx {
                return false;
            }
            match (&x.cell_path, &b.cell_path) {
                (None, None) => true,
                (Some(p), Some(q)) => cell_paths_eq(p, q),
                _ => false,
            }
        },
    }
}

/// A document with the editor state kept beside it.
#[derive(Debug)]
pub struct DocumentCore {
    pub document: Document,
    /// The click-here field the caret is in.
    pub active_field: Option<ActiveFieldInfo>,
    /// Whether the cached page render trees still match the document.
    pub page_tree_cache_valid: bool,
    /// Sections whose layout must be composed again before the next render.
    pub sections_to_recompose: Vec<usize>,
}

/// `b` keeps the editor state of `a`: its active field, its render cache
/// flag and the sections due for layout.
pub open spec fn editor_state_unchanged(a: DocumentCore, b: DocumentCore) -> bool {
    &&& b.active_field == a.active_field
    &&& b.page_tree_cache_valid == a.page_tree_cache_valid
    &&& b.sections_to_recompose == a.sections_to_recompose
}

impl DocumentCore {
    /// A core holding an empty document.
    pub fn new_empty() -> (core: Self)
        ensures
            core.document.sections@.len() == 0,
            core.document.bin_data_content@.len() == 0,
            core.document.doc_info.numberings@.len() == 0,
            core.active_field is None,
            core.page_tree_cache_valid,
            core.sections_to_recompose@.len() == 0,
    {
        DocumentCore {
            document: Document {
                doc_info: DocInfo { numberings: Vec::new() },
                sections: Vec::new(),
                bin_data_content: Vec::new(),
            },
            active_field: None,
            page_tree_cache_valid: true,
            sections_to_recompose: Vec::new(),
        }
    }

    /// Replaces the document: no field is active any more, the render cache
    /// is stale and every section is due for layout.
    pub fn set_document(&mut self, doc: Document)
        ensures
            final(self).document == doc,
            final(self).active_field is None,
            !final(self).page_tree_cache_valid,
            final(self).sections_to_recompose@ == Seq::new(doc.sections@.len(), |i: int| i as usize),
    {
        let n = doc.sections.len();
        self.document = doc;
        self.active_field = None;
        self.page_tree_cache_valid = false;
        let mut all: Vec<usize> = Vec::new();
        let mut i: usize = 0;
        while i < n
            invariant
                i <= n,
                all@ == Seq::new(i as nat, |k: int| k as usize),
            decreases n - i,
        {
            all.push(i);
            i = i + 1;
            assert(all@ =~= Seq::new(i as nat, |k: int| k as usize));
        }
        self.sections_to_recompose = all;
    }

    /// Marks the render cache stale.
    pub fn invalidate_page_tree_cache(&mut self)
        ensures
            final(self).document == old(self).document,
            active_view(final(self).active_field) == active_view(old(self).active_field),
            !final(self).page_tree_cache_valid,
            final(self).sections_to_recompose == old(self).sections_to_recompose,
    {
        self.page_tree_cache_valid = false;
    }

    /// Marks section `section_idx` due for layout (once) and the render
    /// cache stale.
    #[verifier::loop_isolation(false)]
    pub fn recompose_section(&mut self, section_idx: usize)
        ensures
            final(self).document == old(self).document,
            active_view(final(self).active_field) == active_view(old(self).active_field),
            !final(self).page_tree_cache_valid,
            final(self).sections_to_recompose@.to_set() == old(self).sections_to_recompose@.to_set().insert(section_idx),
            old(self).sections_to_recompose@.contains(section_idx) ==> final(self).sections_to_recompose@ == old(self).sections_to_recompose@,
    {
        self.page_tree_cache_valid = false;
        let mut i: usize = 0;
        while i < self.sections_to_recompose.len()
            invariant
                i <= self.sections_to_recompose@.len(),
                forall|k: int| 0 <= k < i ==> self.sections_to_recompose@[k] != section_idx,
            decreases self.sections_to_recompose@.len() - i,
        {
            if self.sections_to_recompose[i] == section_idx {
                assert(self.sections_to_recompose@.to_set() =~= self.sections_to_recompose@.to_set().insert(section_idx)) by {
                    assert(self.sections_to_recompose@.contains(section_idx));
                }
                return;
            }
            i = i + 1;
        }
        self.sections_to_recompose.push(section_idx);
        proof {
            old(self).sections_to_recompose@.lemma_push_to_set_commute(section_idx);
        }
        assert(self.sections_to_recompose@.to_set() =~= old(self).sections_to_recompose@.to_set().insert(section_idx));
    }
}

} // verus!
