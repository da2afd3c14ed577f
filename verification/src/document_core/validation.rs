//! Finding paragraphs whose stored line segments cannot be drawn as they
//! are and need the text laid out again.

use vstd::prelude::*;
use crate::document_core::DocumentCore;
use crate::encoding::chars_of;
use crate::model::control::Control;
use crate::model::document::Document;
use crate::model::paragraph::Paragraph;
use crate::model::table::{Cell, Table};
use crate::text::chars_eq;
use crate::json::{decimal, push_decimal};

verus! {

/// What is wrong with a paragraph's line segments.
#[derive(Debug, Clone, Copy, PartialEq, Eq, Structural)]
pub enum WarningKind {
    /// The paragraph has text but no line segment.
    LinesegArrayEmpty,
    /// The paragraph's only line segment has no height: it was never laid
    /// out.
    LinesegUncomputed,
    /// A long paragraph without line breaks has a single line segment: it
    /// was stored as one text run that the reader is to wrap itself.
    LinesegTextRunReflow,
}

/// Where, inside a table of a section paragraph, a paragraph is: the
/// table's control index, the cell's row and column, and the paragraph's
/// index in the cell.
#[derive(Debug, Clone, Copy, PartialEq, Eq, Structural)]
pub struct CellPath {
    pub table_ctrl_idx: usize,
    pub row: u16,
    pub col: u16,
    pub inner_para_idx: usize,
}

/// A paragraph whose line segments need the text laid out again.
#[derive(Debug, Clone, Copy)]
pub struct LinesegWarning {
    pub section_idx: usize,
    /// The section paragraph (for a paragraph in a table cell, the one
    /// holding the table).
    pub paragraph_idx: usize,
    /// For a paragraph in a table cell, where it is in the table.
    pub cell_path: Option<CellPath>,
    pub kind: WarningKind,
}

/// The paragraphs of a document whose line segments need the text laid
/// out again, in document order.
#[derive(Debug)]
pub struct LinesegValidationReport {
    pub warnings: Vec<LinesegWarning>,
}

/// How many warnings of each kind a report holds.
#[derive(Debug)]
pub struct LinesegSummary {
    pub array_empty: usize,
    pub uncomputed: usize,
    pub textrun_reflow: usize,
}

/// The description of a kind of warning.
pub open spec fn kind_description(k: WarningKind) -> Seq<char> {
    match k {
        WarningKind::LinesegArrayEmpty => "lineseg 배열이 비어있음"@,
        WarningKind::LinesegUncomputed => "lineseg 가 미계산 상태 (line_height=0)"@,
        WarningKind::LinesegTextRunReflow => "긴 텍스트가 lineseg 하나에 담김 (textRun reflow 필요)"@,
    }
}

/// The kind of warning that `s` describes.
pub open spec fn kind_of_description(s: Seq<char>) -> Option<WarningKind> {
    if s == kind_description(WarningKind::LinesegArrayEmpty) {
        Some(WarningKind::LinesegArrayEmpty)
    } else if s == kind_description(WarningKind::LinesegUncomputed) {
        Some(WarningKind::LinesegUncomputed)
    } else if s == kind_description(WarningKind::LinesegTextRunReflow) {
        Some(WarningKind::LinesegTextRunReflow)
    } else {
        None
    }
}

/// Text longer than this many characters on a single line segment counts
/// as an unwrapped text run.
pub const TEXTRUN_REFLOW_MIN_CHARS: usize = 40;

/// What is wrong with the line segments of `p`, if anything: a paragraph
/// with text and no segment; with one segment of no height; or with more
/// than 40 characters, no line break and one segment. A paragraph without
/// text is never reported.
pub open spec fn lineseg_issue(p: Paragraph) -> Option<WarningKind> {
    if p.text@.len() == 0 {
        None
    } else if p.line_segs@.len() == 0 {
        Some(WarningKind::LinesegArrayEmpty)
    } else if p.line_segs@.len() == 1 && p.line_segs@[0].line_height == 0 {
        Some(WarningKind::LinesegUncomputed)
    } else if p.text@.len() > TEXTRUN_REFLOW_MIN_CHARS && p.line_segs@.len() == 1 && !p.text@.contains(
        '\n',
    ) {
        Some(WarningKind::LinesegTextRunReflow)
    } else {
        None
    }
}

/// The warning, if any, for paragraph `p` at section `si`, paragraph `pi`,
/// inside a table at `cell_path`.
pub open spec fn own_warning(p: Paragraph, si: usize, pi: usize, cell_path: Option<CellPath>) -> Seq<LinesegWarning> {
    match lineseg_issue(p) {
        Some(k) => seq![LinesegWarning { section_idx: si, paragraph_idx: pi, cell_path, kind: k }],
        None => Seq::empty(),
    }
}

/// The warnings for the first `q` paragraphs of a cell of table control
/// `ci` of section paragraph `pi`.
pub open spec fn cell_warnings(cell: Cell, si: usize, pi: usize, ci: usize, q: int) -> Seq<LinesegWarning>
    decreases q,
{
    if q <= 0 || q > cell.paragraphs@.len() {
        Seq::empty()
    } else {
        cell_warnings(cell, si, pi, ci, q - 1) + own_warning(
            cell.paragraphs@[q - 1],
            si,
            pi,
            Some(CellPath { table_ctrl_idx: ci, row: cell.row, col: cell.col, inner_para_idx: (q - 1) as usize }),
        )
    }
}

/// The warnings for the paragraphs of the first `m` cells of table control
/// `ci`.
pub open spec fn table_warnings(t: Table, si: usize, pi: usize, ci: usize, m: int) -> Seq<LinesegWarning>
    decreases m,
{
    if m <= 0 || m > t.cells@.len() {
        Seq::empty()
    } else {
        table_warnings(t, si, pi, ci, m - 1) + cell_warnings(
            t.cells@[m - 1],
            si,
            pi,
            ci,
            t.cells@[m - 1].paragraphs@.len() as int,
        )
    }
}

/// The warnings for the cell paragraphs of the tables among the first `n`
/// controls of section paragraph `p`.
pub open spec fn controls_warnings(p: Paragraph, si: usize, pi: usize, n: int) -> Seq<LinesegWarning>
    decreases n,
{
    if n <= 0 || n > p.controls@.len() {
        Seq::empty()
    } else {
        controls_warnings(p, si, pi, n - 1) + match p.controls@[n - 1] {
            Control::Table(t) => table_warnings(*t, si, pi, (n - 1) as usize, t.cells@.len() as int),
            _ => Seq::empty(),
        }
    }
}

/// The warnings for section paragraph `p`: its own, then, with
/// `include_table_cells`, those of the paragraphs of its tables' cells.
pub open spec fn para_warnings(p: Paragraph, si: usize, pi: usize, include_table_cells: bool) -> Seq<LinesegWarning> {
    own_warning(p, si, pi, None) + if include_table_cells {
        controls_warnings(p, si, pi, p.controls@.len() as int)
    } else {
        Seq::empty()
    }
}

/// The warnings for the first `n` paragraphs of section `si`.
pub open spec fn section_warnings(doc: Document, si: int, n: int, include_table_cells: bool) -> Seq<LinesegWarning>
    decreases n,
{
    if n <= 0 || si < 0 || si >= doc.sections@.len() || n > doc.sections@[si].paragraphs@.len() {
        Seq::empty()
    } else {
        section_warnings(doc, si, n - 1, include_table_cells) + para_warnings(
            doc.sections@[si].paragraphs@[n - 1],
            si as usize,
            (n - 1) as usize,
            include_table_cells,
        )
    }
}

/// The warnings for the first `n` sections.
pub open spec fn doc_warnings_upto(doc: Document, n: int, include_table_cells: bool) -> Seq<LinesegWarning>
    decreases n,
{
    if n <= 0 || n > doc.sections@.len() {
        Seq::empty()
    } else {
        doc_warnings_upto(doc, n - 1, include_table_cells) + section_warnings(
            doc,
            n - 1,
            doc.sections@[n - 1].paragraphs@.len() as int,
            include_table_cells,
        )
    }
}

/// Whether paragraph `p` shows the problem `k` with its line segments: it
/// has text and no segment; or text and one segment of no height; or more
/// than 40 characters, no line break and one segment of some height.
pub open spec fn shows_problem(p: Paragraph, k: WarningKind) -> bool {
    match k {
        WarningKind::LinesegArrayEmpty => p.text@.len() > 0 && p.line_segs@.len() == 0,
        WarningKind::LinesegUncomputed => p.text@.len() > 0 && p.line_segs@.len() == 1
            && p.line_segs@[0].line_height == 0,
        WarningKind::LinesegTextRunReflow => p.text@.len() > 40 && p.line_segs@.len() == 1
            && p.line_segs@[0].line_height != 0 && !p.text@.contains('\n'),
    }
}

/// Warning `w` names a paragraph of `doc` that shows its problem: the
/// section paragraph itself, or, for a warning with a cell path, paragraph
/// `inner_para_idx` of a cell at that row and column of the table at that
/// control index.
pub open spec fn warning_names_problem(doc: Document, w: LinesegWarning) -> bool {
    &&& w.section_idx < doc.sections@.len()
    &&& w.paragraph_idx < doc.sections@[w.section_idx as int].paragraphs@.len()
    &&& {
        let p = doc.sections@[w.section_idx as int].paragraphs@[w.paragraph_idx as int];
        match w.cell_path {
            None => shows_problem(p, w.kind),
            Some(cp) => {
                &&& cp.table_ctrl_idx < p.controls@.len()
                &&& p.controls@[cp.table_ctrl_idx as int] matches Control::Table(t)
                &&& exists|j: int|
                    0 <= j < t.cells@.len() && (#[trigger] t.cells@[j]).row == cp.row && t.cells@[j].col == cp.col
                        && cp.inner_para_idx < t.cells@[j].paragraphs@.len() && shows_problem(
                        t.cells@[j].paragraphs@[cp.inner_para_idx as int],
                        w.kind,
                    )
            },
        }
    }
}

/// Every warning of `ws` names a paragraph of `doc` that shows its problem.
pub open spec fn all_name_problems(doc: Document, ws: Seq<LinesegWarning>) -> bool {
    forall|k: int| 0 <= k < ws.len() ==> warning_names_problem(doc, #[trigger] ws[k])
}

proof fn lemma_all_name_problems_concat(doc: Document, a: Seq<LinesegWarning>, b: Seq<LinesegWarning>)
    requires
        all_name_problems(doc, a),
        all_name_problems(doc, b),
    ensures
        all_name_problems(doc, a + b),
{
    assert forall|k: int| 0 <= k < (a + b).len() implies warning_names_problem(doc, #[trigger] (a + b)[k]) by {
        if k < a.len() {
            assert((a + b)[k] == a[k]);
        } else {
            assert((a + b)[k] == b[k - a.len()]);
        }
    }
}

proof fn lemma_issue_shows_problem(p: Paragraph)
    ensures
        lineseg_issue(p) matches Some(k) ==> shows_problem(p, k),
{
}

proof fn lemma_cell_warnings_name_problems(doc: Document, si: usize, pi: usize, ci: usize, t: Table, j: int, q: int)
    requires
        si < doc.sections@.len(),
        pi < doc.sections@[si as int].paragraphs@.len(),
        ci < doc.sections@[si as int].paragraphs@[pi as int].controls@.len(),
        doc.sections@[si as int].paragraphs@[pi as int].controls@[ci as int] == Control::Table(Box::new(t)),
        0 <= j < t.cells@.len(),
        0 <= q <= t.cells@[j].paragraphs@.len(),
    ensures
        all_name_problems(doc, cell_warnings(t.cells@[j], si, pi, ci, q)),
    decreases q,
{
    let cell = t.cells@[j];
    assert(cell.paragraphs.len() == cell.paragraphs@.len());
    if q > 0 {
        lemma_cell_warnings_name_problems(doc, si, pi, ci, t, j, q - 1);
        let cp = CellPath { table_ctrl_idx: ci, row: cell.row, col: cell.col, inner_para_idx: (q - 1) as usize };
        let own = own_warning(cell.paragraphs@[q - 1], si, pi, Some(cp));
        lemma_issue_shows_problem(cell.paragraphs@[q - 1]);
        assert forall|k: int| 0 <= k < own.len() implies warning_names_problem(doc, #[trigger] own[k]) by {
            let p = doc.sections@[si as int].paragraphs@[pi as int];
            assert(p.controls@[ci as int] == Control::Table(Box::new(t)));
            assert(t.cells@[j].row == cp.row && t.cells@[j].col == cp.col);
        }
        lemma_all_name_problems_concat(doc, cell_warnings(cell, si, pi, ci, q - 1), own);
    }
}

proof fn lemma_table_warnings_name_problems(doc: Document, si: usize, pi: usize, ci: usize, t: Table, m: int)
    requires
        si < doc.sections@.len(),
        pi < doc.sections@[si as int].paragraphs@.len(),
        ci < doc.sections@[si as int].paragraphs@[pi as int].controls@.len(),
        doc.sections@[si as int].paragraphs@[pi as int].controls@[ci as int] == Control::Table(Box::new(t)),
        0 <= m <= t.cells@.len(),
    ensures
        all_name_problems(doc, table_warnings(t, si, pi, ci, m)),
    decreases m,
{
    if m > 0 {
        lemma_table_warnings_name_problems(doc, si, pi, ci, t, m - 1);
        lemma_cell_warnings_name_problems(doc, si, pi, ci, t, m - 1, t.cells@[m - 1].paragraphs@.len() as int);
        lemma_all_name_problems_concat(
            doc,
            table_warnings(t, si, pi, ci, m - 1),
            cell_warnings(t.cells@[m - 1], si, pi, ci, t.cells@[m - 1].paragraphs@.len() as int),
        );
    }
}

proof fn lemma_controls_warnings_name_problems(doc: Document, si: usize, pi: usize, n: int)
    requires
        si < doc.sections@.len(),
        pi < doc.sections@[si as int].paragraphs@.len(),
        0 <= n <= doc.sections@[si as int].paragraphs@[pi as int].controls@.len(),
    ensures
        all_name_problems(doc, controls_warnings(doc.sections@[si as int].paragraphs@[pi as int], si, pi, n)),
    decreases n,
{
    let p = doc.sections@[si as int].paragraphs@[pi as int];
    assert(p.controls.len() == p.controls@.len());
    if n > 0 {
        lemma_controls_warnings_name_problems(doc, si, pi, n - 1);
        let tail: Seq<LinesegWarning> = match p.controls@[n - 1] {
            Control::Table(t) => table_warnings(*t, si, pi, (n - 1) as usize, t.cells@.len() as int),
            _ => Seq::empty(),
        };
        match p.controls@[n - 1] {
            Control::Table(t) => {
                lemma_table_warnings_name_problems(doc, si, pi, (n - 1) as usize, *t, t.cells@.len() as int);
            },
            _ => {},
        }
        lemma_all_name_problems_concat(doc, controls_warnings(p, si, pi, n - 1), tail);
    }
}

proof fn lemma_section_warnings_name_problems(doc: Document, si: int, n: int, include_table_cells: bool)
    requires
        0 <= si < doc.sections@.len(),
        0 <= n <= doc.sections@[si].paragraphs@.len(),
    ensures
        all_name_problems(doc, section_warnings(doc, si, n, include_table_cells)),
    decreases n,
{
    assert(doc.sections.len() == doc.sections@.len());
    assert(doc.sections@[si].paragraphs.len() == doc.sections@[si].paragraphs@.len());
    if n > 0 {
        lemma_section_warnings_name_problems(doc, si, n - 1, include_table_cells);
        let p = doc.sections@[si].paragraphs@[n - 1];
        let own = own_warning(p, si as usize, (n - 1) as usize, None);
        lemma_issue_shows_problem(p);
        assert(all_name_problems(doc, own));
        let cells: Seq<LinesegWarning> = if include_table_cells {
            controls_warnings(p, si as usize, (n - 1) as usize, p.controls@.len() as int)
        } else {
            Seq::empty()
        };
        if include_table_cells {
            lemma_controls_warnings_name_problems(doc, si as usize, (n - 1) as usize, p.controls@.len() as int);
        }
        lemma_all_name_problems_concat(doc, own, cells);
        lemma_all_name_problems_concat(doc, section_warnings(doc, si, n - 1, include_table_cells), own + cells);
    }
}

proof fn lemma_doc_warnings_name_problems(doc: Document, n: int, include_table_cells: bool)
    requires
        0 <= n <= doc.sections@.len(),
    ensures
        all_name_problems(doc, doc_warnings_upto(doc, n, include_table_cells)),
    decreases n,
{
    if n > 0 {
        lemma_doc_warnings_name_problems(doc, n - 1, include_table_cells);
        lemma_section_warnings_name_problems(
            doc,
            n - 1,
            doc.sections@[n - 1].paragraphs@.len() as int,
            include_table_cells,
        );
        lemma_all_name_problems_concat(
            doc,
            doc_warnings_upto(doc, n - 1, include_table_cells),
            section_warnings(doc, n - 1, doc.sections@[n - 1].paragraphs@.len() as int, include_table_cells),
        );
    }
}

/// Every warning of a validation names a paragraph that shows its
/// problem: a section paragraph, or, for a warning with a cell path, the
/// paragraph at that index of a cell at that row and column of that table.
/// A warning never points to another paragraph than the one at fault.
pub proof fn lemma_warnings_name_problems(doc: Document, include_table_cells: bool)
    ensures
        all_name_problems(doc, doc_warnings_upto(doc, doc.sections@.len() as int, include_table_cells)),
{
    lemma_doc_warnings_name_problems(doc, doc.sections@.len() as int, include_table_cells);
}

proof fn lemma_contains_left(a: Seq<LinesegWarning>, b: Seq<LinesegWarning>, w: LinesegWarning)
    requires
        a.contains(w),
    ensures
        (a + b).contains(w),
{
    let k = choose|k: int| 0 <= k < a.len() && a[k] == w;
    assert((a + b)[k] == w);
}

proof fn lemma_contains_right(a: Seq<LinesegWarning>, b: Seq<LinesegWarning>, w: LinesegWarning)
    requires
        b.contains(w),
    ensures
        (a + b).contains(w),
{
    let k = choose|k: int| 0 <= k < b.len() && b[k] == w;
    assert((a + b)[a.len() + k] == w);
}

proof fn lemma_problem_is_issue(p: Paragraph, k: WarningKind)
    requires
        shows_problem(p, k),
    ensures
        lineseg_issue(p) == Some(k),
{
}

/// The warning for paragraph `q` of cell `cell` of table control `ci` of
/// section paragraph `pi` of section `si`, of kind `k`.
pub open spec fn cell_warning(cell: Cell, si: usize, pi: usize, ci: usize, q: usize, k: WarningKind) -> LinesegWarning {
    LinesegWarning {
        section_idx: si,
        paragraph_idx: pi,
        cell_path: Some(CellPath { table_ctrl_idx: ci, row: cell.row, col: cell.col, inner_para_idx: q }),
        kind: k,
    }
}

proof fn lemma_cell_warning_listed(cell: Cell, si: usize, pi: usize, ci: usize, q: usize, k: WarningKind, n: int)
    requires
        q < n <= cell.paragraphs@.len(),
        shows_problem(cell.paragraphs@[q as int], k),
    ensures
        cell_warnings(cell, si, pi, ci, n).contains(cell_warning(cell, si, pi, ci, q, k)),
    decreases n,
{
    let w = cell_warning(cell, si, pi, ci, q, k);
    let own = own_warning(
        cell.paragraphs@[n - 1],
        si,
        pi,
        Some(CellPath { table_ctrl_idx: ci, row: cell.row, col: cell.col, inner_para_idx: (n - 1) as usize }),
    );
    if n - 1 == q {
        lemma_problem_is_issue(cell.paragraphs@[q as int], k);
        assert(own[0] == w);
        lemma_contains_right(cell_warnings(cell, si, pi, ci, n - 1), own, w);
    } else {
        lemma_cell_warning_listed(cell, si, pi, ci, q, k, n - 1);
        lemma_contains_left(cell_warnings(cell, si, pi, ci, n - 1), own, w);
    }
}

proof fn lemma_table_warning_listed(t: Table, si: usize, pi: usize, ci: usize, j: int, q: usize, k: WarningKind, m: int)
    requires
        0 <= j < m <= t.cells@.len(),
        q < t.cells@[j].paragraphs@.len(),
        shows_problem(t.cells@[j].paragraphs@[q as int], k),
    ensures
        table_warnings(t, si, pi, ci, m).contains(cell_warning(t.cells@[j], si, pi, ci, q, k)),
    decreases m,
{
    let w = cell_warning(t.cells@[j], si, pi, ci, q, k);
    let last = cell_warnings(t.cells@[m - 1], si, pi, ci, t.cells@[m - 1].paragraphs@.len() as int);
    if m - 1 == j {
        lemma_cell_warning_listed(t.cells@[j], si, pi, ci, q, k, t.cells@[j].paragraphs@.len() as int);
        lemma_contains_right(table_warnings(t, si, pi, ci, m - 1), last, w);
    } else {
        lemma_table_warning_listed(t, si, pi, ci, j, q, k, m - 1);
        lemma_contains_left(table_warnings(t, si, pi, ci, m - 1), last, w);
    }
}

proof fn lemma_controls_warning_listed(
    p: Paragraph,
    si: usize,
    pi: usize,
    ci: usize,
    j: int,
    q: usize,
    k: WarningKind,
    n: int,
)
    requires
        ci < n <= p.controls@.len(),
        p.controls@[ci as int] is Table,
        0 <= j < p.controls@[ci as int]->Table_0.cells@.len(),
        q < p.controls@[ci as int]->Table_0.cells@[j].paragraphs@.len(),
        shows_problem(p.controls@[ci as int]->Table_0.cells@[j].paragraphs@[q as int], k),
    ensures
        controls_warnings(p, si, pi, n).contains(
            cell_warning(p.controls@[ci as int]->Table_0.cells@[j], si, pi, ci, q, k),
        ),
    decreases n,
{
    let t = *(p.controls@[ci as int]->Table_0);
    let w = cell_warning(t.cells@[j], si, pi, ci, q, k);
    assert(p.controls.len() == p.controls@.len());
    let tail: Seq<LinesegWarning> = match p.controls@[n - 1] {
        Control::Table(tt) => table_warnings(*tt, si, pi, (n - 1) as usize, tt.cells@.len() as int),
        _ => Seq::empty(),
    };
    if n - 1 == ci {
        lemma_table_warning_listed(t, si, pi, ci, j, q, k, t.cells@.len() as int);
        lemma_contains_right(controls_warnings(p, si, pi, n - 1), tail, w);
    } else {
        lemma_controls_warning_listed(p, si, pi, ci, j, q, k, n - 1);
        lemma_contains_left(controls_warnings(p, si, pi, n - 1), tail, w);
    }
}

proof fn lemma_section_warning_listed(
    doc: Document,
    si: usize,
    pi: usize,
    ci: usize,
    j: int,
    q: usize,
    k: WarningKind,
    n: int,
)
    requires
        si < doc.sections@.len(),
        pi < n <= doc.sections@[si as int].paragraphs@.len(),
        ci < doc.sections@[si as int].paragraphs@[pi as int].controls@.len(),
        doc.sections@[si as int].paragraphs@[pi as int].controls@[ci as int] is Table,
        0 <= j < doc.sections@[si as int].paragraphs@[pi as int].controls@[ci as int]->Table_0.cells@.len(),
        q < doc.sections@[si as int].paragraphs@[pi as int].controls@[ci as int]->Table_0.cells@[j].paragraphs@.len(),
        shows_problem(
            doc.sections@[si as int].paragraphs@[pi as int].controls@[ci as int]->Table_0.cells@[j].paragraphs@[q as int],
            k,
        ),
    ensures
        section_warnings(doc, si as int, n, true).contains(
            cell_warning(
                doc.sections@[si as int].paragraphs@[pi as int].controls@[ci as int]->Table_0.cells@[j],
                si,
                pi,
                ci,
                q,
                k,
            ),
        ),
    decreases n,
{
    let p = doc.sections@[si as int].paragraphs@[pi as int];
    let w = cell_warning(p.controls@[ci as int]->Table_0.cells@[j], si, pi, ci, q, k);
    assert(doc.sections.len() == doc.sections@.len());
    assert(doc.sections@[si as int].paragraphs.len() == doc.sections@[si as int].paragraphs@.len());
    let last = para_warnings(doc.sections@[si as int].paragraphs@[n - 1], si, (n - 1) as usize, true);
    if n - 1 == pi {
        lemma_controls_warning_listed(p, si, pi, ci, j, q, k, p.controls@.len() as int);
        let own = own_warning(p, si, pi, None);
        lemma_contains_right(own, controls_warnings(p, si, pi, p.controls@.len() as int), w);
        lemma_contains_right(section_warnings(doc, si as int, n - 1, true), last, w);
    } else {
        lemma_section_warning_listed(doc, si, pi, ci, j, q, k, n - 1);
        lemma_contains_left(section_warnings(doc, si as int, n - 1, true), last, w);
    }
}

proof fn lemma_doc_warning_listed(
    doc: Document,
    si: usize,
    pi: usize,
    ci: usize,
    j: int,
    q: usize,
    k: WarningKind,
    n: int,
)
    requires
        si < n <= doc.sections@.len(),
        pi < doc.sections@[si as int].paragraphs@.len(),
        ci < doc.sections@[si as int].paragraphs@[pi as int].controls@.len(),
        doc.sections@[si as int].paragraphs@[pi as int].controls@[ci as int] is Table,
        0 <= j < doc.sections@[si as int].paragraphs@[pi as int].controls@[ci as int]->Table_0.cells@.len(),
        q < doc.sections@[si as int].paragraphs@[pi as int].controls@[ci as int]->Table_0.cells@[j].paragraphs@.len(),
        shows_problem(
            doc.sections@[si as int].paragraphs@[pi as int].controls@[ci as int]->Table_0.cells@[j].paragraphs@[q as int],
            k,
        ),
    ensures
        doc_warnings_upto(doc, n, true).contains(
            cell_warning(
                doc.sections@[si as int].paragraphs@[pi as int].controls@[ci as int]->Table_0.cells@[j],
                si,
                pi,
                ci,
                q,
                k,
            ),
        ),
    decreases n,
{
    let w = cell_warning(
        doc.sections@[si as int].paragraphs@[pi as int].controls@[ci as int]->Table_0.cells@[j],
        si,
        pi,
        ci,
        q,
        k,
    );
    let last = section_warnings(doc, n - 1, doc.sections@[n - 1].paragraphs@.len() as int, true);
    if n - 1 == si {
        lemma_section_warning_listed(doc, si, pi, ci, j, q, k, doc.sections@[si as int].paragraphs@.len() as int);
        lemma_contains_right(doc_warnings_upto(doc, n - 1, true), last, w);
    } else {
        lemma_doc_warning_listed(doc, si, pi, ci, j, q, k, n - 1);
        lemma_contains_left(doc_warnings_upto(doc, n - 1, true), last, w);
    }
}

/// A validation that looks into table cells reports every cell paragraph
/// that shows a problem: the report holds a warning of that kind whose
/// cell path gives the table's control index, the cell's row and column
/// and the paragraph's index in the cell.
pub proof fn lemma_cell_problems_reported(
    doc: Document,
    si: usize,
    pi: usize,
    ci: usize,
    j: int,
    q: usize,
    k: WarningKind,
)
    requires
        si < doc.sections@.len(),
        pi < doc.sections@[si as int].paragraphs@.len(),
        ci < doc.sections@[si as int].paragraphs@[pi as int].controls@.len(),
        doc.sections@[si as int].paragraphs@[pi as int].controls@[ci as int] matches Control::Table(t) && 0 <= j
            < t.cells@.len() && q < t.cells@[j].paragraphs@.len() && shows_problem(t.cells@[j].paragraphs@[q as int], k),
    ensures
        doc_warnings_upto(doc, doc.sections@.len() as int, true).contains(
            LinesegWarning {
                section_idx: si,
                paragraph_idx: pi,
                cell_path: Some(
                    CellPath {
                        table_ctrl_idx: ci,
                        row: doc.sections@[si as int].paragraphs@[pi as int].controls@[ci as int]->Table_0.cells@[j].row,
                        col: doc.sections@[si as int].paragraphs@[pi as int].controls@[ci as int]->Table_0.cells@[j].col,
                        inner_para_idx: q,
                    },
                ),
                kind: k,
            },
        ),
{
    lemma_doc_warning_listed(doc, si, pi, ci, j, q, k, doc.sections@.len() as int);
}

/// The number of warnings of kind `k` among `ws`.
pub open spec fn count_kind(ws: Seq<LinesegWarning>, k: WarningKind) -> nat
    decreases ws.len(),
{
    if ws.len() == 0 {
        0
    } else {
        count_kind(ws.drop_last(), k) + if ws.last().kind == k {
            1nat
        } else {
            0nat
        }
    }
}

/// Some warning of `ws` is the own warning of section paragraph `pi` of
/// section `si` (not one for a paragraph in its tables).
pub open spec fn has_own_warning(ws: Seq<LinesegWarning>, si: usize, pi: usize) -> bool {
    exists|k: int|
        0 <= k < ws.len() && (#[trigger] ws[k]).section_idx == si && ws[k].paragraph_idx == pi
            && ws[k].cell_path is None
}

/// Every warning of `ws` is for a paragraph in a table of section
/// paragraph `pi` of section `si`.
pub open spec fn all_in_tables_of(ws: Seq<LinesegWarning>, si: usize, pi: usize) -> bool {
    forall|k: int|
        0 <= k < ws.len() ==> (#[trigger] ws[k]).section_idx == si && ws[k].paragraph_idx == pi
            && ws[k].cell_path is Some
}

proof fn lemma_has_own_concat(a: Seq<LinesegWarning>, b: Seq<LinesegWarning>, si: usize, pi: usize)
    ensures
        has_own_warning(a + b, si, pi) == (has_own_warning(a, si, pi) || has_own_warning(b, si, pi)),
{
    let c = a + b;
    if has_own_warning(c, si, pi) {
        let k = choose|k: int|
            0 <= k < c.len() && (#[trigger] c[k]).section_idx == si && c[k].paragraph_idx == pi
                && c[k].cell_path is None;
        if k < a.len() {
            assert(a[k] == c[k]);
        } else {
            assert(b[k - a.len()] == c[k]);
        }
    }
    if has_own_warning(a, si, pi) {
        let k = choose|k: int|
            0 <= k < a.len() && (#[trigger] a[k]).section_idx == si && a[k].paragraph_idx == pi
                && a[k].cell_path is None;
        assert(c[k] == a[k]);
    }
    if has_own_warning(b, si, pi) {
        let k = choose|k: int|
            0 <= k < b.len() && (#[trigger] b[k]).section_idx == si && b[k].paragraph_idx == pi
                && b[k].cell_path is None;
        assert(c[k + a.len()] == b[k]);
    }
}

proof fn lemma_cell_warnings_in_tables(cell: Cell, si: usize, pi: usize, ci: usize, q: int)
    ensures
        all_in_tables_of(cell_warnings(cell, si, pi, ci, q), si, pi),
    decreases q,
{
    if q > 0 && q <= cell.paragraphs@.len() {
        lemma_cell_warnings_in_tables(cell, si, pi, ci, q - 1);
    }
}

proof fn lemma_table_warnings_in_tables(t: Table, si: usize, pi: usize, ci: usize, m: int)
    ensures
        all_in_tables_of(table_warnings(t, si, pi, ci, m), si, pi),
    decreases m,
{
    if m > 0 && m <= t.cells@.len() {
        lemma_table_warnings_in_tables(t, si, pi, ci, m - 1);
        lemma_cell_warnings_in_tables(t.cells@[m - 1], si, pi, ci, t.cells@[m - 1].paragraphs@.len() as int);
    }
}

proof fn lemma_controls_warnings_in_tables(p: Paragraph, si: usize, pi: usize, n: int)
    ensures
        all_in_tables_of(controls_warnings(p, si, pi, n), si, pi),
    decreases n,
{
    if n > 0 && n <= p.controls@.len() {
        lemma_controls_warnings_in_tables(p, si, pi, n - 1);
        match p.controls@[n - 1] {
            Control::Table(t) => lemma_table_warnings_in_tables(*t, si, pi, (n - 1) as usize, t.cells@.len() as int),
            _ => {},
        }
    }
}

proof fn lemma_para_warnings_own(p: Paragraph, si: usize, pi: usize, inc: bool, si2: usize, pi2: usize)
    ensures
        has_own_warning(para_warnings(p, si, pi, inc), si2, pi2) == (si2 == si && pi2 == pi && lineseg_issue(p) is Some),
        forall|k: int|
            0 <= k < para_warnings(p, si, pi, inc).len() ==> (#[trigger] para_warnings(p, si, pi, inc)[k]).section_idx
                == si && para_warnings(p, si, pi, inc)[k].paragraph_idx == pi,
{
    let own = own_warning(p, si, pi, None);
    let rest = if inc { controls_warnings(p, si, pi, p.controls@.len() as int) } else { Seq::empty() };
    lemma_controls_warnings_in_tables(p, si, pi, p.controls@.len() as int);
    lemma_has_own_concat(own, rest, si2, pi2);
    assert(!has_own_warning(rest, si2, pi2));
    if si2 == si && pi2 == pi && lineseg_issue(p) is Some {
        assert(own[0].section_idx == si);
    }
    let all = para_warnings(p, si, pi, inc);
    assert forall|k: int| 0 <= k < all.len() implies (#[trigger] all[k]).section_idx == si && all[k].paragraph_idx
        == pi by {
        if k >= own.len() {
            assert(all[k] == rest[k - own.len()]);
        }
    }
}

proof fn lemma_section_warnings_own(doc: Document, si: int, n: int, inc: bool, pi: usize)
    requires
        0 <= si < doc.sections@.len(),
        0 <= n <= doc.sections@[si].paragraphs@.len(),
        doc.sections@.len() <= usize::MAX,
        doc.sections@[si].paragraphs@.len() <= usize::MAX,
    ensures
        has_own_warning(section_warnings(doc, si, n, inc), si as usize, pi) == (pi < n && lineseg_issue(
            doc.sections@[si].paragraphs@[pi as int],
        ) is Some),
        forall|k: int|
            0 <= k < section_warnings(doc, si, n, inc).len() ==> (#[trigger] section_warnings(doc, si, n, inc)[k]).section_idx
                == si,
    decreases n,
{
    if n > 0 {
        lemma_section_warnings_own(doc, si, n - 1, inc, pi);
        let prev = section_warnings(doc, si, n - 1, inc);
        let last = para_warnings(doc.sections@[si].paragraphs@[n - 1], si as usize, (n - 1) as usize, inc);
        lemma_para_warnings_own(doc.sections@[si].paragraphs@[n - 1], si as usize, (n - 1) as usize, inc, si as usize, pi);
        lemma_has_own_concat(prev, last, si as usize, pi);
        let all = section_warnings(doc, si, n, inc);
        assert forall|k: int| 0 <= k < all.len() implies (#[trigger] all[k]).section_idx == si by {
            if k >= prev.len() {
                assert(all[k] == last[k - prev.len()]);
            } else {
                assert(all[k] == prev[k]);
            }
        }
    }
}

proof fn lemma_doc_warnings_own(doc: Document, n: int, inc: bool, si: usize, pi: usize)
    requires
        0 <= n <= doc.sections@.len(),
        doc.sections@.len() <= usize::MAX,
        forall|k: int| 0 <= k < doc.sections@.len() ==> #[trigger] doc.sections@[k].paragraphs@.len() <= usize::MAX,
    ensures
        has_own_warning(doc_warnings_upto(doc, n, inc), si, pi) == (si < n && pi < doc.sections@[si as int].paragraphs@.len()
            && lineseg_issue(doc.sections@[si as int].paragraphs@[pi as int]) is Some),
    decreases n,
{
    if n > 0 {
        lemma_doc_warnings_own(doc, n - 1, inc, si, pi);
        let prev = doc_warnings_upto(doc, n - 1, inc);
        let last = section_warnings(doc, n - 1, doc.sections@[n - 1].paragraphs@.len() as int, inc);
        assert(doc.sections@[n - 1].paragraphs@.len() <= usize::MAX);
        lemma_section_warnings_own(doc, n - 1, doc.sections@[n - 1].paragraphs@.len() as int, inc, pi);
        lemma_has_own_concat(prev, last, si, pi);
        if si != n - 1 && has_own_warning(last, si, pi) {
            let k = choose|k: int|
                0 <= k < last.len() && (#[trigger] last[k]).section_idx == si && last[k].paragraph_idx == pi
                    && last[k].cell_path is None;
            assert(last[k].section_idx == n - 1);
        }
    }
}

/// A section paragraph is reported by `validate_linesegs` exactly when
/// `needs_reflow_broadly` holds of it: both go by `lineseg_issue`.
pub proof fn lemma_validate_agrees_with_needs_reflow(doc: Document, include_table_cells: bool, si: usize, pi: usize)
    requires
        si < doc.sections@.len(),
        pi < doc.sections@[si as int].paragraphs@.len(),
        doc.sections@.len() <= usize::MAX,
        forall|k: int| 0 <= k < doc.sections@.len() ==> #[trigger] doc.sections@[k].paragraphs@.len() <= usize::MAX,
    ensures
        has_own_warning(doc_warnings_upto(doc, doc.sections@.len() as int, include_table_cells), si, pi)
            == (lineseg_issue(doc.sections@[si as int].paragraphs@[pi as int]) is Some),
{
    lemma_doc_warnings_own(doc, doc.sections@.len() as int, include_table_cells, si, pi);
}

impl WarningKind {
    /// What the warning says.
    pub fn description(&self) -> (r: &'static str)
        ensures
            r@ == kind_description(*self),
    {
        match self {
            WarningKind::LinesegArrayEmpty => "lineseg 배열이 비어있음",
            WarningKind::LinesegUncomputed => "lineseg 가 미계산 상태 (line_height=0)",
            WarningKind::LinesegTextRunReflow => "긴 텍스트가 lineseg 하나에 담김 (textRun reflow 필요)",
        }
    }
}

impl LinesegSummary {
    /// The number of warnings of the kind that `description` describes,
    /// where there is at least one.
    pub fn get(&self, description: &str) -> (r: Option<&usize>)
        ensures
            match kind_of_description(description@) {
                Some(WarningKind::LinesegArrayEmpty) if self.array_empty > 0 => r == Some(&self.array_empty),
                Some(WarningKind::LinesegUncomputed) if self.uncomputed > 0 => r == Some(&self.uncomputed),
                Some(WarningKind::LinesegTextRunReflow) if self.textrun_reflow > 0 => r == Some(
                    &self.textrun_reflow,
                ),
                _ => r is None,
            },
    {
        let d = chars_of(description);
        let a = chars_of(WarningKind::LinesegArrayEmpty.description());
        let u = chars_of(WarningKind::LinesegUncomputed.description());
        let t = chars_of(WarningKind::LinesegTextRunReflow.description());
        if chars_eq(d.as_slice(), a.as_slice()) {
            if self.array_empty > 0 { Some(&self.array_empty) } else { None }
        } else if chars_eq(d.as_slice(), u.as_slice()) {
            if self.uncomputed > 0 { Some(&self.uncomputed) } else { None }
        } else if chars_eq(d.as_slice(), t.as_slice()) {
            if self.textrun_reflow > 0 { Some(&self.textrun_reflow) } else { None }
        } else {
            None
        }
    }
}

impl LinesegValidationReport {
    /// The number of warnings.
    pub fn len(&self) -> (r: usize)
        ensures
            r == self.warnings@.len(),
    {
        self.warnings.len()
    }

    /// Whether there is no warning.
    pub fn is_empty(&self) -> (r: bool)
        ensures
            r == (self.warnings@.len() == 0),
    {
        self.warnings.len() == 0
    }

    /// How many warnings of each kind there are.
    pub fn summary(&self) -> (r: LinesegSummary)
        ensures
            r.array_empty == count_kind(self.warnings@, WarningKind::LinesegArrayEmpty),
            r.uncomputed == count_kind(self.warnings@, WarningKind::LinesegUncomputed),
            r.textrun_reflow == count_kind(self.warnings@, WarningKind::LinesegTextRunReflow),
    {
        let mut s = LinesegSummary { array_empty: 0, uncomputed: 0, textrun_reflow: 0 };
        let mut i: usize = 0;
        while i < self.warnings.len()
            invariant
                i <= self.warnings@.len(),
                s.array_empty == count_kind(self.warnings@.subrange(0, i as int), WarningKind::LinesegArrayEmpty),
                s.uncomputed == count_kind(self.warnings@.subrange(0, i as int), WarningKind::LinesegUncomputed),
                s.textrun_reflow == count_kind(
                    self.warnings@.subrange(0, i as int),
                    WarningKind::LinesegTextRunReflow,
                ),
                s.array_empty <= i,
                s.uncomputed <= i,
                s.textrun_reflow <= i,
            decreases self.warnings@.len() - i,
        {
            let ghost pre = self.warnings@.subrange(0, i + 1);
            assert(pre.drop_last() =~= self.warnings@.subrange(0, i as int));
            match self.warnings[i].kind {
                WarningKind::LinesegArrayEmpty => s.array_empty = s.array_empty + 1,
                WarningKind::LinesegUncomputed => s.uncomputed = s.uncomputed + 1,
                WarningKind::LinesegTextRunReflow => s.textrun_reflow = s.textrun_reflow + 1,
            }
            i = i + 1;
        }
        assert(self.warnings@.subrange(0, self.warnings@.len() as int) =~= self.warnings@);
        s
    }
}

/// What is wrong with the line segments of `para` (see `lineseg_issue`).
#[verifier::loop_isolation(false)]
pub fn lineseg_issue_of(para: &Paragraph) -> (r: Option<WarningKind>)
    ensures
        r == lineseg_issue(*para),
{
    let chars = chars_of(para.text.as_str());
    let n = chars.len();
    if n == 0 {
        return None;
    }
    let nsegs = para.line_segs.len();
    if nsegs == 0 {
        return Some(WarningKind::LinesegArrayEmpty);
    }
    if nsegs == 1 && para.line_segs[0].line_height == 0 {
        return Some(WarningKind::LinesegUncomputed);
    }
    if n > TEXTRUN_REFLOW_MIN_CHARS && nsegs == 1 {
        let mut k: usize = 0;
        while k < n
            invariant
                k <= n,
                n == chars@.len(),
                chars@ == para.text@,
                forall|j: int| 0 <= j < k ==> chars@[j] != '\n',
            decreases n - k,
        {
            if chars[k] == '\n' {
                assert(para.text@[k as int] == '\n');
                assert(para.text@.contains('\n'));
                return None;
            }
            k = k + 1;
        }
        assert(!para.text@.contains('\n'));
        return Some(WarningKind::LinesegTextRunReflow);
    }
    None
}

/// Appends the warning, if any, for one paragraph.
fn push_own_warning(out: &mut Vec<LinesegWarning>, p: &Paragraph, si: usize, pi: usize, cell_path: Option<CellPath>)
    ensures
        final(out)@ == old(out)@ + own_warning(*p, si, pi, cell_path),
{
    match lineseg_issue_of(p) {
        Some(k) => {
            out.push(LinesegWarning { section_idx: si, paragraph_idx: pi, cell_path, kind: k });
        },
        None => {},
    }
    assert(out@ =~= old(out)@ + own_warning(*p, si, pi, cell_path));
}

/// Appends the warnings for the cell paragraphs of table control `ci`.
fn push_table_warnings(out: &mut Vec<LinesegWarning>, t: &Table, si: usize, pi: usize, ci: usize)
    ensures
        final(out)@ == old(out)@ + table_warnings(*t, si, pi, ci, t.cells@.len() as int),
{
    let mut m: usize = 0;
    while m < t.cells.len()
        invariant
            m <= t.cells@.len(),
            out@ == old(out)@ + table_warnings(*t, si, pi, ci, m as int),
        decreases t.cells@.len() - m,
    {
        let cell = &t.cells[m];
        let ghost mid = out@;
        let mut q: usize = 0;
        while q < cell.paragraphs.len()
            invariant
                q <= cell.paragraphs@.len(),
                out@ == mid + cell_warnings(*cell, si, pi, ci, q as int),
            decreases cell.paragraphs@.len() - q,
        {
            let cp = CellPath { table_ctrl_idx: ci, row: cell.row, col: cell.col, inner_para_idx: q };
            push_own_warning(out, &cell.paragraphs[q], si, pi, Some(cp));
            q = q + 1;
            assert(out@ =~= mid + cell_warnings(*cell, si, pi, ci, q as int));
        }
        m = m + 1;
        assert(out@ =~= old(out)@ + table_warnings(*t, si, pi, ci, m as int));
    }
}

impl DocumentCore {
    /// Whether `para` needs its text laid out again because of its line
    /// segments (see `lineseg_issue`).
    pub fn needs_reflow_broadly(para: &Paragraph) -> (r: bool)
        ensures
            r == lineseg_issue(*para) is Some,
    {
        lineseg_issue_of(para).is_some()
    }

    /// The paragraphs of `doc` whose line segments need the text laid out
    /// again: every section paragraph and, with `include_table_cells`, the
    /// paragraphs of the cells of its tables, in document order.
    pub fn validate_linesegs(doc: &Document, include_table_cells: bool) -> (r: LinesegValidationReport)
        ensures
            r.warnings@ == doc_warnings_upto(*doc, doc.sections@.len() as int, include_table_cells),
    {
        let mut out: Vec<LinesegWarning> = Vec::new();
        let ns = doc.sections.len();
        let mut si: usize = 0;
        while si < ns
            invariant
                si <= ns,
                ns == doc.sections@.len(),
                out@ == doc_warnings_upto(*doc, si as int, include_table_cells),
            decreases ns - si,
        {
            let np = doc.sections[si].paragraphs.len();
            let mut pi: usize = 0;
            while pi < np
                invariant
                    si < ns,
                    ns == doc.sections@.len(),
                    pi <= np,
                    np == doc.sections@[si as int].paragraphs@.len(),
                    out@ == doc_warnings_upto(*doc, si as int, include_table_cells) + section_warnings(
                        *doc,
                        si as int,
                        pi as int,
                        include_table_cells,
                    ),
                decreases np - pi,
            {
                let p = &doc.sections[si].paragraphs[pi];
                let ghost before = out@;
                push_own_warning(&mut out, p, si, pi, None);
                if include_table_cells {
                    let ghost mid = out@;
                    let mut ci: usize = 0;
                    while ci < p.controls.len()
                        invariant
                            ci <= p.controls@.len(),
                            out@ == mid + controls_warnings(*p, si, pi, ci as int),
                        decreases p.controls@.len() - ci,
                    {
                        match &p.controls[ci] {
                            Control::Table(t) => push_table_warnings(&mut out, t, si, pi, ci),
                            _ => {},
                        }
                        ci = ci + 1;
                        assert(out@ =~= mid + controls_warnings(*p, si, pi, ci as int));
                    }
                }
                assert(out@ =~= before + para_warnings(*p, si, pi, include_table_cells));
                pi = pi + 1;
                assert(out@ =~= doc_warnings_upto(*doc, si as int, include_table_cells) + section_warnings(
                    *doc,
                    si as int,
                    pi as int,
                    include_table_cells,
                ));
            }
            si = si + 1;
        }
        LinesegValidationReport { warnings: out }
    }
}

/// The name of a kind of warning.
pub open spec fn kind_name(k: WarningKind) -> Seq<char> {
    match k {
        WarningKind::LinesegArrayEmpty => "LinesegArrayEmpty"@,
        WarningKind::LinesegUncomputed => "LinesegUncomputed"@,
        WarningKind::LinesegTextRunReflow => "LinesegTextRunReflow"@,
    }
}

/// Where in a table a warned paragraph is, as JSON (`null` for a section
/// paragraph).
pub open spec fn cell_path_json(cp: Option<CellPath>) -> Seq<char> {
    match cp {
        Some(c) => "{\"ctrl\":"@ + decimal(c.table_ctrl_idx as nat) + ",\"row\":"@ + decimal(c.row as nat)
            + ",\"col\":"@ + decimal(c.col as nat) + ",\"innerPara\":"@ + decimal(c.inner_para_idx as nat)
            + "}"@,
        None => "null"@,
    }
}

/// One warning as a JSON object.
pub open spec fn warning_json(w: LinesegWarning) -> Seq<char> {
    "{\"section\":"@ + decimal(w.section_idx as nat) + ",\"paragraph\":"@ + decimal(w.paragraph_idx as nat)
        + ",\"kind\":\""@ + kind_name(w.kind) + "\",\"cell\":"@ + cell_path_json(w.cell_path) + "}"@
}

/// The warnings as JSON objects separated by commas.
pub open spec fn warnings_json(ws: Seq<LinesegWarning>) -> Seq<char>
    decreases ws.len(),
{
    if ws.len() == 0 {
        Seq::empty()
    } else if ws.len() == 1 {
        warning_json(ws[0])
    } else {
        warnings_json(ws.drop_last()) + seq![','] + warning_json(ws.last())
    }
}

/// One member of the summary object: a description and its count.
pub open spec fn summary_member(k: WarningKind, n: nat) -> Seq<char> {
    seq!['"'] + kind_description(k) + "\":"@ + decimal(n)
}

/// `k` alone where it occurs among `ws`, else nothing.
pub open spec fn if_occurs(ws: Seq<LinesegWarning>, k: WarningKind) -> Seq<WarningKind> {
    if count_kind(ws, k) > 0 {
        seq![k]
    } else {
        Seq::empty()
    }
}

/// The kinds that occur among `ws`, ordered by their descriptions.
pub open spec fn kinds_present(ws: Seq<LinesegWarning>) -> Seq<WarningKind> {
    if_occurs(ws, WarningKind::LinesegUncomputed) + if_occurs(ws, WarningKind::LinesegArrayEmpty) + if_occurs(
        ws,
        WarningKind::LinesegTextRunReflow,
    )
}

/// The members of the summary object for the kinds that occur, ordered by
/// their descriptions, separated by commas.
pub open spec fn summary_members(ws: Seq<LinesegWarning>) -> Seq<char> {
    join_members(ws, kinds_present(ws))
}

/// The summary members of `kinds`, separated by commas.
pub open spec fn join_members(ws: Seq<LinesegWarning>, kinds: Seq<WarningKind>) -> Seq<char>
    decreases kinds.len(),
{
    if kinds.len() == 0 {
        Seq::empty()
    } else if kinds.len() == 1 {
        summary_member(kinds[0], count_kind(ws, kinds[0]))
    } else {
        join_members(ws, kinds.drop_last()) + seq![','] + summary_member(kinds.last(), count_kind(ws, kinds.last()))
    }
}

/// A report as JSON: the number of warnings, the count of each kind that
/// occurs (by its description), and the warnings.
pub open spec fn report_json(ws: Seq<LinesegWarning>) -> Seq<char> {
    "{\"count\":"@ + decimal(ws.len()) + ",\"summary\":{"@ + summary_members(ws) + "},\"warnings\":["@
        + warnings_json(ws) + "]}"@
}

/// Appends one warning as a JSON object.
fn push_warning_json(out: &mut String, w: &LinesegWarning)
    ensures
        final(out)@ == old(out)@ + warning_json(*w),
{
    out.append("{\"section\":");
    push_decimal(out, w.section_idx as u64);
    out.append(",\"paragraph\":");
    push_decimal(out, w.paragraph_idx as u64);
    out.append(",\"kind\":\"");
    match w.kind {
        WarningKind::LinesegArrayEmpty => out.append("LinesegArrayEmpty"),
        WarningKind::LinesegUncomputed => out.append("LinesegUncomputed"),
        WarningKind::LinesegTextRunReflow => out.append("LinesegTextRunReflow"),
    }
    out.append("\",\"cell\":");
    let ghost o1 = out@;
    match w.cell_path {
        Some(c) => {
            out.append("{\"ctrl\":");
            push_decimal(out, c.table_ctrl_idx as u64);
            out.append(",\"row\":");
            push_decimal(out, c.row as u64);
            out.append(",\"col\":");
            push_decimal(out, c.col as u64);
            out.append(",\"innerPara\":");
            push_decimal(out, c.inner_para_idx as u64);
            out.append("}");
        },
        None => out.append("null"),
    }
    assert(out@ =~= o1 + cell_path_json(w.cell_path));
    out.append("}");
    assert(out@ =~= old(out)@ + warning_json(*w));
}

/// Appends one summary member, preceded by a comma unless it is the first.
fn push_summary_member(out: &mut String, first: bool, k: WarningKind, n: usize)
    ensures
        final(out)@ == old(out)@ + (if first { Seq::empty() } else { seq![','] }) + summary_member(k, n as nat),
{
    if !first {
        crate::encoding::push_char(out, ',');
    }
    let ghost o1 = out@;
    crate::encoding::push_char(out, '"');
    out.append(k.description());
    out.append("\":");
    push_decimal(out, n as u64);
    assert(out@ =~= o1 + summary_member(k, n as nat));
}

proof fn lemma_join_members_push(ws: Seq<LinesegWarning>, kinds: Seq<WarningKind>, k: WarningKind)
    ensures
        join_members(ws, kinds.push(k)) == join_members(ws, kinds) + (if kinds.len() == 0 {
            Seq::empty()
        } else {
            seq![',']
        }) + summary_member(k, count_kind(ws, k)),
{
    let ks = kinds.push(k);
    assert(ks.drop_last() =~= kinds);
    if kinds.len() == 0 {
        assert(join_members(ws, kinds) =~= Seq::<char>::empty());
        assert(ks[0] == k);
    }
}

/// The report as JSON (see `report_json`): its number of warnings, the
/// count of each kind that occurs keyed by the kind's description (in the
/// order of the descriptions), and each warning with its section,
/// paragraph, kind and, for a paragraph in a table cell, where it is.
pub fn validation_warnings_json(report: &LinesegValidationReport) -> (r: String)
    ensures
        r@ == report_json(report.warnings@),
{
    let ghost ws = report.warnings@;
    let s = report.summary();
    let mut out = String::from_str("{\"count\":");
    push_decimal(&mut out, report.len() as u64);
    out.append(",\"summary\":{");
    let ghost start = out@;
    let ghost u = if_occurs(ws, WarningKind::LinesegUncomputed);
    let ghost a = if_occurs(ws, WarningKind::LinesegArrayEmpty);
    let ghost t = if_occurs(ws, WarningKind::LinesegTextRunReflow);
    let mut first = true;
    if s.uncomputed > 0 {
        push_summary_member(&mut out, first, WarningKind::LinesegUncomputed, s.uncomputed);
        first = false;
    }
    proof {
        lemma_join_members_push(ws, Seq::empty(), WarningKind::LinesegUncomputed);
        assert(Seq::<WarningKind>::empty().push(WarningKind::LinesegUncomputed) =~= seq![WarningKind::LinesegUncomputed]);
        assert(join_members(ws, Seq::<WarningKind>::empty()) =~= Seq::<char>::empty());
        assert(out@ == start + join_members(ws, u));
        assert(first == (u.len() == 0));
    }
    if s.array_empty > 0 {
        push_summary_member(&mut out, first, WarningKind::LinesegArrayEmpty, s.array_empty);
        first = false;
    }
    proof {
        lemma_join_members_push(ws, u, WarningKind::LinesegArrayEmpty);
        assert(u + a == if count_kind(ws, WarningKind::LinesegArrayEmpty) > 0 {
            u.push(WarningKind::LinesegArrayEmpty)
        } else {
            u
        });
        assert(out@ == start + join_members(ws, u + a));
        assert(first == ((u + a).len() == 0));
    }
    if s.textrun_reflow > 0 {
        push_summary_member(&mut out, first, WarningKind::LinesegTextRunReflow, s.textrun_reflow);
    }
    proof {
        lemma_join_members_push(ws, u + a, WarningKind::LinesegTextRunReflow);
        assert(u + a + t == if count_kind(ws, WarningKind::LinesegTextRunReflow) > 0 {
            (u + a).push(WarningKind::LinesegTextRunReflow)
        } else {
            u + a
        });
        assert(out@ == start + summary_members(ws));
    }
    out.append("},\"warnings\":[");
    let ghost mid = out@;
    let mut i: usize = 0;
    while i < report.warnings.len()
        invariant
            i <= ws.len(),
            ws == report.warnings@,
            out@ == mid + warnings_json(ws.subrange(0, i as int)),
        decreases ws.len() - i,
    {
        if i > 0 {
            crate::encoding::push_char(&mut out, ',');
        }
        push_warning_json(&mut out, &report.warnings[i]);
        let ghost pre = ws.subrange(0, i + 1);
        assert(pre.drop_last() =~= ws.subrange(0, i as int));
        i = i + 1;
        assert(out@ =~= mid + warnings_json(ws.subrange(0, i as int)));
    }
    assert(ws.subrange(0, ws.len() as int) =~= ws);
    out.append("]}");
    assert(out@ =~= report_json(ws));
    out
}

} // verus!
