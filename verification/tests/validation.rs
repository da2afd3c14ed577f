use rhwp::document_core::validation::{validation_warnings_json, WarningKind};
use rhwp::document_core::DocumentCore;
use rhwp::model::control::Control;
use rhwp::model::document::{Document, Section};
use rhwp::model::paragraph::{LineSeg, Paragraph};
use rhwp::model::table::{Cell, Table};

#[test]
fn needs_reflow_broadly_covers_empty_linesegs() {
    let mut para = Paragraph::default();
    para.text = "hello".to_string();
    assert!(DocumentCore::needs_reflow_broadly(&para));
}

#[test]
fn needs_reflow_broadly_covers_uncomputed_lineseg() {
    let mut para = Paragraph::default();
    para.text = "hello".to_string();
    para.line_segs.push(LineSeg::default());
    assert!(DocumentCore::needs_reflow_broadly(&para));
}

#[test]
fn needs_reflow_broadly_skips_healthy_paragraph() {
    let mut para = Paragraph::default();
    para.text = "hello".to_string();
    let mut seg = LineSeg::default();
    seg.line_height = 1000;
    para.line_segs.push(seg);
    assert!(!DocumentCore::needs_reflow_broadly(&para));
}

#[test]
fn needs_reflow_broadly_skips_empty_paragraph() {
    let para = Paragraph::default();
    assert!(!DocumentCore::needs_reflow_broadly(&para));
}

#[test]
fn validate_detects_textrun_reflow_pattern() {
    let mut doc = Document::default();
    let mut section = Section::default();
    let mut para = Paragraph::default();
    para.text = "이것은 충분히 길어서 한 줄로 표시하기 어려운 한국어 문장입니다. 한컴은 textRun으로 reflow하지만 rhwp는 그대로 그립니다.".to_string();
    let mut seg = LineSeg::default();
    seg.line_height = 1000;
    para.line_segs.push(seg);
    section.paragraphs.push(para);
    doc.sections.push(section);

    let report = DocumentCore::validate_linesegs(&doc, true);
    assert_eq!(report.len(), 1);
    assert_eq!(report.warnings[0].kind, WarningKind::LinesegTextRunReflow);
}

#[test]
fn validate_skips_textrun_reflow_for_short_text() {
    let mut doc = Document::default();
    let mut section = Section::default();
    let mut para = Paragraph::default();
    para.text = "짧은 문장입니다.".to_string();
    let mut seg = LineSeg::default();
    seg.line_height = 1000;
    para.line_segs.push(seg);
    section.paragraphs.push(para);
    doc.sections.push(section);

    let report = DocumentCore::validate_linesegs(&doc, true);
    assert!(report.is_empty(), "a short sentence is not reported");
}

#[test]
fn validate_skips_textrun_reflow_when_has_newline() {
    let mut doc = Document::default();
    let mut section = Section::default();
    let mut para = Paragraph::default();
    para.text = "충분히 긴 텍스트이지만 줄바꿈이 있습니다.\n그래서 R3은 해당하지 않아야 합니다.".to_string();
    let mut seg = LineSeg::default();
    seg.line_height = 1000;
    para.line_segs.push(seg);
    section.paragraphs.push(para);
    doc.sections.push(section);

    let report = DocumentCore::validate_linesegs(&doc, true);
    assert!(report.is_empty(), "a paragraph with \\n is not reported");
}

#[test]
fn needs_reflow_broadly_covers_textrun_reflow() {
    let mut para = Paragraph::default();
    para.text = "이것은 충분히 길어서 한 줄로 표시하기 어려운 한국어 문장입니다. 한컴은 textRun으로 reflow하지만 rhwp는 그대로 그립니다.".to_string();
    let mut seg = LineSeg::default();
    seg.line_height = 1000;
    para.line_segs.push(seg);
    assert!(DocumentCore::needs_reflow_broadly(&para));
}

#[test]
fn validate_detects_empty_linesegs() {
    let mut doc = Document::default();
    let mut section = Section::default();
    let mut para = Paragraph::default();
    para.text = "hello".to_string();
    section.paragraphs.push(para);
    doc.sections.push(section);

    let report = DocumentCore::validate_linesegs(&doc, true);
    assert_eq!(report.len(), 1);
    assert_eq!(report.warnings[0].kind, WarningKind::LinesegArrayEmpty);
    assert_eq!(report.warnings[0].section_idx, 0);
    assert_eq!(report.warnings[0].paragraph_idx, 0);
    assert!(report.warnings[0].cell_path.is_none());
}

#[test]
fn validate_detects_uncomputed_lineseg() {
    let mut doc = Document::default();
    let mut section = Section::default();
    let mut para = Paragraph::default();
    para.text = "hello".to_string();
    para.line_segs.push(LineSeg::default());
    section.paragraphs.push(para);
    doc.sections.push(section);

    let report = DocumentCore::validate_linesegs(&doc, true);
    assert_eq!(report.len(), 1);
    assert_eq!(report.warnings[0].kind, WarningKind::LinesegUncomputed);
}

#[test]
fn validate_skips_healthy_lineseg() {
    let mut doc = Document::default();
    let mut section = Section::default();
    let mut para = Paragraph::default();
    para.text = "hello".to_string();
    let mut seg = LineSeg::default();
    seg.line_height = 1000;
    para.line_segs.push(seg);
    section.paragraphs.push(para);
    doc.sections.push(section);

    let report = DocumentCore::validate_linesegs(&doc, true);
    assert!(report.is_empty(), "healthy paragraph should not warn: {:?}", report.warnings);
}

#[test]
fn validate_skips_empty_paragraph() {
    let mut doc = Document::default();
    let mut section = Section::default();
    section.paragraphs.push(Paragraph::default());
    doc.sections.push(section);

    let report = DocumentCore::validate_linesegs(&doc, true);
    assert!(report.is_empty());
}

#[test]
fn validate_recurses_into_table_cells() {
    let mut doc = Document::default();
    let mut section = Section::default();
    let mut outer_para = Paragraph::default();

    let mut cell_para = Paragraph::default();
    cell_para.text = "in-cell".to_string();

    let mut cell = Cell::default();
    cell.row = 0;
    cell.col = 0;
    cell.paragraphs.push(cell_para);

    let mut table = Table::default();
    table.row_count = 1;
    table.col_count = 1;
    table.cells.push(cell);

    outer_para.controls.push(Control::Table(Box::new(table)));
    section.paragraphs.push(outer_para);
    doc.sections.push(section);

    let report = DocumentCore::validate_linesegs(&doc, true);
    assert_eq!(report.len(), 1);
    assert_eq!(report.warnings[0].kind, WarningKind::LinesegArrayEmpty);
    let cp = report.warnings[0].cell_path.expect("cell_path should be set");
    assert_eq!(cp.table_ctrl_idx, 0);
    assert_eq!(cp.row, 0);
    assert_eq!(cp.col, 0);
    assert_eq!(cp.inner_para_idx, 0);
}

#[test]
fn validate_records_multiple_warnings() {
    let mut doc = Document::default();
    let mut section = Section::default();

    let mut p1 = Paragraph::default();
    p1.text = "a".to_string();

    let mut p2 = Paragraph::default();
    p2.text = "b".to_string();
    p2.line_segs.push(LineSeg::default());

    section.paragraphs.push(p1);
    section.paragraphs.push(p2);
    doc.sections.push(section);

    let report = DocumentCore::validate_linesegs(&doc, true);
    assert_eq!(report.len(), 2);
    let summary = report.summary();
    assert_eq!(summary.get("lineseg 배열이 비어있음").copied(), Some(1));
    assert_eq!(summary.get("lineseg 가 미계산 상태 (line_height=0)").copied(), Some(1));
}

#[test]
fn validate_without_table_cells_reports_only_section_paragraphs() {
    let mut cell = Cell::new_empty(2, 3, 100, 100, 0);
    cell.paragraphs[0].text = "x".to_string();
    let mut host = Paragraph::default();
    host.text = "y".to_string();
    host.line_segs.push(LineSeg::default());
    host.controls.push(Control::Table(Box::new(Table { cells: vec![cell], ..Default::default() })));
    let mut doc = Document::default();
    doc.sections.push(Section { paragraphs: vec![Paragraph::default(), host], raw_stream: None });

    let all = DocumentCore::validate_linesegs(&doc, true);
    assert_eq!(all.len(), 2);
    assert_eq!(all.warnings[0].kind, WarningKind::LinesegUncomputed);
    assert_eq!(all.warnings[0].paragraph_idx, 1);
    assert_eq!(all.warnings[1].kind, WarningKind::LinesegArrayEmpty);
    let cp = all.warnings[1].cell_path.unwrap();
    assert_eq!((cp.table_ctrl_idx, cp.row, cp.col, cp.inner_para_idx), (0, 3, 2, 0));

    let own = DocumentCore::validate_linesegs(&doc, false);
    assert_eq!(own.len(), 1);
    assert!(own.warnings[0].cell_path.is_none());
    let summary = own.summary();
    assert_eq!(summary.get("lineseg 배열이 비어있음"), None);
    assert_eq!(summary.get("something else"), None);
    assert_eq!(
        summary.get(WarningKind::LinesegUncomputed.description()).copied(),
        Some(1)
    );
}

#[test]
fn text_of_exactly_forty_characters_is_not_a_text_run() {
    let mut para = Paragraph::default();
    para.text = "a".repeat(40);
    let mut seg = LineSeg::default();
    seg.line_height = 1000;
    para.line_segs.push(seg);
    assert!(!DocumentCore::needs_reflow_broadly(&para));
    para.text.push('b');
    assert!(DocumentCore::needs_reflow_broadly(&para));
    para.line_segs.push(seg);
    assert!(!DocumentCore::needs_reflow_broadly(&para));
}

#[test]
fn validate_reports_a_section_paragraph_exactly_when_it_needs_reflow() {
    let mut healthy = Paragraph::default();
    healthy.text = "ok".to_string();
    let mut seg = LineSeg::default();
    seg.line_height = 500;
    healthy.line_segs.push(seg);
    let mut empty_segs = Paragraph::default();
    empty_segs.text = "x".to_string();
    let mut long_run = Paragraph::default();
    long_run.text = "b".repeat(41);
    long_run.line_segs.push(seg);
    let paras = vec![healthy, Paragraph::default(), empty_segs, long_run];
    let mut doc = Document::default();
    doc.sections.push(Section { paragraphs: paras, raw_stream: None });

    let report = DocumentCore::validate_linesegs(&doc, true);
    for (pi, para) in doc.sections[0].paragraphs.iter().enumerate() {
        let reported = report
            .warnings
            .iter()
            .any(|w| w.section_idx == 0 && w.paragraph_idx == pi && w.cell_path.is_none());
        assert_eq!(reported, DocumentCore::needs_reflow_broadly(para), "paragraph {pi}");
    }
    assert_eq!(report.len(), 2);
}

#[test]
fn validation_warnings_json_lists_counts_by_description_and_each_warning() {
    let mut cell = Cell::new_empty(1, 2, 100, 100, 0);
    cell.paragraphs[0].text = "c".to_string();
    let mut host = Paragraph::default();
    host.text = "h".to_string();
    host.line_segs.push(LineSeg::default());
    host.controls.push(Control::ColumnDef(Default::default()));
    host.controls.push(Control::Table(Box::new(Table { cells: vec![cell], ..Default::default() })));
    let mut other = Paragraph::default();
    other.text = "o".to_string();
    let mut doc = Document::default();
    doc.sections.push(Section { paragraphs: vec![host, other], raw_stream: None });

    let report = DocumentCore::validate_linesegs(&doc, true);
    assert_eq!(
        validation_warnings_json(&report),
        "{\"count\":3,\"summary\":{\"lineseg 가 미계산 상태 (line_height=0)\":1,\"lineseg 배열이 비어있음\":2},\"warnings\":[\
         {\"section\":0,\"paragraph\":0,\"kind\":\"LinesegUncomputed\",\"cell\":null},\
         {\"section\":0,\"paragraph\":0,\"kind\":\"LinesegArrayEmpty\",\"cell\":{\"ctrl\":1,\"row\":2,\"col\":1,\"innerPara\":0}},\
         {\"section\":0,\"paragraph\":1,\"kind\":\"LinesegArrayEmpty\",\"cell\":null}]}"
    );
    let empty = DocumentCore::validate_linesegs(&Document::default(), true);
    assert_eq!(validation_warnings_json(&empty), "{\"count\":0,\"summary\":{},\"warnings\":[]}");
}
