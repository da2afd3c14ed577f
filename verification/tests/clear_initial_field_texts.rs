use rhwp::document_core::DocumentCore;
use rhwp::model::control::{Control, Field, FieldType};
use rhwp::model::document::{Document, Section};
use rhwp::model::paragraph::{FieldRange, Paragraph};
use rhwp::model::table::{Cell, Table};

fn click_here_field(ctrl_id: u32, guide: &str) -> Control {
    Control::Field(Field {
        field_type: FieldType::ClickHere,
        command: format!("Direction:wstring:{}:{}", guide.chars().count(), guide),
        properties: 0,
        extra_properties: 0,
        field_id: ctrl_id,
        ctrl_id,
        ctrl_data_name: None,
        memo_index: 0,
    })
}

#[test]
fn clear_initial_field_texts_survives_nested_same_range_fields() {
    let mut doc = Document::default();
    let mut section = Section::default();
    let mut para = Paragraph::default();
    para.text = "X".to_string();
    para.controls.push(click_here_field(1, "X"));
    para.controls.push(click_here_field(2, "X"));
    para.field_ranges.push(FieldRange { start_char_idx: 0, end_char_idx: 1, control_idx: 0 });
    para.field_ranges.push(FieldRange { start_char_idx: 0, end_char_idx: 1, control_idx: 1 });
    section.paragraphs.push(para);
    doc.sections.push(section);

    DocumentCore::clear_initial_field_texts(&mut doc);

    let para = &doc.sections[0].paragraphs[0];
    assert_eq!(para.text, "", "both guide texts must be gone, leaving an empty string");
    for fr in &para.field_ranges {
        assert_eq!(fr.start_char_idx, 0);
        assert_eq!(fr.end_char_idx, 0, "must be normalized to an empty field (start==end)");
    }
}

#[test]
fn clear_initial_field_texts_handles_disjoint_ranges() {
    let mut doc = Document::default();
    let mut section = Section::default();
    let mut para = Paragraph::default();
    para.text = "AB".to_string();
    para.controls.push(click_here_field(1, "A"));
    para.controls.push(click_here_field(2, "B"));
    para.field_ranges.push(FieldRange { start_char_idx: 0, end_char_idx: 1, control_idx: 0 });
    para.field_ranges.push(FieldRange { start_char_idx: 1, end_char_idx: 2, control_idx: 1 });
    section.paragraphs.push(para);
    doc.sections.push(section);

    DocumentCore::clear_initial_field_texts(&mut doc);

    let para = &doc.sections[0].paragraphs[0];
    assert_eq!(para.text, "");
    assert_eq!(para.field_ranges[0].start_char_idx, 0);
    assert_eq!(para.field_ranges[0].end_char_idx, 0);
    assert_eq!(para.field_ranges[1].start_char_idx, 0);
    assert_eq!(para.field_ranges[1].end_char_idx, 0);
}

#[test]
fn clear_initial_field_texts_normalizes_nested_unequal_range_sharing_endpoint() {
    let mut doc = Document::default();
    let mut section = Section::default();
    let mut para = Paragraph::default();
    para.text = "AB".to_string();
    para.controls.push(click_here_field(1, "AB"));
    para.controls.push(click_here_field(2, "B"));
    para.field_ranges.push(FieldRange { start_char_idx: 1, end_char_idx: 2, control_idx: 1 });
    para.field_ranges.push(FieldRange { start_char_idx: 0, end_char_idx: 2, control_idx: 0 });
    section.paragraphs.push(para);
    doc.sections.push(section);

    DocumentCore::clear_initial_field_texts(&mut doc);

    let para = &doc.sections[0].paragraphs[0];
    for fr in &para.field_ranges {
        assert!(
            fr.start_char_idx <= fr.end_char_idx,
            "field_range must never be inverted: {:?}", fr
        );
    }
    assert_eq!(para.text, "", "both guide texts covered the whole paragraph");
    assert_eq!(para.field_ranges[0].start_char_idx, 0);
    assert_eq!(para.field_ranges[0].end_char_idx, 0);
    assert_eq!(para.field_ranges[1].start_char_idx, 0);
    assert_eq!(para.field_ranges[1].end_char_idx, 0);
}

#[test]
fn clear_initial_field_texts_normalizes_triple_nested_fields_sharing_start() {
    let mut doc = Document::default();
    let mut section = Section::default();
    let mut para = Paragraph::default();
    para.text = "ABC".to_string();
    para.controls.push(click_here_field(1, "ABC"));
    para.controls.push(click_here_field(2, "AB"));
    para.controls.push(click_here_field(3, "A"));
    para.field_ranges.push(FieldRange { start_char_idx: 0, end_char_idx: 1, control_idx: 2 });
    para.field_ranges.push(FieldRange { start_char_idx: 0, end_char_idx: 2, control_idx: 1 });
    para.field_ranges.push(FieldRange { start_char_idx: 0, end_char_idx: 3, control_idx: 0 });
    section.paragraphs.push(para);
    doc.sections.push(section);

    DocumentCore::clear_initial_field_texts(&mut doc);

    let para = &doc.sections[0].paragraphs[0];
    assert_eq!(para.text, "", "all three guide texts covered the whole paragraph");
    for fr in &para.field_ranges {
        assert!(
            fr.start_char_idx <= fr.end_char_idx,
            "field_range must never be inverted: {:?}", fr
        );
        assert_eq!((fr.start_char_idx, fr.end_char_idx), (0, 0));
    }
}

#[test]
fn clearing_moves_later_ranges_and_keeps_filled_fields() {
    let mut para = Paragraph::default();
    // "Name: 이름 / Age: 42" with a guide-text field over "이름" and a
    // filled-in field over "42".
    para.text = "Name: 이름 / Age: 42".to_string();
    para.controls.push(click_here_field(1, "이름"));
    let mut filled = click_here_field(2, "나이");
    if let Control::Field(f) = &mut filled {
        f.properties = 0x8000;
    }
    para.controls.push(filled);
    para.field_ranges.push(FieldRange { start_char_idx: 6, end_char_idx: 8, control_idx: 0 });
    para.field_ranges.push(FieldRange { start_char_idx: 16, end_char_idx: 18, control_idx: 1 });
    let mut doc = Document::default();
    doc.sections.push(Section { paragraphs: vec![para], raw_stream: Some(vec![9]) });

    DocumentCore::clear_initial_field_texts(&mut doc);

    let para = &doc.sections[0].paragraphs[0];
    assert_eq!(para.text, "Name:  / Age: 42");
    assert_eq!((para.field_ranges[0].start_char_idx, para.field_ranges[0].end_char_idx), (6, 6));
    assert_eq!((para.field_ranges[1].start_char_idx, para.field_ranges[1].end_char_idx), (14, 16));
    assert_eq!(doc.sections[0].raw_stream, Some(vec![9]));
    assert_eq!(para.char_offsets.len(), para.text.chars().count());
}

#[test]
fn clearing_leaves_fields_whose_text_is_not_the_guide() {
    let mut para = Paragraph::default();
    para.text = "hello".to_string();
    para.controls.push(click_here_field(1, "guide"));
    para.field_ranges.push(FieldRange { start_char_idx: 0, end_char_idx: 5, control_idx: 0 });
    para.char_offsets = vec![0, 1, 2, 3, 4];
    let mut doc = Document::default();
    doc.sections.push(Section { paragraphs: vec![para], raw_stream: None });

    DocumentCore::clear_initial_field_texts(&mut doc);

    let para = &doc.sections[0].paragraphs[0];
    assert_eq!(para.text, "hello");
    assert_eq!((para.field_ranges[0].start_char_idx, para.field_ranges[0].end_char_idx), (0, 5));
    assert_eq!(para.char_offsets, vec![0, 1, 2, 3, 4]);
}

#[test]
fn clearing_reaches_paragraphs_inside_table_cells() {
    let mut inner = Paragraph::default();
    inner.text = "입력".to_string();
    inner.controls.push(click_here_field(1, "입력"));
    inner.field_ranges.push(FieldRange { start_char_idx: 0, end_char_idx: 2, control_idx: 0 });
    let mut cell = Cell::new_empty(0, 0, 100, 100, 0);
    cell.paragraphs[0] = inner;
    let mut host = Paragraph::default();
    host.controls.push(Control::Table(Box::new(Table { cells: vec![cell], ..Default::default() })));
    let mut doc = Document::default();
    doc.sections.push(Section { paragraphs: vec![host], raw_stream: None });

    DocumentCore::clear_initial_field_texts(&mut doc);

    let Control::Table(t) = &doc.sections[0].paragraphs[0].controls[0] else {
        panic!("expected table control");
    };
    let inner = &t.cells[0].paragraphs[0];
    assert_eq!(inner.text, "");
    assert_eq!((inner.field_ranges[0].start_char_idx, inner.field_ranges[0].end_char_idx), (0, 0));
}
