use rhwp::document_core::queries::field_query::field_removal_support::rebuild_char_offsets;
use rhwp::document_core::queries::field_query::FieldLocation;
use rhwp::document_core::DocumentCore;
use rhwp::model::control::{Control, Field, FieldType};
use rhwp::model::document::{Document, Section};
use rhwp::model::paragraph::{FieldRange, Paragraph};

fn make_field_control(ctrl_id: u32) -> Control {
    Control::Field(Field {
        field_type: FieldType::ClickHere,
        command: String::new(),
        properties: 0,
        extra_properties: 0,
        field_id: ctrl_id,
        ctrl_id,
        ctrl_data_name: None,
        memo_index: 0,
    })
}

fn core_with_section(section: Section) -> DocumentCore {
    let mut doc = Document::default();
    doc.sections.push(section);
    let mut core = DocumentCore::new_empty();
    core.set_document(doc);
    core
}

#[test]
fn set_field_text_shrinking_inner_field_fixes_outer_field_end() {
    let mut core = DocumentCore::new_empty();
    core.document.sections.push(Section::default());
    let mut para = Paragraph::default();
    para.text = "ABCD".to_string();
    para.controls.push(make_field_control(1));
    para.controls.push(make_field_control(2));
    para.field_ranges.push(FieldRange { start_char_idx: 1, end_char_idx: 3, control_idx: 1 });
    para.field_ranges.push(FieldRange { start_char_idx: 0, end_char_idx: 4, control_idx: 0 });
    core.document.sections[0].paragraphs.push(para);

    let location = FieldLocation { section_index: 0, para_index: 0, nested_path: vec![] };

    core.set_field_text_at(&location, 0, "").unwrap();

    let text_len = {
        let para = &core.document.sections[0].paragraphs[0];
        assert_eq!(para.text, "AD");
        para.text.chars().count()
    };
    let outer = &core.document.sections[0].paragraphs[0].field_ranges[1];
    assert_eq!(outer.start_char_idx, 0);
    assert!(
        outer.end_char_idx <= text_len,
        "outer end_char_idx ({}) must not pass the text length ({})",
        outer.end_char_idx,
        text_len
    );
    assert_eq!(outer.end_char_idx, 2, "outer must shrink to [0,2)");

    core.set_field_text_at(&location, 1, "Z").unwrap();
    assert_eq!(core.document.sections[0].paragraphs[0].text, "Z");
}

#[test]
fn set_field_text_does_not_grow_adjacent_field_ending_at_empty_target_start() {
    let mut core = DocumentCore::new_empty();
    core.document.sections.push(Section::default());
    let mut para = Paragraph::default();
    para.text = "ABCD".to_string();
    para.controls.push(make_field_control(1));
    para.controls.push(make_field_control(2));
    para.field_ranges.push(FieldRange { start_char_idx: 0, end_char_idx: 4, control_idx: 0 });
    para.field_ranges.push(FieldRange { start_char_idx: 4, end_char_idx: 4, control_idx: 1 });
    core.document.sections[0].paragraphs.push(para);

    let location = FieldLocation { section_index: 0, para_index: 0, nested_path: vec![] };

    core.set_field_text_at(&location, 1, "X").unwrap();

    let para = &core.document.sections[0].paragraphs[0];
    assert_eq!(para.text, "ABCDX");
    let preceding = &para.field_ranges[0];
    assert_eq!(
        (preceding.start_char_idx, preceding.end_char_idx),
        (0, 4),
        "preceding closed field [0,4) must stay unchanged, not grow to include the new text"
    );
}

#[test]
fn set_field_text_growing_child_at_parent_start_keeps_parent_start_fixed() {
    let mut core = DocumentCore::new_empty();
    core.document.sections.push(Section::default());
    let mut para = Paragraph::default();
    para.text = "AB".to_string();
    para.controls.push(make_field_control(1));
    para.controls.push(make_field_control(2));
    para.field_ranges.push(FieldRange { start_char_idx: 0, end_char_idx: 0, control_idx: 1 });
    para.field_ranges.push(FieldRange { start_char_idx: 0, end_char_idx: 2, control_idx: 0 });
    core.document.sections[0].paragraphs.push(para);

    let location = FieldLocation { section_index: 0, para_index: 0, nested_path: vec![] };

    core.set_field_text_at(&location, 0, "X").unwrap();

    let para = &core.document.sections[0].paragraphs[0];
    assert_eq!(para.text, "XAB");
    let parent = &para.field_ranges[1];
    assert_eq!(
        (parent.start_char_idx, parent.end_char_idx),
        (0, 3),
        "parent must stay anchored at 0 and only its end should grow, not (1,3)"
    );
}

#[test]
fn set_field_text_shrinking_innermost_of_three_nested_fields_adjusts_both_ancestors() {
    let mut core = DocumentCore::new_empty();
    core.document.sections.push(Section::default());
    let mut para = Paragraph::default();
    para.text = "ABC".to_string();
    para.controls.push(make_field_control(1));
    para.controls.push(make_field_control(2));
    para.controls.push(make_field_control(3));
    para.field_ranges.push(FieldRange { start_char_idx: 0, end_char_idx: 1, control_idx: 2 });
    para.field_ranges.push(FieldRange { start_char_idx: 0, end_char_idx: 2, control_idx: 1 });
    para.field_ranges.push(FieldRange { start_char_idx: 0, end_char_idx: 3, control_idx: 0 });
    core.document.sections[0].paragraphs.push(para);

    let location = FieldLocation { section_index: 0, para_index: 0, nested_path: vec![] };

    core.set_field_text_at(&location, 0, "").unwrap();

    let para = &core.document.sections[0].paragraphs[0];
    assert_eq!(para.text, "BC");
    assert_eq!(
        (para.field_ranges[0].start_char_idx, para.field_ranges[0].end_char_idx),
        (0, 0),
        "inner collapses to empty"
    );
    assert_eq!(
        (para.field_ranges[1].start_char_idx, para.field_ranges[1].end_char_idx),
        (0, 1),
        "middle must stay anchored at 0, only its end shrinks"
    );
    assert_eq!(
        (para.field_ranges[2].start_char_idx, para.field_ranges[2].end_char_idx),
        (0, 2),
        "outer must stay anchored at 0, only its end shrinks"
    );
}

#[test]
fn set_field_text_at_rejects_out_of_bounds_field_range_instead_of_panicking() {
    let mut core = DocumentCore::new_empty();
    core.document.sections.push(Section::default());

    let mut para = Paragraph::default();
    para.text = "AB".to_string();
    para.controls.push(make_field_control(1));
    para.field_ranges.push(FieldRange { start_char_idx: 0, end_char_idx: 99, control_idx: 0 });
    core.document.sections[0].paragraphs.push(para);

    let location = FieldLocation { section_index: 0, para_index: 0, nested_path: vec![] };
    let result = core.set_field_text_at(&location, 0, "x");

    assert!(
        result.is_err(),
        "an out-of-bounds field_range must return an error, not panic"
    );
}

#[test]
fn set_field_text_at_preserves_raw_stream_when_validation_fails() {
    let mut para = Paragraph::default();
    para.text = "AB".to_string();
    para.controls.push(make_field_control(1));
    para.field_ranges.push(FieldRange { start_char_idx: 0, end_char_idx: 99, control_idx: 0 });
    let mut core = core_with_section(Section {
        paragraphs: vec![para],
        raw_stream: Some(vec![0xAA, 0xBB]),
        ..Default::default()
    });

    let location = FieldLocation { section_index: 0, para_index: 0, nested_path: vec![] };
    let result = core.set_field_text_at(&location, 0, "x");

    assert!(result.is_err(), "the out-of-bounds field_range must still be rejected");
    assert!(
        core.document.sections[0].raw_stream.is_some(),
        "a failed, no-op call must not clear raw_stream"
    );
}

#[test]
fn rebuild_preserves_mid_text_field_begin_gap() {
    let mut para = Paragraph {
        text: "ABCXY".into(),
        controls: vec![
            Control::ColumnDef(Default::default()),
            make_field_control(100),
        ],
        field_ranges: vec![FieldRange {
            start_char_idx: 3,
            end_char_idx: 5,
            control_idx: 1,
        }],
        char_offsets: vec![8, 9, 10, 19, 20],
        ..Default::default()
    };

    rebuild_char_offsets(&mut para);

    assert_eq!(para.char_offsets, vec![8, 9, 10, 19, 20]);
}

#[test]
fn rebuild_field_at_start_no_double_count() {
    let mut para = Paragraph {
        text: "XY".into(),
        controls: vec![make_field_control(100)],
        field_ranges: vec![FieldRange {
            start_char_idx: 0,
            end_char_idx: 2,
            control_idx: 0,
        }],
        char_offsets: vec![8, 9],
        ..Default::default()
    };

    rebuild_char_offsets(&mut para);

    assert_eq!(para.char_offsets, vec![8, 9]);
}

#[test]
fn rebuild_after_set_field_creates_serializable_gap() {
    let mut para = Paragraph {
        text: "라벨: NEW".into(),
        controls: vec![
            Control::ColumnDef(Default::default()),
            make_field_control(200),
        ],
        field_ranges: vec![FieldRange {
            start_char_idx: 4,
            end_char_idx: 7,
            control_idx: 1,
        }],
        char_offsets: vec![8, 9, 10, 11, 20, 21, 22],
        ..Default::default()
    };

    rebuild_char_offsets(&mut para);

    assert_eq!(para.char_offsets[0], 8);
    assert_eq!(para.char_offsets[3], 11);
    assert_eq!(para.char_offsets[4], 20);
    let gap = para.char_offsets[4] as i64 - (para.char_offsets[3] as i64 + 1);
    assert_eq!(gap, 8);
}

#[test]
fn rebuild_counts_tabs_surrogates_and_field_ends() {
    let mut para = Paragraph {
        text: "a\tb😀c".into(),
        controls: vec![Control::ColumnDef(Default::default()), make_field_control(1)],
        field_ranges: vec![FieldRange { start_char_idx: 1, end_char_idx: 3, control_idx: 1 }],
        char_offsets: vec![8],
        ..Default::default()
    };
    rebuild_char_offsets(&mut para);
    // One control stands before the text (first stored offset 8). 'a' at 8;
    // the field begins before '\t' (+8): 17; '\t' is 8 units: 'b' at 25;
    // the field ends before the emoji (+8): 34; the emoji is 2 units: 'c' at 36.
    assert_eq!(para.char_offsets, vec![8, 17, 25, 34, 36]);
}

#[test]
fn rebuild_of_empty_text_clears_offsets() {
    let mut para = Paragraph { char_offsets: vec![8, 9], ..Default::default() };
    rebuild_char_offsets(&mut para);
    assert!(para.char_offsets.is_empty());
}

#[test]
fn set_field_text_keeps_ranges_inside_the_text_for_siblings_and_parents() {
    let mut core = DocumentCore::new_empty();
    core.document.sections.push(Section::default());
    let mut para = Paragraph::default();
    // parent [0,6) holds child [1,3) and a later sibling [4,6).
    para.text = "ABCDEF".to_string();
    para.controls.push(make_field_control(1));
    para.controls.push(make_field_control(2));
    para.controls.push(make_field_control(3));
    para.field_ranges.push(FieldRange { start_char_idx: 1, end_char_idx: 3, control_idx: 1 });
    para.field_ranges.push(FieldRange { start_char_idx: 4, end_char_idx: 6, control_idx: 2 });
    para.field_ranges.push(FieldRange { start_char_idx: 0, end_char_idx: 6, control_idx: 0 });
    core.document.sections[0].paragraphs.push(para);
    let location = FieldLocation { section_index: 0, para_index: 0, nested_path: vec![] };

    core.set_field_text_at(&location, 0, "wxyz").unwrap();

    let para = &core.document.sections[0].paragraphs[0];
    assert_eq!(para.text, "AwxyzDEF");
    assert_eq!((para.field_ranges[0].start_char_idx, para.field_ranges[0].end_char_idx), (1, 5));
    assert_eq!((para.field_ranges[1].start_char_idx, para.field_ranges[1].end_char_idx), (6, 8));
    assert_eq!((para.field_ranges[2].start_char_idx, para.field_ranges[2].end_char_idx), (0, 8));
    let len = para.text.chars().count();
    for fr in &para.field_ranges {
        assert!(fr.start_char_idx <= fr.end_char_idx && fr.end_char_idx <= len);
    }
}

#[test]
fn set_field_text_at_rejects_missing_location_and_index() {
    let mut core = DocumentCore::new_empty();
    core.document.sections.push(Section::default());
    let mut para = Paragraph::default();
    para.text = "AB".to_string();
    para.controls.push(make_field_control(1));
    para.field_ranges.push(FieldRange { start_char_idx: 0, end_char_idx: 2, control_idx: 0 });
    core.document.sections[0].paragraphs.push(para);

    let no_para = FieldLocation { section_index: 0, para_index: 3, nested_path: vec![] };
    assert!(core.set_field_text_at(&no_para, 0, "x").is_err());
    let no_section = FieldLocation { section_index: 2, para_index: 0, nested_path: vec![] };
    assert!(core.set_field_text_at(&no_section, 0, "x").is_err());
    let here = FieldLocation { section_index: 0, para_index: 0, nested_path: vec![] };
    assert!(core.set_field_text_at(&here, 1, "x").is_err());
    let inverted = {
        core.document.sections[0].paragraphs[0].field_ranges[0] =
            FieldRange { start_char_idx: 2, end_char_idx: 1, control_idx: 0 };
        core.set_field_text_at(&here, 0, "x")
    };
    assert!(inverted.is_err());
    assert_eq!(core.document.sections[0].paragraphs[0].text, "AB");
}

#[test]
fn set_field_text_rebuilds_offsets_of_the_edited_paragraph() {
    let mut core = DocumentCore::new_empty();
    core.document.sections.push(Section { raw_stream: Some(vec![1, 2, 3]), ..Default::default() });
    let mut para = Paragraph::default();
    para.text = "AB".to_string();
    para.controls.push(make_field_control(1));
    para.field_ranges.push(FieldRange { start_char_idx: 1, end_char_idx: 2, control_idx: 0 });
    para.char_offsets = vec![0, 9];
    core.document.sections[0].paragraphs.push(para);
    let here = FieldLocation { section_index: 0, para_index: 0, nested_path: vec![] };

    core.set_field_text_at(&here, 0, "xyz").unwrap();

    let para = &core.document.sections[0].paragraphs[0];
    assert_eq!(para.text, "Axyz");
    // No control before the text; the field begins before 'x' (+8).
    assert_eq!(para.char_offsets, vec![0, 9, 10, 11]);
    assert!(core.document.sections[0].raw_stream.is_none());
}
