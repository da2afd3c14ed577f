use rhwp::document_core::queries::field_query::lookup::find_field_by_id;
use rhwp::document_core::queries::field_query::location_json::field_location_json;
use rhwp::document_core::queries::field_query::virtual_cell_id::resolve_virtual_field_id_collisions;
use rhwp::document_core::queries::field_query::{FieldInfo, FieldLocation, NestedEntry};
use rhwp::document_core::DocumentCore;
use rhwp::model::control::{Control, Field, FieldType};
use rhwp::model::document::{Document, Section};
use rhwp::model::paragraph::{FieldRange, Paragraph};
use rhwp::model::table::{Cell, Table};
use std::collections::hash_map::DefaultHasher;
use std::hash::{Hash, Hasher};

fn core_with_section(section: Section) -> DocumentCore {
    let mut doc = Document::default();
    doc.sections.push(section);
    let mut core = DocumentCore::new_empty();
    core.set_document(doc);
    core
}

fn table_with_named_cell(field_name: &str, value: &str) -> Control {
    let mut cell = Cell::new_empty(0, 0, 1000, 1000, 0);
    cell.field_name = Some(field_name.to_string());
    cell.paragraphs[0].text = value.to_string();
    Control::Table(Box::new(Table {
        cells: vec![cell],
        ..Default::default()
    }))
}

fn virtual_field(id: u32, name: &str) -> FieldInfo {
    FieldInfo {
        field: Field {
            field_type: FieldType::ClickHere,
            command: String::new(),
            properties: 0,
            extra_properties: 0,
            field_id: id,
            ctrl_id: 0,
            ctrl_data_name: Some(name.to_string()),
            memo_index: 0,
        },
        location: FieldLocation { section_index: 0, para_index: 0, nested_path: vec![] },
        value: String::new(),
        field_range_index: 0,
        is_virtual_cell_field: true,
    }
}

fn real_field(id: u32) -> FieldInfo {
    FieldInfo {
        field: Field {
            field_type: FieldType::ClickHere,
            command: String::new(),
            properties: 0,
            extra_properties: 0,
            field_id: id,
            ctrl_id: 0,
            ctrl_data_name: None,
            memo_index: 0,
        },
        location: FieldLocation { section_index: 0, para_index: 0, nested_path: vec![] },
        value: String::new(),
        field_range_index: 0,
        is_virtual_cell_field: false,
    }
}

fn named_click_here(id: u32, name: &str, guide: &str) -> Control {
    Control::Field(Field {
        field_type: FieldType::ClickHere,
        command: format!("Direction:wstring:{}:{} HelpState:wstring:0:", guide.chars().count(), guide),
        properties: 0,
        extra_properties: 0,
        field_id: id,
        ctrl_id: 0x25636c6b,
        ctrl_data_name: Some(name.to_string()),
        memo_index: 0,
    })
}

/// A paragraph "이름: 홍길동" whose click-here field "name" (ID 7) spans
/// "홍길동".
fn form_paragraph() -> Paragraph {
    let mut para = Paragraph::default();
    para.text = "이름: 홍길동".to_string();
    para.controls.push(named_click_here(7, "name", "이름을 입력"));
    para.field_ranges.push(FieldRange { start_char_idx: 4, end_char_idx: 7, control_idx: 0 });
    para
}

#[test]
fn virtual_cell_fields_in_different_paragraphs_get_distinct_ids() {
    let mut core = DocumentCore::new_empty();
    core.document.sections.push(Section::default());

    let mut para_a = Paragraph::default();
    para_a.controls.push(table_with_named_cell("first", "value-a"));
    core.document.sections[0].paragraphs.push(para_a);

    let mut para_b = Paragraph::default();
    para_b.controls.push(table_with_named_cell("second", "value-b"));
    core.document.sections[0].paragraphs.push(para_b);

    let fields = core.collect_all_fields();
    assert_eq!(fields.len(), 2);
    assert_ne!(
        fields[0].field.field_id, fields[1].field.field_id,
        "two unrelated virtual cell fields must not share an ID"
    );

    let by_name = core.get_field_value_by_name("second").unwrap();
    assert!(by_name.contains("value-b"));

    let second_id = fields.iter().find(|fi| fi.field.field_name() == Some("second"))
        .unwrap().field.field_id;
    let by_id = core.get_field_value_by_id(second_id).unwrap();
    assert!(
        by_id.contains("value-b"),
        "ID-based lookup for the field found by name must return that same field's value, got: {by_id}"
    );
}

#[test]
fn get_field_value_by_id_errors_on_a_genuine_duplicate_instead_of_guessing() {
    let fields = vec![
        FieldInfo {
            field: Field {
                field_type: FieldType::ClickHere,
                command: String::new(),
                properties: 0,
                extra_properties: 0,
                field_id: 42,
                ctrl_id: 0,
                ctrl_data_name: Some("a".to_string()),
                memo_index: 0,
            },
            location: FieldLocation { section_index: 0, para_index: 0, nested_path: vec![] },
            value: "value-a".to_string(),
            field_range_index: 0,
            is_virtual_cell_field: true,
        },
        FieldInfo {
            field: Field {
                field_type: FieldType::ClickHere,
                command: String::new(),
                properties: 0,
                extra_properties: 0,
                field_id: 42,
                ctrl_id: 0,
                ctrl_data_name: Some("b".to_string()),
                memo_index: 0,
            },
            location: FieldLocation { section_index: 1, para_index: 0, nested_path: vec![] },
            value: "value-b".to_string(),
            field_range_index: 0,
            is_virtual_cell_field: true,
        },
    ];

    let result = find_field_by_id(&fields, 42);
    assert!(
        result.is_err(),
        "a genuine ID collision must be reported as an error, not silently resolved to the first match"
    );
}

#[test]
fn virtual_cell_id_tests_resolve_virtual_field_id_collisions_guarantees_document_wide_uniqueness() {
    let mut fields = vec![
        virtual_field(0x8000_0005, "collides-with-real"),
        real_field(0x8000_0005),
        virtual_field(0x9000_0000, "collides-with-next"),
        virtual_field(0x9000_0000, "collides-with-prev"),
    ];

    resolve_virtual_field_id_collisions(&mut fields);

    assert_eq!(fields[1].field.field_id, 0x8000_0005, "real field IDs must never change");

    let ids: Vec<u32> = fields.iter().map(|fi| fi.field.field_id).collect();
    let mut unique = ids.clone();
    unique.sort_unstable();
    unique.dedup();
    assert_eq!(
        unique.len(), ids.len(),
        "every field must end up with a distinct ID after resolution, got: {ids:?}"
    );
}

#[test]
fn virtual_cell_id_tests_resolution_resolve_virtual_field_id_collisions_guarantees_document_wide_uniqueness() {
    let mut fields = vec![
        virtual_field(0x8000_0005, "collides-with-real"),
        real_field(0x8000_0005),
        virtual_field(0x9000_0000, "collides-with-next"),
        virtual_field(0x9000_0000, "collides-with-prev"),
    ];

    resolve_virtual_field_id_collisions(&mut fields);

    assert_eq!(fields[1].field.field_id, 0x8000_0005, "real field IDs must never change");

    let ids: Vec<u32> = fields.iter().map(|fi| fi.field.field_id).collect();
    let mut unique = ids.clone();
    unique.sort_unstable();
    unique.dedup();
    assert_eq!(
        unique.len(), ids.len(),
        "every field must end up with a distinct ID after resolution, got: {ids:?}"
    );
}

#[test]
fn resolve_virtual_field_id_collisions_stays_fast_under_adversarial_collisions() {
    const N: usize = 20_000;
    let mut fields: Vec<FieldInfo> = (0..N)
        .map(|i| virtual_field(0x8000_0000, &format!("cell-{i}")))
        .collect();

    let start = std::time::Instant::now();
    resolve_virtual_field_id_collisions(&mut fields);
    let elapsed = start.elapsed();

    let ids: Vec<u32> = fields.iter().map(|fi| fi.field.field_id).collect();
    let mut unique = ids.clone();
    unique.sort_unstable();
    unique.dedup();
    assert_eq!(
        unique.len(), ids.len(),
        "every one of the {N} colliding virtual fields must still end up unique"
    );

    assert!(
        elapsed.as_millis() < 1000,
        "resolving {N} fully-colliding virtual field IDs took {elapsed:?}; \
         this should be near-linear"
    );
}

#[test]
fn set_field_value_by_id_on_virtual_cell_field_updates_the_cell_text() {
    let mut para = Paragraph::default();
    para.controls.push(table_with_named_cell("cell-field", "old"));
    let mut core = core_with_section(Section { paragraphs: vec![para], ..Default::default() });

    let fields = core.collect_all_fields();
    assert_eq!(fields.len(), 1);
    assert!(fields[0].is_virtual_cell_field);
    let field_id = fields[0].field.field_id;

    core.set_field_value_by_id(field_id, "new").expect(
        "setting a virtual cell field by its own ID must succeed",
    );

    let Control::Table(table) = &core.document.sections[0].paragraphs[0].controls[0] else {
        panic!("expected table control");
    };
    assert_eq!(
        table.cells[0].paragraphs[0].text, "new",
        "the cell's own text must be updated, not left unchanged or corrupted"
    );
}

#[test]
fn resolution_moves_only_virtual_fields_to_the_first_free_ids() {
    let mut fields = vec![
        real_field(0x8000_0000),
        virtual_field(0x8000_0000, "a"),
        virtual_field(0x8000_0001, "b"),
        virtual_field(0x8000_0001, "c"),
    ];
    resolve_virtual_field_id_collisions(&mut fields);
    let ids: Vec<u32> = fields.iter().map(|fi| fi.field.field_id).collect();
    // "a" collides with the real field and takes the first free value from
    // the cursor (0x8000_0000 is taken, so 0x8000_0001); "b" then finds its
    // own ID taken and moves on; "c" as well.
    assert_eq!(ids, vec![0x8000_0000, 0x8000_0001, 0x8000_0002, 0x8000_0003]);
}

#[test]
fn virtual_cell_ids_have_bit_31_set_and_depend_on_location() {
    let mut para_a = Paragraph::default();
    para_a.controls.push(table_with_named_cell("first", "a"));
    let mut para_b = Paragraph::default();
    para_b.controls.push(table_with_named_cell("second", "b"));
    let core = core_with_section(Section { paragraphs: vec![para_a, para_b], ..Default::default() });
    let fields = core.collect_all_fields();
    assert_eq!(fields.len(), 2);
    for fi in &fields {
        assert!(fi.field.field_id >= 0x8000_0000);
        assert!(fi.is_virtual_cell_field);
        assert_eq!(fi.field.field_type, FieldType::ClickHere);
    }
    assert_eq!(fields[0].value, "a");
    assert_eq!(fields[1].location.para_index, 1);
    assert_eq!(fields[1].location.nested_path.len(), 1);
}

#[test]
fn field_value_round_trips_through_set_and_get_by_name_and_id() {
    let mut core = core_with_section(Section { paragraphs: vec![form_paragraph()], ..Default::default() });

    assert_eq!(
        core.get_field_value_by_name("name").unwrap(),
        "{\"ok\":true,\"fieldId\":7,\"value\":\"홍길동\"}"
    );
    let answer = core.set_field_value_by_name("name", "김\"철수\"").unwrap();
    assert_eq!(
        answer,
        "{\"ok\":true,\"fieldId\":7,\"oldValue\":\"홍길동\",\"newValue\":\"김\\\"철수\\\"\"}"
    );
    assert_eq!(
        core.get_field_value_by_id(7).unwrap(),
        "{\"ok\":true,\"value\":\"김\\\"철수\\\"\"}"
    );
    assert_eq!(core.document.sections[0].paragraphs[0].text, "이름: 김\"철수\"");
    assert!(!core.page_tree_cache_valid);
    assert!(core.sections_to_recompose.contains(&0));

    let answer = core.set_field_value_by_id(7, "").unwrap();
    assert_eq!(answer, "{\"ok\":true,\"fieldId\":7,\"oldValue\":\"김\\\"철수\\\"\",\"newValue\":\"\"}");
    assert_eq!(core.get_field_value_by_id(7).unwrap(), "{\"ok\":true,\"value\":\"\"}");
}

#[test]
fn field_lookups_fail_for_unknown_ids_and_names() {
    let mut core = core_with_section(Section { paragraphs: vec![form_paragraph()], ..Default::default() });
    assert!(core.get_field_value_by_id(8).is_err());
    assert!(core.get_field_value_by_name("nobody").is_err());
    assert!(core.set_field_value_by_id(8, "x").is_err());
    assert!(core.set_field_value_by_name("nobody", "x").is_err());
    assert_eq!(core.document.sections[0].paragraphs[0].text, "이름: 홍길동");
    assert!(find_field_by_id(&core.collect_all_fields(), 8).is_err());
    assert_eq!(find_field_by_id(&core.collect_all_fields(), 7).unwrap().value, "홍길동");
}

#[test]
fn field_list_json_lists_every_field_with_its_location() {
    let mut para = form_paragraph();
    para.controls.push(table_with_named_cell("cell", "x\ny"));
    let core = core_with_section(Section { paragraphs: vec![para], ..Default::default() });
    let fields = core.collect_all_fields();
    assert_eq!(fields.len(), 2);
    let cell_id = fields[1].field.field_id;
    let expected = format!(
        "[{{\"fieldId\":7,\"fieldType\":\"ClickHere\",\"name\":\"name\",\"guide\":\"이름을 입력\",\
         \"command\":\"Direction:wstring:6:이름을 입력 HelpState:wstring:0:\",\"value\":\"홍길동\",\
         \"location\":{{\"sectionIndex\":0,\"paraIndex\":0}}}},\
         {{\"fieldId\":{},\"fieldType\":\"ClickHere\",\"name\":\"cell\",\"guide\":\"\",\"command\":\"\",\
         \"value\":\"x\\ny\",\"location\":{{\"sectionIndex\":0,\"paraIndex\":0,\"path\":[\
         {{\"type\":\"cell\",\"controlIndex\":1,\"cellIndex\":0,\"paraIndex\":0}}]}}}}]",
        cell_id
    );
    assert_eq!(core.get_field_list_json(), expected);
}

#[test]
fn empty_document_lists_no_field() {
    let core = DocumentCore::new_empty();
    assert_eq!(core.get_field_list_json(), "[]");
    assert!(core.collect_all_fields().is_empty());
}

#[test]
fn location_json_names_each_step() {
    let loc = FieldLocation {
        section_index: 1,
        para_index: 2,
        nested_path: vec![
            NestedEntry::TableCell { control_index: 3, cell_index: 4, para_index: 5 },
            NestedEntry::TextBox { control_index: 6, para_index: 7 },
        ],
    };
    assert_eq!(
        field_location_json(&loc),
        "{\"sectionIndex\":1,\"paraIndex\":2,\"path\":[{\"type\":\"cell\",\"controlIndex\":3,\"cellIndex\":4,\"paraIndex\":5},{\"type\":\"textbox\",\"controlIndex\":6,\"paraIndex\":7}]}"
    );
}

#[test]
fn field_info_at_reports_the_click_here_field_under_the_caret() {
    let mut para = form_paragraph();
    para.controls.push(named_click_here(9, "empty", "여기"));
    para.field_ranges.push(FieldRange { start_char_idx: 0, end_char_idx: 0, control_idx: 1 });
    let core = core_with_section(Section { paragraphs: vec![para], ..Default::default() });
    assert_eq!(
        core.get_field_info_at(0, 0, 5),
        "{\"inField\":true,\"fieldId\":7,\"fieldType\":\"ClickHere\",\"startCharIdx\":4,\"endCharIdx\":7,\"isGuide\":false,\"guideName\":\"이름을 입력\"}"
    );
    assert_eq!(
        core.get_field_info_at(0, 0, 0),
        "{\"inField\":true,\"fieldId\":9,\"fieldType\":\"ClickHere\",\"startCharIdx\":0,\"endCharIdx\":0,\"isGuide\":true,\"guideName\":\"여기\"}"
    );
    assert_eq!(core.get_field_info_at(0, 0, 2), "{\"inField\":false}");
    assert_eq!(core.get_field_info_at(0, 1, 5), "{\"inField\":false}");
    assert_eq!(core.get_field_info_at(3, 0, 5), "{\"inField\":false}");
}

#[test]
fn field_info_in_cell_and_by_path_follow_the_cell_paragraph() {
    let mut cell = Cell::new_empty(0, 0, 100, 100, 0);
    cell.paragraphs[0] = form_paragraph();
    let mut host = Paragraph::default();
    host.controls.push(Control::Table(Box::new(Table { cells: vec![cell], ..Default::default() })));
    let core = core_with_section(Section { paragraphs: vec![host], ..Default::default() });
    let inside = "{\"inField\":true,\"fieldId\":7,\"fieldType\":\"ClickHere\",\"startCharIdx\":4,\"endCharIdx\":7,\"isGuide\":false,\"guideName\":\"이름을 입력\"}";
    assert_eq!(core.get_field_info_at_in_cell(0, 0, 0, 0, 0, 6, false), inside);
    assert_eq!(core.get_field_info_at_in_cell(0, 0, 0, 0, 0, 6, true), "{\"inField\":false}");
    assert_eq!(core.get_field_info_at_in_cell(0, 0, 0, 1, 0, 6, false), "{\"inField\":false}");
    assert_eq!(core.get_field_info_at_by_path(0, 0, &[(0, 0, 0)], 7), inside);
    assert_eq!(core.get_field_info_at_by_path(0, 0, &[(0, 0, 1)], 7), "{\"inField\":false}");
    assert!(core.resolve_paragraph_by_path(0, 0, &[(1, 0, 0)]).is_err());
    assert_eq!(core.resolve_paragraph_by_path(0, 0, &[]).unwrap().controls.len(), 1);
}

#[test]
fn active_field_changes_only_when_a_new_field_is_entered() {
    let mut cell = Cell::new_empty(0, 0, 100, 100, 0);
    cell.paragraphs[0] = form_paragraph();
    let mut host = form_paragraph();
    host.controls.push(Control::Table(Box::new(Table { cells: vec![cell], ..Default::default() })));
    let mut core = core_with_section(Section { paragraphs: vec![host], ..Default::default() });
    core.page_tree_cache_valid = true;

    assert!(!core.set_active_field(0, 0, 1));
    assert!(core.active_field.is_none());
    assert!(core.page_tree_cache_valid);

    assert!(core.set_active_field(0, 0, 5));
    let a = core.active_field.as_ref().unwrap();
    assert_eq!((a.section_idx, a.para_idx, a.control_idx), (0, 0, 0));
    assert!(a.cell_path.is_none());
    assert!(!core.page_tree_cache_valid);

    core.page_tree_cache_valid = true;
    assert!(!core.set_active_field(0, 0, 6));
    assert!(core.page_tree_cache_valid);

    assert!(core.set_active_field_in_cell(0, 0, 1, 0, 0, 4, false));
    let a = core.active_field.as_ref().unwrap();
    assert_eq!((a.para_idx, a.control_idx), (0, 0));
    assert_eq!(a.cell_path.as_ref().unwrap(), &vec![(1, 0, 0)]);

    assert!(!core.set_active_field_by_path(0, 0, &[(1, 0, 0)], 4));
    assert!(!core.set_active_field_by_path(0, 0, &[(1, 0, 0)], 1));

    core.clear_active_field();
    assert!(core.active_field.is_none());
    assert!(!core.page_tree_cache_valid);
    core.page_tree_cache_valid = true;
    core.clear_active_field();
    assert!(core.page_tree_cache_valid);
}

#[test]
fn remove_field_keeps_the_text_and_drops_the_range() {
    let mut core = core_with_section(Section {
        paragraphs: vec![form_paragraph()],
        raw_stream: Some(vec![1]),
        ..Default::default()
    });
    assert!(core.remove_field_at(0, 0, 1).is_err());
    assert!(core.document.sections[0].raw_stream.is_some());
    assert!(core.remove_field_at(0, 5, 5).is_err());
    assert_eq!(core.remove_field_at(0, 0, 7).unwrap(), "{\"ok\":true}");
    let para = &core.document.sections[0].paragraphs[0];
    assert_eq!(para.text, "이름: 홍길동");
    assert!(para.field_ranges.is_empty());
    assert_eq!(para.controls.len(), 1);
    assert!(core.document.sections[0].raw_stream.is_none());
    assert!(core.collect_all_fields().is_empty());
}

#[test]
fn remove_field_in_cell_reaches_the_cell_paragraph() {
    let mut cell = Cell::new_empty(0, 0, 100, 100, 0);
    cell.paragraphs[0] = form_paragraph();
    let mut host = Paragraph::default();
    host.controls.push(Control::Table(Box::new(Table { cells: vec![cell], ..Default::default() })));
    let mut core = core_with_section(Section { paragraphs: vec![host], ..Default::default() });
    assert!(core.remove_field_at_in_cell(0, 0, 0, 0, 0, 5, true).is_err());
    assert!(core.remove_field_at_in_cell(0, 0, 1, 0, 0, 5, false).is_err());
    assert!(core.remove_field_at_in_cell(0, 0, 0, 0, 0, 0, false).is_err());
    assert_eq!(core.remove_field_at_in_cell(0, 0, 0, 0, 0, 5, false).unwrap(), "{\"ok\":true}");
    let Control::Table(t) = &core.document.sections[0].paragraphs[0].controls[0] else {
        panic!("expected table control");
    };
    assert!(t.cells[0].paragraphs[0].field_ranges.is_empty());
    assert_eq!(t.cells[0].paragraphs[0].text, "이름: 홍길동");
}

#[test]
fn set_cell_field_text_rejects_locations_that_are_not_cells() {
    let mut para = Paragraph::default();
    para.controls.push(table_with_named_cell("c", "v"));
    let mut core = core_with_section(Section { paragraphs: vec![para], ..Default::default() });
    let no_path = FieldLocation { section_index: 0, para_index: 0, nested_path: vec![] };
    assert!(core.set_cell_field_text(&no_path, "x").is_err());
    let text_box = FieldLocation {
        section_index: 0,
        para_index: 0,
        nested_path: vec![NestedEntry::TextBox { control_index: 0, para_index: 0 }],
    };
    assert!(core.set_cell_field_text(&text_box, "x").is_err());
    let far_cell = FieldLocation {
        section_index: 0,
        para_index: 0,
        nested_path: vec![NestedEntry::TableCell { control_index: 0, cell_index: 3, para_index: 0 }],
    };
    assert!(core.set_cell_field_text(&far_cell, "x").is_err());
    let cell = FieldLocation {
        section_index: 0,
        para_index: 0,
        nested_path: vec![NestedEntry::TableCell { control_index: 0, cell_index: 0, para_index: 5 }],
    };
    core.set_cell_field_text(&cell, "xyz").unwrap();
    let Control::Table(t) = &core.document.sections[0].paragraphs[0].controls[0] else {
        panic!("expected table control");
    };
    assert_eq!(t.cells[0].paragraphs[0].text, "xyz");
}

#[test]
fn virtual_cell_id_is_the_hash_of_the_location_indices() {
    let mut para_a = Paragraph::default();
    para_a.controls.push(Control::ColumnDef(Default::default()));
    para_a.controls.push(table_with_named_cell("first", "a"));
    let core = core_with_section(Section { paragraphs: vec![Paragraph::default(), para_a], ..Default::default() });
    let fields = core.collect_all_fields();
    assert_eq!(fields.len(), 1);

    // Section 0, paragraph 1, then table cell (control 1, cell 0, paragraph 0).
    let mut h = DefaultHasher::new();
    0usize.hash(&mut h);
    1usize.hash(&mut h);
    0u8.hash(&mut h);
    1usize.hash(&mut h);
    0usize.hash(&mut h);
    0usize.hash(&mut h);
    let expected = 0x8000_0000u32 | ((h.finish() as u32) & 0x7FFF_FFFF);
    assert_eq!(fields[0].field.field_id, expected);
}

fn message(e: rhwp::error::HwpError) -> String {
    match e {
        rhwp::error::HwpError::InvalidField(m) => m,
        other => panic!("unexpected error {other:?}"),
    }
}

#[test]
fn errors_name_the_missing_field() {
    let mut para = form_paragraph();
    para.controls.push(named_click_here(7, "twin", "g"));
    para.field_ranges.push(FieldRange { start_char_idx: 0, end_char_idx: 1, control_idx: 1 });
    let mut core = core_with_section(Section { paragraphs: vec![para], ..Default::default() });
    assert_eq!(message(core.get_field_value_by_id(8).unwrap_err()), "필드 ID 8 없음");
    assert_eq!(
        message(core.get_field_value_by_id(7).unwrap_err()),
        "필드 ID 7 가 둘 이상의 위치와 일치함 (내부 ID 충돌)"
    );
    assert_eq!(message(core.get_field_value_by_name("nobody").unwrap_err()), "필드 이름 'nobody' 없음");
    assert_eq!(message(core.set_field_value_by_name("nobody", "x").unwrap_err()), "필드 이름 'nobody' 없음");
    assert_eq!(message(core.remove_field_at(0, 0, 2).unwrap_err()), "커서 위치에 누름틀 필드 없음");
    assert_eq!(message(core.remove_field_at(0, 9, 2).unwrap_err()), "문단 위치 초과");
}

#[test]
fn path_errors_name_the_step_that_leads_nowhere() {
    let mut para = Paragraph::default();
    para.controls.push(table_with_named_cell("c", "v"));
    let mut core = core_with_section(Section { paragraphs: vec![para], ..Default::default() });
    let at = |path: Vec<NestedEntry>| FieldLocation { section_index: 0, para_index: 0, nested_path: path };

    let far_control = at(vec![NestedEntry::TableCell { control_index: 5, cell_index: 0, para_index: 0 }]);
    assert_eq!(message(core.set_field_text_at(&far_control, 0, "x").unwrap_err()), "경로[0]: 컨트롤 인덱스 5 초과");
    let not_shape = at(vec![NestedEntry::TextBox { control_index: 0, para_index: 0 }]);
    assert_eq!(message(core.set_field_text_at(&not_shape, 0, "x").unwrap_err()), "경로[0]: controls[0]가 Shape가 아님");
    let deep = at(vec![
        NestedEntry::TableCell { control_index: 0, cell_index: 0, para_index: 0 },
        NestedEntry::TableCell { control_index: 2, cell_index: 0, para_index: 0 },
    ]);
    assert_eq!(message(core.set_field_text_at(&deep, 0, "x").unwrap_err()), "경로[1]: 컨트롤 인덱스 2 초과");
    assert_eq!(message(core.set_cell_field_text(&deep, "x").unwrap_err()), "경로[1]: 컨트롤 인덱스 2 초과");
    let far_cell = at(vec![NestedEntry::TableCell { control_index: 0, cell_index: 3, para_index: 0 }]);
    assert_eq!(message(core.set_cell_field_text(&far_cell, "x").unwrap_err()), "경로[0]: 셀 인덱스 3 초과");
    let cell = at(vec![NestedEntry::TableCell { control_index: 0, cell_index: 0, para_index: 0 }]);
    assert_eq!(message(core.set_field_text_at(&cell, 0, "x").unwrap_err()), "field_range 인덱스 초과");
    let other_section = FieldLocation { section_index: 4, para_index: 0, nested_path: vec![] };
    assert_eq!(message(core.set_field_text_at(&other_section, 0, "x").unwrap_err()), "구역 인덱스 초과");
    let other_section_cell = FieldLocation { section_index: 4, para_index: 0, nested_path: cell.nested_path.clone() };
    assert_eq!(message(core.set_cell_field_text(&other_section_cell, "x").unwrap_err()), "구역 초과");
    let other_para_cell = FieldLocation { section_index: 0, para_index: 3, nested_path: cell.nested_path.clone() };
    assert_eq!(message(core.set_cell_field_text(&other_para_cell, "x").unwrap_err()), "문단 초과");

    assert_eq!(message(core.remove_field_at_in_cell(0, 0, 0, 0, 0, 0, true).unwrap_err()), "예상된 Shape 컨트롤이 아님");
    assert_eq!(message(core.remove_field_at_in_cell(0, 0, 0, 2, 0, 0, false).unwrap_err()), "셀 인덱스 초과");
    assert_eq!(message(core.remove_field_at_in_cell(0, 7, 0, 0, 0, 0, false).unwrap_err()), "호스트 문단 위치 초과");
}

#[test]
fn damaged_field_range_is_reported_with_its_bounds() {
    let mut para = Paragraph::default();
    para.text = "abc".to_string();
    para.field_ranges.push(FieldRange { start_char_idx: 2, end_char_idx: 9, control_idx: 0 });
    let mut core = core_with_section(Section { paragraphs: vec![para], raw_stream: Some(vec![1]), ..Default::default() });
    let here = FieldLocation { section_index: 0, para_index: 0, nested_path: vec![] };
    assert_eq!(
        message(core.set_field_text_at(&here, 0, "x").unwrap_err()),
        "field_range 범위가 유효하지 않음: start=2, end=9, 텍스트 길이=3"
    );
    assert!(core.document.sections[0].raw_stream.is_some());
}

#[test]
fn failure_answer_escapes_only_backslashes_and_quotes() {
    assert_eq!(
        rhwp::json::failure_json("a\"b\\c\nd"),
        "{\"ok\":false,\"error\":\"a\\\"b\\\\c\nd\"}"
    );
    assert_eq!(rhwp::json::failure_json(""), "{\"ok\":false,\"error\":\"\"}");
}

#[test]
fn cell_paragraph_length_and_text_direction() {
    let mut para = Paragraph::default();
    para.controls.push(Control::ColumnDef(Default::default()));
    para.controls.push(table_with_named_cell("c", "가나다"));
    if let Control::Table(t) = &mut para.controls[1] {
        t.cells[0].text_direction = 2;
    }
    let core = core_with_section(Section { paragraphs: vec![para], ..Default::default() });
    assert_eq!(core.get_cell_paragraph_length_by_path(0, 0, &[(1, 0, 0)]).unwrap(), 3);
    assert_eq!(core.get_cell_paragraph_length_by_path(0, 0, &[]).unwrap(), 0);
    assert_eq!(
        message(core.get_cell_paragraph_length_by_path(0, 0, &[(1, 4, 0)]).unwrap_err()),
        "경로[0]: 셀 인덱스 4 초과"
    );
    assert_eq!(core.get_cell_text_direction(0, 0, 1, 0).unwrap(), 2);
    assert_eq!(core.get_cell_text_direction(0, 0, 0, 0).unwrap(), 0);
    assert_eq!(core.get_cell_text_direction(0, 0, 9, 0).unwrap(), 0);
    assert_eq!(message(core.get_cell_text_direction(0, 0, 1, 5).unwrap_err()), "셀 인덱스 범위 초과");
    assert_eq!(message(core.get_cell_text_direction(0, 3, 1, 0).unwrap_err()), "문단 인덱스 범위 초과");
    assert_eq!(message(core.get_cell_text_direction(2, 0, 1, 0).unwrap_err()), "구역 인덱스 범위 초과");
}

#[test]
fn json_escape_decodes_back_to_the_string() {
    for s in ["", "plain", "quote\" back\\ nl\n cr\r tab\t bell\u{7} unit\u{1f} 한글"] {
        let escaped = rhwp::json::json_escape(s);
        let back: String = serde_json::from_str(&escaped).unwrap();
        assert_eq!(back, s);
    }
    assert_eq!(rhwp::json::json_escape("a\u{1}"), "\"a\\u0001\"");
}
