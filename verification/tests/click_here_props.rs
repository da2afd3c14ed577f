use rhwp::document_core::DocumentCore;
use rhwp::model::control::{Control, Field, FieldType};
use rhwp::model::document::{Document, Section};
use rhwp::model::paragraph::Paragraph;
use rhwp::model::table::{Cell, Table};

fn click_here(id: u32, command: &str) -> Control {
    Control::Field(Field {
        field_type: FieldType::ClickHere,
        command: command.to_string(),
        properties: 0x10,
        extra_properties: 0,
        field_id: id,
        ctrl_id: 0x25636c6b,
        ctrl_data_name: None,
        memo_index: 0,
    })
}

fn field_of(c: &Control) -> &Field {
    match c {
        Control::Field(f) => f,
        _ => panic!("expected a field"),
    }
}

fn sample() -> DocumentCore {
    let mut first = Paragraph::default();
    first.controls.push(Control::ColumnDef(Default::default()));
    first.controls.push(click_here(7, "Direction:wstring:3:abc HelpState:wstring:0: "));
    let mut cell = Cell::new_empty(0, 0, 10, 10, 0);
    cell.paragraphs[0].controls.push(click_here(9, "Direction:wstring:1:z HelpState:wstring:0:"));
    let mut host = Paragraph::default();
    host.controls.push(Control::Table(Box::new(Table { cells: vec![cell], ..Default::default() })));
    let mut doc = Document::default();
    doc.sections.push(Section { paragraphs: vec![first], raw_stream: Some(vec![1]) });
    doc.sections.push(Section { paragraphs: vec![host], raw_stream: Some(vec![2]) });
    let mut core = DocumentCore::new_empty();
    core.set_document(doc);
    core
}

#[test]
fn unchanged_guide_and_memo_keep_the_command() {
    let mut core = sample();
    assert_eq!(core.update_click_here_props(7, "abc", "", "nm", true), "{\"ok\":true}");
    let para = &core.document.sections[0].paragraphs[0];
    let f = field_of(&para.controls[1]);
    assert_eq!(f.command, "Direction:wstring:3:abc HelpState:wstring:0: ");
    assert_eq!(f.properties, 0x11);
    assert_eq!(f.ctrl_data_name.as_deref(), Some("nm"));
    assert_eq!(para.ctrl_data_records.len(), 2);
    assert_eq!(para.ctrl_data_records[0], None);
    assert_eq!(
        para.ctrl_data_records[1],
        Some(vec![0x1B, 0x02, 0x01, 0x00, 0x00, 0x00, 0x00, 0x40, 0x01, 0x00, 2, 0, b'n', 0, b'm', 0])
    );
    assert_eq!(core.document.sections[0].raw_stream, None);
    assert_eq!(core.document.sections[1].raw_stream, Some(vec![2]));
}

#[test]
fn new_guide_rebuilds_the_command_and_renames_the_record() {
    let mut core = sample();
    core.update_click_here_props(7, "abc", "", "nm", true);
    assert_eq!(core.update_click_here_props(7, "xy", "m", "", false), "{\"ok\":true}");
    let para = &core.document.sections[0].paragraphs[0];
    let f = field_of(&para.controls[1]);
    assert_eq!(f.command, "Direction:wstring:2:xy HelpState:wstring:1:m");
    assert_eq!(f.properties, 0x10);
    assert_eq!(f.ctrl_data_name, None);
    assert_eq!(para.ctrl_data_records[1], Some(vec![0x1B, 0x02, 0x01, 0x00, 0x00, 0x00, 0x00, 0x40, 0x01, 0x00, 0, 0]));
}

#[test]
fn field_in_a_table_cell_is_found_and_missing_field_clears_every_raw_stream() {
    let mut core = sample();
    assert_eq!(core.update_click_here_props(9, "z", "", "c", true), "{\"ok\":true}");
    let Control::Table(t) = &core.document.sections[1].paragraphs[0].controls[0] else {
        panic!("expected table");
    };
    assert_eq!(field_of(&t.cells[0].paragraphs[0].controls[0]).ctrl_data_name.as_deref(), Some("c"));
    assert_eq!(core.document.sections[0].raw_stream, None);
    assert_eq!(core.document.sections[1].raw_stream, None);

    let mut other = sample();
    assert_eq!(other.update_click_here_props(99, "a", "b", "c", true), "{\"ok\":false}");
    assert_eq!(other.document.sections[0].raw_stream, None);
    assert_eq!(other.document.sections[1].raw_stream, None);
    assert_eq!(field_of(&other.document.sections[0].paragraphs[0].controls[1]).properties, 0x10);
}

#[test]
fn short_existing_record_stays() {
    let mut core = sample();
    core.document.sections[0].paragraphs[0].ctrl_data_records = vec![None, Some(vec![1, 2, 3])];
    core.update_click_here_props(7, "abc", "", "nm", false);
    assert_eq!(core.document.sections[0].paragraphs[0].ctrl_data_records[1], Some(vec![1, 2, 3]));
}
