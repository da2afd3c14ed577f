use rhwp::document_core::DocumentCore;
use rhwp::model::bin_data::BinDataContent;
use rhwp::model::control::Control;
use rhwp::model::document::{Document, Section};
use rhwp::model::paragraph::Paragraph;
use rhwp::model::picture::{ImageAttr, Picture};
use rhwp::model::shape::{DrawingObjAttr, ShapeObject};
use rhwp::thumbnail::thumbnail_json;

fn picture(id: u16, path: Option<&str>) -> Picture {
    Picture { image_attr: ImageAttr { bin_data_id: id, external_path: path.map(|p| p.to_string()) } }
}

fn core_with(paragraphs: Vec<Paragraph>, contents: Vec<BinDataContent>) -> DocumentCore {
    let mut doc = Document::default();
    doc.sections.push(Section { paragraphs, raw_stream: Some(vec![7]) });
    doc.bin_data_content = contents;
    let mut core = DocumentCore::new_empty();
    core.set_document(doc);
    core
}

fn sample_core() -> DocumentCore {
    let mut first = Paragraph::default();
    first.controls.push(Control::Picture(Box::new(picture(1, Some("C:\\img\\oracle.gif")))));
    first.controls.push(Control::Picture(Box::new(picture(2, Some("/x/rdb02.gif")))));
    let mut second = Paragraph::default();
    second.controls.push(Control::Shape(Box::new(ShapeObject::Drawing(DrawingObjAttr::default()))));
    second.controls.push(Control::Picture(Box::new(picture(3, Some("/y/oracle.gif")))));
    second.controls.push(Control::Shape(Box::new(ShapeObject::Picture(picture(4, Some("a/b/c.png"))))));
    second.controls.push(Control::Picture(Box::new(picture(5, None))));
    core_with(
        vec![first, second],
        vec![
            BinDataContent { id: 1, data: vec![], extension: String::new() },
            BinDataContent { id: 2, data: vec![9], extension: "gif".to_string() },
        ],
    )
}

fn path_of(c: &Control) -> Option<String> {
    match c {
        Control::Picture(p) => p.image_attr.external_path.clone(),
        Control::Shape(s) => match s.as_ref() {
            ShapeObject::Picture(p) => p.image_attr.external_path.clone(),
            _ => None,
        },
        _ => None,
    }
}

#[test]
fn awaited_names_are_sorted_unique_and_skip_loaded_images() {
    let core = sample_core();
    assert_eq!(core.awaited_file_names(), vec!["c.png".to_string(), "oracle.gif".to_string()]);
    assert_eq!(core.get_external_image_basenames(), "[\"c.png\",\"oracle.gif\"]");
}

#[test]
fn no_external_picture_gives_an_empty_list() {
    let core = core_with(vec![Paragraph::default()], vec![]);
    assert_eq!(core.get_external_image_basenames(), "[]");
}

#[test]
fn injecting_fills_each_target_and_relabels_its_pictures() {
    let mut core = sample_core();
    assert_eq!(core.inject_external_image("oracle.gif", &[1, 2, 3], ""), 2);
    let contents = &core.document.bin_data_content;
    assert_eq!(contents.len(), 3);
    assert_eq!((contents[0].id, contents[0].data.clone(), contents[0].extension.as_str()), (1, vec![1, 2, 3], "gif"));
    assert_eq!((contents[1].id, contents[1].data.clone()), (2, vec![9]));
    assert_eq!((contents[2].id, contents[2].data.clone(), contents[2].extension.as_str()), (3, vec![1, 2, 3], "gif"));
    let paras = &core.document.sections[0].paragraphs;
    assert_eq!(path_of(&paras[0].controls[0]).as_deref(), Some("/samples/oracle.gif"));
    assert_eq!(path_of(&paras[0].controls[1]).as_deref(), Some("/x/rdb02.gif"));
    assert_eq!(path_of(&paras[1].controls[1]).as_deref(), Some("/samples/oracle.gif"));
    assert_eq!(path_of(&paras[1].controls[2]).as_deref(), Some("a/b/c.png"));
    assert_eq!(path_of(&paras[1].controls[3]), None);
    assert_eq!(core.document.sections[0].raw_stream, Some(vec![7]));
    assert_eq!(core.get_external_image_basenames(), "[\"c.png\"]");
}

#[test]
fn injecting_uses_the_display_path_and_skips_other_names() {
    let mut core = sample_core();
    assert_eq!(core.inject_external_image("missing.gif", &[1], "/tmp/x"), 0);
    assert_eq!(core.document.bin_data_content.len(), 2);
    assert_eq!(core.inject_external_image_with_extension("c.png", &[5], "/abs/c.png", "png"), 1);
    let paras = &core.document.sections[0].paragraphs;
    assert_eq!(path_of(&paras[1].controls[2]).as_deref(), Some("/abs/c.png"));
    let item = core.document.bin_data_content.last().unwrap();
    assert_eq!((item.id, item.data.clone(), item.extension.as_str()), (4, vec![5], "png"));
}

#[test]
fn extension_less_name_stores_an_empty_extension() {
    let mut para = Paragraph::default();
    para.controls.push(Control::Picture(Box::new(picture(1, Some("dir/README")))));
    let mut core = core_with(vec![para], vec![]);
    assert_eq!(core.inject_external_image("README", &[0], ""), 1);
    assert_eq!(core.document.bin_data_content[0].extension, "");
}

#[test]
fn thumbnail_answer_carries_the_base64_bytes_and_the_media_type() {
    assert_eq!(
        thumbnail_json("png", &[1, 2, 3], 4, 5),
        "{\"format\":\"png\",\"base64\":\"AQID\",\"dataUri\":\"data:image/png;base64,AQID\",\"width\":4,\"height\":5}"
    );
    assert_eq!(
        thumbnail_json("jpg", &[0xFF], 0, 10),
        "{\"format\":\"jpg\",\"base64\":\"/w==\",\"dataUri\":\"data:application/octet-stream;base64,/w==\",\"width\":0,\"height\":10}"
    );
    assert_eq!(
        thumbnail_json("gif", &[], 1, 1),
        "{\"format\":\"gif\",\"base64\":\"\",\"dataUri\":\"data:image/gif;base64,\",\"width\":1,\"height\":1}"
    );
}

#[test]
fn listed_names_use_serde_escapes() {
    let mut para = Paragraph::default();
    para.controls.push(Control::Picture(Box::new(picture(1, Some("x/a\"b\u{8}\u{1}.gif")))));
    let core = core_with(vec![para], vec![]);
    assert_eq!(core.get_external_image_basenames(), "[\"a\\\"b\\b\\u0001.gif\"]");
}

#[test]
fn extension_is_what_follows_the_last_dot() {
    let mut paras = Vec::new();
    for (i, name) in ["a.b.gif", ".hidden", "trail.", "..", "plain"].iter().enumerate() {
        let mut para = Paragraph::default();
        para.controls.push(Control::Picture(Box::new(picture(i as u16 + 1, Some(name)))));
        paras.push(para);
    }
    let mut core = core_with(paras, vec![]);
    for name in ["a.b.gif", ".hidden", "trail.", "..", "plain"] {
        assert_eq!(core.inject_external_image(name, &[1], ""), 1);
    }
    let exts: Vec<&str> = core.document.bin_data_content.iter().map(|c| c.extension.as_str()).collect();
    assert_eq!(exts, vec!["gif", "", "", "", ""]);
}
