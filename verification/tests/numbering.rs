use rhwp::document_core::DocumentCore;
use rhwp::model::document::Document;
use rhwp::model::style::Numbering;

#[test]
fn empty_document_gets_the_default_numbering_once() {
    let mut core = DocumentCore::new_empty();
    assert_eq!(core.get_numbering_list(), "[]");
    assert_eq!(core.ensure_default_numbering(), 1);
    let n = &core.document.doc_info.numberings[0];
    assert_eq!(n.heads.iter().map(|h| h.number_format).collect::<Vec<_>>(), vec![0, 8, 0, 8, 1, 10, 5]);
    assert_eq!(n.level_start_numbers, [1; 7]);
    assert_eq!(
        core.get_numbering_list(),
        "[{\"id\":1,\"levelFormats\":[\"^1.\",\"^2)\",\"^3)\",\"^4)\",\"^5)\",\"^6)\",\"^7)\"],\"startNumber\":1}]"
    );
    assert_eq!(core.ensure_default_numbering(), 1);
    assert_eq!(core.document.doc_info.numberings.len(), 1);
}

#[test]
fn numbering_list_numbers_from_one_and_escapes_quotes_only() {
    let mut doc = Document::default();
    let mut a = Numbering::default();
    a.level_formats[0] = "a\"b\\c".to_string();
    a.start_number = 3;
    doc.doc_info.numberings.push(a);
    doc.doc_info.numberings.push(Numbering::default());
    let mut core = DocumentCore::new_empty();
    core.set_document(doc);
    assert_eq!(
        core.get_numbering_list(),
        "[{\"id\":1,\"levelFormats\":[\"a\\\"b\\c\",\"\",\"\",\"\",\"\",\"\",\"\"],\"startNumber\":3},\
         {\"id\":2,\"levelFormats\":[\"\",\"\",\"\",\"\",\"\",\"\",\"\"],\"startNumber\":0}]"
    );
    assert_eq!(core.ensure_default_numbering(), 1);
    assert_eq!(core.document.doc_info.numberings.len(), 2);
}
