# rhwp (verified core)

The document model of an HWP word processor, with its logic proved in Verus:

- `serializer::byte_writer` / `parser::byte_reader`: little-endian record
  fields and length-prefixed UTF-16LE strings, with round-trip laws.
- `model`: paragraphs, field controls, tables, text boxes, pictures,
  sections, binary data items and numbering definitions.
- `document_core::queries::field_query`: click-here fields: listing them
  (with document-wide IDs for table cells named as fields), reading and
  writing their values, removing them, and the field under the caret. A
  field write moves the other field ranges and rebuilds the character
  offsets; `read_back` proves that a read gives back what was written.
- `document_core::commands::document::clear_initial`: clearing the guide
  texts that untouched click-here fields hold.
- `document_core::commands::click_here`: changing a click-here field's
  guide text, memo, name (also in its CTRL_DATA record) and editability.
- `document_core::validation`: paragraphs whose stored line segments need
  the text laid out again, and the report as JSON.
- `document_core::picture_external`: pictures whose image is an outside
  file: the sorted names of the files still awaited, and loading one into
  the binary data of the document.
- `document_core::numbering`: the numbering definitions as JSON, and the
  default numbering added where there is none.
- `document_core::queries::cell_info`: the length of a paragraph reached
  through table cells, and a cell's text direction.
- `thumbnail`: the JSON answer describing a thumbnail image (base64 through
  the `base64` crate).

`app/` holds the thin bindings an editor calls, and the floating-point
parts (canvas scale, `f64` record fields), which stay out of the verified
library.
