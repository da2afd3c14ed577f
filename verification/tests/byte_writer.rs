use rhwp::error::HwpError;
use rhwp::parser::byte_reader::ByteReader;
use rhwp::serializer::byte_writer::ByteWriter;

#[test]
fn test_write_u8() {
    let mut w = ByteWriter::new();
    w.write_u8(0x42);
    assert_eq!(w.into_bytes(), [0x42]);
}

#[test]
fn test_write_u16_le() {
    let mut w = ByteWriter::new();
    w.write_u16(0x1234);
    assert_eq!(w.into_bytes(), [0x34, 0x12]);
}

#[test]
fn test_write_u32_le() {
    let mut w = ByteWriter::new();
    w.write_u32(0x12345678);
    assert_eq!(w.into_bytes(), [0x78, 0x56, 0x34, 0x12]);
}

#[test]
fn test_write_i8() {
    let mut w = ByteWriter::new();
    w.write_i8(-1);
    assert_eq!(w.into_bytes(), [0xFF]);
}

#[test]
fn test_write_i16_negative() {
    let mut w = ByteWriter::new();
    w.write_i16(-100);
    let bytes = w.into_bytes();
    let mut reader = ByteReader::new(&bytes);
    assert_eq!(reader.read_i16().unwrap(), -100);
}

#[test]
fn test_write_i32_negative() {
    let mut w = ByteWriter::new();
    w.write_i32(-7200);
    let bytes = w.into_bytes();
    let mut reader = ByteReader::new(&bytes);
    assert_eq!(reader.read_i32().unwrap(), -7200);
}

#[test]
fn test_write_bytes() {
    let mut w = ByteWriter::new();
    w.write_bytes(&[0x01, 0x02, 0x03]);
    assert_eq!(w.into_bytes(), [0x01, 0x02, 0x03]);
}

#[test]
fn test_write_hwp_string_korean() {
    let mut w = ByteWriter::new();
    w.write_hwp_string("한글");
    let bytes = w.into_bytes();

    let mut reader = ByteReader::new(&bytes);
    assert_eq!(reader.read_hwp_string().unwrap(), "한글");
}

#[test]
fn test_write_hwp_string_ascii() {
    let mut w = ByteWriter::new();
    w.write_hwp_string("ABC");
    let bytes = w.into_bytes();

    let mut reader = ByteReader::new(&bytes);
    assert_eq!(reader.read_hwp_string().unwrap(), "ABC");
}

#[test]
fn test_write_hwp_string_empty() {
    let mut w = ByteWriter::new();
    w.write_hwp_string("");
    let bytes = w.into_bytes();

    let mut reader = ByteReader::new(&bytes);
    assert_eq!(reader.read_hwp_string().unwrap(), "");
}

#[test]
fn test_write_hwp_string_mixed() {
    let mut w = ByteWriter::new();
    w.write_hwp_string("Hello 세계!");
    let bytes = w.into_bytes();

    let mut reader = ByteReader::new(&bytes);
    assert_eq!(reader.read_hwp_string().unwrap(), "Hello 세계!");
}

#[test]
fn test_write_color_ref() {
    let mut w = ByteWriter::new();
    w.write_color_ref(0x00FF8040);
    let bytes = w.into_bytes();

    let mut reader = ByteReader::new(&bytes);
    assert_eq!(reader.read_color_ref().unwrap(), 0x00FF8040);
}

#[test]
fn test_write_zeros() {
    let mut w = ByteWriter::new();
    w.write_zeros(5);
    assert_eq!(w.into_bytes(), [0, 0, 0, 0, 0]);
}

#[test]
fn test_position() {
    let mut w = ByteWriter::new();
    assert_eq!(w.position(), 0);
    w.write_u16(0x1234);
    assert_eq!(w.position(), 2);
    w.write_u32(0);
    assert_eq!(w.position(), 6);
}

#[test]
fn test_sequential_writes_roundtrip() {
    let mut w = ByteWriter::new();
    w.write_u8(42);
    w.write_u16(1000);
    w.write_i32(-500);
    let bytes = w.into_bytes();

    let mut reader = ByteReader::new(&bytes);
    assert_eq!(reader.read_u8().unwrap(), 42);
    assert_eq!(reader.read_u16().unwrap(), 1000);
    assert_eq!(reader.read_i32().unwrap(), -500);
    assert!(reader.is_empty());
}

#[test]
fn hwp_string_layout_is_count_then_utf16le_units() {
    let mut w = ByteWriter::new();
    w.write_hwp_string("A한");
    assert_eq!(w.into_bytes(), [0x02, 0x00, 0x41, 0x00, 0x5C, 0xD5]);
}

#[test]
fn hwp_string_with_surrogate_pair_counts_code_units_and_reads_back() {
    let mut w = ByteWriter::new();
    w.write_hwp_string("a😀");
    let bytes = w.into_bytes();
    assert_eq!(bytes, [0x03, 0x00, 0x61, 0x00, 0x3D, 0xD8, 0x00, 0xDE]);
    let mut reader = ByteReader::new(&bytes);
    assert_eq!(reader.read_hwp_string().unwrap(), "a😀");
    assert!(reader.is_empty());
}

#[test]
fn signed_writes_use_twos_complement() {
    let mut w = ByteWriter::new();
    w.write_i16(-2);
    w.write_i32(-1);
    w.write_i8(-128);
    assert_eq!(w.as_bytes(), &[0xFE, 0xFF, 0xFF, 0xFF, 0xFF, 0xFF, 0x80]);
}

#[test]
fn write_zeros_of_nothing_writes_nothing() {
    let mut w = ByteWriter::new();
    w.write_u8(7);
    w.write_zeros(0);
    assert_eq!(w.position(), 1);
    assert_eq!(w.as_bytes(), &[7]);
}

#[test]
fn reads_past_the_end_fail_without_moving() {
    let bytes = [0x01u8];
    let mut reader = ByteReader::new(&bytes);
    assert!(reader.read_u16().is_err());
    assert_eq!(reader.position(), 0);
    assert_eq!(reader.read_u8().unwrap(), 1);
    assert!(reader.read_u8().is_err());
    assert!(reader.read_i32().is_err());
    assert!(reader.read_color_ref().is_err());
}

#[test]
fn read_u32_and_i16_decode_little_endian() {
    let bytes = [0x78u8, 0x56, 0x34, 0x12, 0x00, 0x80];
    let mut reader = ByteReader::new(&bytes);
    assert_eq!(reader.read_u32().unwrap(), 0x12345678);
    assert_eq!(reader.read_i16().unwrap(), i16::MIN);
    assert_eq!(reader.remaining(), 0);
}

#[test]
fn failed_reads_report_where_and_how_much() {
    let bytes = [0x05u8, 0x00, 0x41, 0x00, 0x07];
    let mut reader = ByteReader::new(&bytes);
    assert!(matches!(
        reader.read_hwp_string(),
        Err(HwpError::UnexpectedEof { offset: 0, needed: 12 })
    ));
    assert_eq!(reader.read_u32().unwrap(), 0x0041_0005);
    assert!(matches!(reader.read_u16(), Err(HwpError::UnexpectedEof { offset: 4, needed: 2 })));
    assert!(matches!(reader.read_hwp_string(), Err(HwpError::UnexpectedEof { offset: 4, needed: 2 })));
    assert_eq!(reader.read_u8().unwrap(), 7);
    assert!(matches!(reader.read_i32(), Err(HwpError::UnexpectedEof { offset: 5, needed: 4 })));
}
