use abkaf::buffer::BoundedBuffer;
use abkaf::parsing::Parser;
use abkaf::reader::Reader;
use abkaf::writer::{encode_bytes, encode_compact_bytes, Writer, WriterError};

#[test]
fn fixed_width_numbers_are_written_big_endian() {
    let mut out: Vec<u8> = Vec::new();
    assert_eq!(out.write_i8(-128), Ok(()));
    assert_eq!(out.write_i16(9001), Ok(()));
    assert_eq!(out.write_i32(-99), Ok(()));
    assert_eq!(out.write_i64(0x1_0000_0000), Ok(()));
    assert_eq!(out.write_u32(u32::MAX), Ok(()));
    assert_eq!(
        out,
        vec![
            0x80, 0x23, 0x29, 0xff, 0xff, 0xff, 0x9d, 0x00, 0x00, 0x00, 0x01, 0x00, 0x00, 0x00,
            0x00, 0xff, 0xff, 0xff, 0xff,
        ]
    );
}

#[test]
fn extreme_numbers_are_written_in_twos_complement() {
    let mut out: Vec<u8> = Vec::new();
    assert_eq!(out.write_i16(i16::MIN), Ok(()));
    assert_eq!(out.write_i16(-1), Ok(()));
    assert_eq!(out.write_i64(i64::MIN), Ok(()));
    assert_eq!(out.write_i64(-1), Ok(()));
    assert_eq!(
        out,
        vec![
            0x80, 0x00, 0xff, 0xff, 0x80, 0, 0, 0, 0, 0, 0, 0, 0xff, 0xff, 0xff, 0xff, 0xff,
            0xff, 0xff, 0xff,
        ]
    );
}

#[test]
fn booleans_are_written_as_one_or_zero() {
    let mut out: Vec<u8> = Vec::new();
    assert_eq!(out.write_bool(true), Ok(()));
    assert_eq!(out.write_bool(false), Ok(()));
    assert_eq!(out, vec![0x01, 0x00]);
}

#[test]
fn varints_are_written_in_groups() {
    let mut out: Vec<u8> = Vec::new();
    assert_eq!(out.write_unsigned_varint(150), Ok(()));
    assert_eq!(out.write_varint(-1), Ok(()));
    assert_eq!(out.write_unsigned_varlong(u64::MAX), Ok(()));
    assert_eq!(out.write_varlong(1), Ok(()));
    assert_eq!(
        out,
        vec![
            0x81, 0x16, 0x01, 0x81, 0xff, 0xff, 0xff, 0xff, 0xff, 0xff, 0xff, 0xff, 0x7f, 0x02,
        ]
    );
}

#[test]
fn strings_in_their_four_forms() {
    let mut out: Vec<u8> = Vec::new();
    assert_eq!(out.write_string("abc"), Ok(()));
    assert_eq!(out.write_nullable_string(Some("hi")), Ok(()));
    assert_eq!(out.write_nullable_string(None), Ok(()));
    assert_eq!(out.write_compact_string("abc"), Ok(()));
    assert_eq!(out.write_compact_nullable_string(Some("")), Ok(()));
    assert_eq!(out.write_compact_nullable_string(None), Ok(()));
    assert_eq!(out, b"\x00\x03abc\x00\x02hi\xff\xff\x04abc\x01\x00".to_vec());
}

#[test]
fn absent_string_is_minus_one_and_nothing_else() {
    let mut out: Vec<u8> = Vec::new();
    assert_eq!(out.write_nullable_string(None), Ok(()));
    assert_eq!(out, vec![0xff, 0xff]);
    let mut p = Parser::new(&out);
    assert_eq!(p.next_nullable_string(), Ok(None));
    assert!(p.at_end());
}

#[test]
fn string_length_counts_bytes_not_characters() {
    let mut out: Vec<u8> = Vec::new();
    assert_eq!(out.write_string("\u{20ac}"), Ok(()));
    assert_eq!(out.write_compact_string("\u{20ac}"), Ok(()));
    assert_eq!(out, vec![0x00, 0x03, 0xe2, 0x82, 0xac, 0x04, 0xe2, 0x82, 0xac]);
}

#[test]
fn byte_arrays_are_written_in_their_four_forms() {
    let mut out: Vec<u8> = Vec::new();
    assert_eq!(out.write_bytes(&[0xaa, 0xbb]), Ok(()));
    assert_eq!(out.write_nullable_bytes(None), Ok(()));
    assert_eq!(out.write_nullable_bytes(Some(&[0xcc])), Ok(()));
    assert_eq!(out.write_compact_bytes(&[0xdd, 0xee]), Ok(()));
    assert_eq!(out.write_compact_nullable_bytes(None), Ok(()));
    assert_eq!(out.write_compact_nullable_bytes(Some(&[0xff])), Ok(()));
    assert_eq!(out.write_raw_bytes(&[1, 2, 3]), Ok(()));
    assert_eq!(
        out,
        vec![
            0x00, 0x02, 0xaa, 0xbb, 0xff, 0xff, 0x00, 0x01, 0xcc, 0x03, 0xdd, 0xee, 0x00, 0x02,
            0xff, 1, 2, 3,
        ]
    );
}

#[test]
fn a_length_beyond_sixteen_bits_is_out_of_range() {
    let long = vec![7u8; 0x8000];
    let longest = vec![7u8; 0x7fff];
    let mut out: Vec<u8> = Vec::new();
    assert_eq!(out.write_bytes(&long), Err(WriterError::ValueOutOfRange));
    assert_eq!(out.write_nullable_bytes(Some(&long)), Err(WriterError::ValueOutOfRange));
    assert!(out.is_empty());
    assert_eq!(out.write_bytes(&longest), Ok(()));
    assert_eq!(out.len(), 2 + 0x7fff);
    assert_eq!(&out[0..2], &[0x7f, 0xff]);
    let text = "x".repeat(0x8000);
    let mut out: Vec<u8> = Vec::new();
    assert_eq!(out.write_string(&text), Err(WriterError::ValueOutOfRange));
    assert_eq!(out.write_nullable_string(Some(&text)), Err(WriterError::ValueOutOfRange));
    assert!(out.is_empty());
    assert_eq!(out.write_compact_string(&text), Ok(()));
    assert_eq!(&out[0..3], &[0x82, 0x80, 0x01]);
}

#[test]
fn encodings_are_built_whole() {
    assert_eq!(encode_bytes(&[9, 8]), Ok(vec![0, 2, 9, 8]));
    assert_eq!(encode_bytes(&[]), Ok(vec![0, 0]));
    assert_eq!(encode_bytes(&vec![0u8; 0x8000]), Err(WriterError::ValueOutOfRange));
    assert_eq!(encode_compact_bytes(&[9, 8]), Ok(vec![3, 9, 8]));
    assert_eq!(encode_compact_bytes(&[]), Ok(vec![1]));
}

#[test]
fn uuid_text_is_written_as_sixteen_bytes() {
    let mut out: Vec<u8> = Vec::new();
    assert_eq!(out.write_uuid("00010203-0405-0607-0809-0a0b0c0d0e0f"), Ok(()));
    assert_eq!(out, vec![0, 1, 2, 3, 4, 5, 6, 7, 8, 9, 10, 11, 12, 13, 14, 15]);
}

#[test]
fn malformed_uuid_text_is_out_of_range() {
    let mut out: Vec<u8> = Vec::new();
    for text in [
        "",
        "00010203-0405-0607-0809-0a0b0c0d0e0",
        "00010203-0405-0607-0809-0a0b0c0d0e0f0",
        "00010203-0405-0607-0809-0A0B0C0D0E0F",
        "00010203 0405-0607-0809-0a0b0c0d0e0f",
        "000102030-405-0607-0809-0a0b0c0d0e0f",
        "0001020g-0405-0607-0809-0a0b0c0d0e0f",
    ] {
        assert_eq!(out.write_uuid(text), Err(WriterError::ValueOutOfRange));
    }
    assert!(out.is_empty());
}

#[test]
fn a_bounded_buffer_takes_an_encoding_whole_or_not_at_all() {
    let mut out = BoundedBuffer::new(3);
    assert_eq!(out.room(), 3);
    assert_eq!(out.write_i32(1), Err(WriterError::BufferOverflow));
    assert_eq!(out.len(), 0);
    assert_eq!(out.write_i16(0x0102), Ok(()));
    assert_eq!(out.room(), 1);
    assert_eq!(out.write_i16(0x0304), Err(WriterError::BufferOverflow));
    assert_eq!(out.write_string(""), Err(WriterError::BufferOverflow));
    assert_eq!(out.as_slice(), &[0x01, 0x02]);
    assert_eq!(out.write_bool(true), Ok(()));
    assert_eq!(out.room(), 0);
    assert_eq!(out.write_raw_bytes(&[]), Ok(()));
    assert_eq!(out.write_raw_bytes(&[0]), Err(WriterError::BufferOverflow));
    assert_eq!(out.into_bytes(), vec![0x01, 0x02, 0x01]);
}

#[test]
fn a_value_without_encoding_is_reported_before_the_lack_of_room() {
    let mut out = BoundedBuffer::new(0);
    assert_eq!(out.write_bytes(&vec![0u8; 0x8000]), Err(WriterError::ValueOutOfRange));
    assert_eq!(out.write_uuid("no uuid"), Err(WriterError::ValueOutOfRange));
    assert_eq!(out.write_bytes(&[]), Err(WriterError::BufferOverflow));
}

#[test]
fn what_is_written_is_read_back() {
    let mut out: Vec<u8> = Vec::new();
    out.write_bool(true).unwrap();
    out.write_i8(-7).unwrap();
    out.write_i16(-300).unwrap();
    out.write_i32(i32::MIN).unwrap();
    out.write_i64(i64::MAX).unwrap();
    out.write_u32(0xdead_beef).unwrap();
    out.write_varint(-123456).unwrap();
    out.write_unsigned_varint(268435456).unwrap();
    out.write_varlong(i64::MIN).unwrap();
    out.write_unsigned_varlong(1 << 56).unwrap();
    out.write_uuid("123e4567-e89b-12d3-a456-426614174000").unwrap();
    out.write_string("gr\u{fc}n").unwrap();
    out.write_compact_string("topic").unwrap();
    out.write_nullable_string(None).unwrap();
    out.write_nullable_string(Some("")).unwrap();
    out.write_compact_nullable_string(None).unwrap();
    out.write_compact_nullable_string(Some("x")).unwrap();
    out.write_bytes(&[1, 2]).unwrap();
    out.write_compact_bytes(&[]).unwrap();
    out.write_nullable_bytes(None).unwrap();
    out.write_nullable_bytes(Some(&[3])).unwrap();
    out.write_compact_nullable_bytes(None).unwrap();
    out.write_compact_nullable_bytes(Some(&[4, 5])).unwrap();
    out.write_raw_bytes(&[6]).unwrap();

    let mut p = Parser::new(&out);
    assert_eq!(Reader::next_bool(&mut p), Ok(true));
    assert_eq!(p.next_i8(), Ok(-7));
    assert_eq!(p.next_i16(), Ok(-300));
    assert_eq!(p.next_i32(), Ok(i32::MIN));
    assert_eq!(p.next_i64(), Ok(i64::MAX));
    assert_eq!(p.next_u32(), Ok(0xdead_beef));
    assert_eq!(p.next_varint(), Ok(-123456));
    assert_eq!(p.next_unsigned_varint(), Ok(268435456));
    assert_eq!(p.next_varlong(), Ok(i64::MIN));
    assert_eq!(p.next_unsigned_varlong(), Ok(1 << 56));
    assert_eq!(p.next_uuid(), Ok(String::from("123e4567-e89b-12d3-a456-426614174000")));
    assert_eq!(Reader::next_string(&mut p), Ok(String::from("gr\u{fc}n")));
    assert_eq!(p.next_compact_string(), Ok(String::from("topic")));
    assert_eq!(p.next_nullable_string(), Ok(None));
    assert_eq!(p.next_nullable_string(), Ok(Some(String::new())));
    assert_eq!(p.next_compact_nullable_string(), Ok(None));
    assert_eq!(p.next_compact_nullable_string(), Ok(Some(String::from("x"))));
    assert_eq!(Reader::next_bytes(&mut p), Ok(vec![1, 2]));
    assert_eq!(p.next_compact_bytes(), Ok(vec![]));
    assert_eq!(p.next_nullable_bytes(), Ok(None));
    assert_eq!(p.next_nullable_bytes(), Ok(Some(vec![3])));
    assert_eq!(p.next_compact_nullable_bytes(), Ok(None));
    assert_eq!(p.next_compact_nullable_bytes(), Ok(Some(vec![4, 5])));
    assert_eq!(p.next_raw_bytes(1), Ok(vec![6]));
    assert!(p.at_end());
}
