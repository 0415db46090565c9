use abkaf::parsing::{KafkaPrimitive, Parser, ParserNextError, ParserNextStringError};

/// Verify parsing an i8 from an empty buffer results in an error.
#[test]
fn test_parse_i8_empty() {
    // Setup
    let bytes: [u8; 0] = [];
    let mut parser = Parser::new(&bytes);
    // Test
    assert!(matches!(
        parser.next_primitive::<i8>(),
        Err(ParserNextError::UnexpectedEndOfInput)
    ))
}

/// Verify parsing an i8 from a single byte buffer.
#[test]
fn test_parse_i8_single_byte() {
    // Setup
    let bytes: [u8; 1] = [42];
    let mut parser = Parser::new(&bytes);
    // Test
    assert!(matches!(parser.next_primitive::<i8>(), Ok(42)));
    assert!(matches!(
        parser.next_primitive::<i8>(),
        Err(ParserNextError::UnexpectedEndOfInput)
    ))
}

/// Verify parsing an i8 from a mult-byte buffer ignores the trailing bytes.
#[test]
fn test_parse_i8_multiple_byte() {
    // Setup
    let bytes: [u8; 2] = [42, 93];
    let mut parser = Parser::new(&bytes);
    // Test
    assert!(matches!(parser.next_primitive::<i8>(), Ok(42)));
    assert!(matches!(parser.next_primitive::<i8>(), Ok(93)));
    assert!(matches!(
        parser.next_primitive::<i8>(),
        Err(ParserNextError::UnexpectedEndOfInput)
    ))
}

/// Verify that an i16 is read from a 2 byte buffer.
#[test]
fn test_parse_i16_2bytes() {
    // Setup
    let bytes = b"\x23\x29";
    let mut parser = Parser::new(bytes);
    // Test
    assert!(matches!(parser.next_primitive::<i16>(), Ok(9001)));
    assert!(matches!(
        parser.next_primitive::<i8>(),
        Err(ParserNextError::UnexpectedEndOfInput)
    ))
}

/// Verify that an f64 is read from an 8 byte buffer: the parser hands out the
/// eight bytes as a number, which holds the bits of the float.
#[test]
fn test_parse_f64_8bytes() {
    // Setup
    let bytes = b"\x40\x09\x1e\xb8\x51\xeb\x85\x1f";
    let mut parser = Parser::new(bytes);
    // Test
    assert!(matches!(parser.next_primitive::<u64>().map(f64::from_bits), Ok(x) if x == 3.14));
    assert!(matches!(
        parser.next_primitive::<u64>().map(f64::from_bits),
        Err(ParserNextError::UnexpectedEndOfInput)
    ))
}

/// Verify that an inaccurate f64 is read from an 8 byte buffer.
#[test]
fn test_parse_f64_inaccurate_8bytes() {
    // Setup
    let bytes = b"\x40\x09\x1e\xb8\xd8\x23\x42\x25";
    let mut parser = Parser::new(bytes);
    // Test
    assert!(matches!(
        parser.next_primitive::<u64>().map(f64::from_bits),
        Ok(x) if x == 3.1400010000000003
    ));
    assert!(matches!(
        parser.next_primitive::<u64>().map(f64::from_bits),
        Err(ParserNextError::UnexpectedEndOfInput)
    ))
}

#[test]
fn parse_negative_numbers() {
    let bytes: [u8; 15] = [
        0xff, 0x80, 0x00, 0xff, 0xff, 0xff, 0xfe, 0x80, 0, 0, 0, 0, 0, 0, 0,
    ];
    let mut parser = Parser::new(&bytes);
    assert_eq!(parser.next_primitive::<i8>(), Ok(-1));
    assert_eq!(parser.next_primitive::<i16>(), Ok(i16::MIN));
    assert_eq!(parser.next_primitive::<i32>(), Ok(-2));
    assert_eq!(parser.next_primitive::<i64>(), Ok(i64::MIN));
    assert_eq!(parser.remaining_len(), 0);
}

#[test]
fn parse_unsigned_numbers() {
    let bytes: [u8; 14] = [
        0xff, 0xfe, 0x80, 0x00, 0x00, 0x01, 0xff, 0xff, 0xff, 0xff, 0xff, 0xff, 0xff, 0xfd,
    ];
    let mut parser = Parser::new(&bytes);
    assert_eq!(parser.next_primitive::<u16>(), Ok(0xfffe));
    assert_eq!(parser.next_primitive::<u32>(), Ok(0x8000_0001));
    assert_eq!(parser.next_primitive::<u64>(), Ok(u64::MAX - 2));
}

#[test]
fn parse_keeps_its_place_when_bytes_are_missing() {
    let bytes: [u8; 3] = [1, 2, 3];
    let mut parser = Parser::new(&bytes);
    assert_eq!(parser.next_primitive::<i32>(), Err(ParserNextError::UnexpectedEndOfInput));
    assert_eq!(parser.remaining_len(), 3);
    assert_eq!(parser.next_primitive::<i16>(), Ok(0x0102));
    assert_eq!(parser.remaining_len(), 1);
}

#[test]
fn from_be_bytes_wants_the_width_of_the_type() {
    assert_eq!(<i16 as KafkaPrimitive<i16>>::from_be_bytes(&[0x23, 0x29]), Some(9001));
    assert_eq!(<i16 as KafkaPrimitive<i16>>::from_be_bytes(&[0x23]), None);
    assert_eq!(<i16 as KafkaPrimitive<i16>>::from_be_bytes(&[0x23, 0x29, 0x00]), None);
    assert_eq!(<u32 as KafkaPrimitive<u32>>::from_be_bytes(&[0, 0, 1, 0]), Some(256));
    assert_eq!(<i8 as KafkaPrimitive<i8>>::from_be_bytes(&[]), None);
}

#[test]
fn next_bytes_hands_out_runs() {
    let bytes: [u8; 5] = [1, 2, 3, 4, 5];
    let mut parser = Parser::new(&bytes);
    assert_eq!(parser.next_bytes(2), Ok(&bytes[0..2]));
    assert_eq!(parser.next_bytes(0), Ok(&bytes[0..0]));
    assert_eq!(parser.next_bytes(4), Err(ParserNextError::UnexpectedEndOfInput));
    assert_eq!(parser.next_bytes(3), Ok(&bytes[2..5]));
    assert_eq!(parser.next_bytes(1), Err(ParserNextError::UnexpectedEndOfInput));
}

#[test]
fn next_bool_reads_any_nonzero_byte_as_true() {
    let bytes: [u8; 3] = [0, 1, 0x80];
    let mut parser = Parser::new(&bytes);
    assert_eq!(parser.next_bool(), Ok(false));
    assert_eq!(parser.next_bool(), Ok(true));
    assert_eq!(parser.next_bool(), Ok(true));
    assert_eq!(parser.next_bool(), Err(ParserNextError::UnexpectedEndOfInput));
}

#[test]
fn next_string_reads_length_and_text() {
    let bytes = b"\x00\x0dcoinbase-user\x00\x00";
    let mut parser = Parser::new(bytes);
    assert_eq!(parser.next_string(), Ok(String::from("coinbase-user")));
    assert_eq!(parser.next_string(), Ok(String::new()));
    assert_eq!(
        parser.next_string(),
        Err(ParserNextStringError::UnexpectedEndOfInput(ParserNextError::UnexpectedEndOfInput))
    );
}

#[test]
fn next_string_reads_text_beyond_ascii() {
    let bytes = b"\x00\x05\xc3\xa9t\xc3\xa9";
    let mut parser = Parser::new(bytes);
    assert_eq!(parser.next_string(), Ok(String::from("\u{e9}t\u{e9}")));
}

#[test]
fn next_string_rejects_a_negative_length() {
    let bytes = b"\xff\xffabc";
    let mut parser = Parser::new(bytes);
    assert_eq!(parser.next_string(), Err(ParserNextStringError::NegativeLength));
    assert_eq!(parser.remaining_len(), 3);
}

#[test]
fn next_string_rejects_a_short_body() {
    let bytes = b"\x00\x04abc";
    let mut parser = Parser::new(bytes);
    assert_eq!(
        parser.next_string(),
        Err(ParserNextStringError::UnexpectedEndOfInput(ParserNextError::UnexpectedEndOfInput))
    );
    assert_eq!(parser.remaining_len(), 3);
}

#[test]
fn next_string_rejects_bytes_that_are_not_utf8() {
    let bytes = b"\x00\x02\xc3\x28rest";
    let mut parser = Parser::new(bytes);
    assert_eq!(parser.next_string(), Err(ParserNextStringError::InvalidUtf8));
    assert_eq!(parser.remaining_len(), 4);
}
