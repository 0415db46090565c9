use abkaf::enc::{
    decode_uvarint, encode_uvarint, encode_uvarlong, encode_varint, encode_varlong,
    uvarint_step, uvarlong_step, zigzag_decode32, zigzag_decode64, zigzag_encode32,
    zigzag_encode64, DecodeUvarintError, UvarintStep, UvarlongStep,
};

#[test]
pub fn test_encode_uvarint_0() {
    // Setup
    let expected: [u8; 1] = [0];
    // Test
    let result: Vec<u8> = encode_uvarint(0).into_iter().collect();
    // Assert
    assert_eq!(&expected, result.as_slice());
}

#[test]
pub fn test_encode_uvarint_1() {
    // Setup
    let expected: [u8; 1] = [0b00000001];
    // Test
    let result: Vec<u8> = encode_uvarint(1).into_iter().collect();
    // Assert
    assert_eq!(&expected, result.as_slice());
}

#[test]
pub fn test_encode_uvarint_127() {
    // Setup
    let expected: [u8; 1] = [0b01111111];
    // Test
    let result: Vec<u8> = encode_uvarint(127).into_iter().collect();
    // Assert
    assert_eq!(&expected, result.as_slice());
}

#[test]
pub fn test_encode_uvarint_128() {
    // Setup
    let expected: [u8; 2] = [0b10000001, 0b00000000];
    // Test
    let result: Vec<u8> = encode_uvarint(128).into_iter().collect();
    // Assert
    assert_eq!(&expected, result.as_slice());
}

#[test]
pub fn test_encode_uvarint_150() {
    // Setup
    let expected: [u8; 2] = [0b10000001, 0b00010110];
    // Test
    let result: Vec<u8> = encode_uvarint(150).into_iter().collect();
    // Assert
    assert_eq!(&expected, result.as_slice());
}

#[test]
pub fn test_encode_uvarint_max() {
    // Setup
    let expected: [u8; 5] = [0b10001111, 0b11111111, 0b11111111, 0b11111111, 0b01111111];
    // Test
    let result: Vec<u8> = encode_uvarint(u32::MAX).into_iter().collect();
    // Assert
    assert_eq!(&expected, result.as_slice());
}

#[test]
pub fn test_decode_uvarint_max() {
    // Setup
    let input: [u8; 5] = [0b10001111, 0b11111111, 0b11111111, 0b11111111, 0b01111111];
    let expected = u32::MAX;
    // Test
    let result = decode_uvarint(&mut input.iter()).unwrap();
    // Assert
    assert_eq!(expected, result);
}

#[test]
pub fn test_decode_uvarint_value_too_big() {
    // Setup
    let input: [u8; 5] = [0b11111111, 0b11111111, 0b11111111, 0b11111111, 0b01111111];
    let expected = DecodeUvarintError::ValueTooLarge;
    // Test
    let result = decode_uvarint(&mut input.iter()).unwrap_err();
    // Assert
    assert_eq!(expected, result);
}

/// Take a valid uvarint payload and erroneously set the next_bit on the last byte to a 1
/// This means more than 5 bytes would be read and there's no way we can fit more than 5
/// bytes in a u32 value.
#[test]
pub fn test_decode_uvarint_value_too_big_next_bit_set() {
    // Setup
    let input: [u8; 5] = [0b10001111, 0b11111111, 0b11111111, 0b11111111, 0b11111111];
    let expected = DecodeUvarintError::ValueTooLarge;
    // Test
    let result = decode_uvarint(&mut input.iter()).unwrap_err();
    // Assert
    assert_eq!(expected, result);
}

#[test]
fn encode_uvarint_two_groups() {
    assert_eq!(encode_uvarint(300), vec![0x82, 0x2c]);
    assert_eq!(encode_uvarint(16383), vec![0xff, 0x7f]);
    assert_eq!(encode_uvarint(16384), vec![0x81, 0x80, 0x00]);
}

#[test]
fn decode_uvarint_empty_is_eof() {
    let input: [u8; 0] = [];
    assert_eq!(decode_uvarint(&mut input.iter()), Err(DecodeUvarintError::UnexpectedEof));
}

#[test]
fn decode_uvarint_unfinished_is_eof() {
    let input: [u8; 4] = [0x81, 0x82, 0x83, 0x84];
    assert_eq!(decode_uvarint(&mut input.iter()), Err(DecodeUvarintError::UnexpectedEof));
    let one: [u8; 1] = [0x80];
    assert_eq!(decode_uvarint(&mut one.iter()), Err(DecodeUvarintError::UnexpectedEof));
}

#[test]
fn decode_uvarint_takes_no_byte_beyond_the_last_group() {
    let input: [u8; 4] = [0x81, 0x16, 0x7f, 0x01];
    let mut bytes = input.iter();
    assert_eq!(decode_uvarint(&mut bytes), Ok(150));
    assert_eq!(bytes.as_slice(), &[0x7f, 0x01]);
    assert_eq!(decode_uvarint(&mut bytes), Ok(127));
    assert_eq!(decode_uvarint(&mut bytes), Ok(1));
    assert_eq!(decode_uvarint(&mut bytes), Err(DecodeUvarintError::UnexpectedEof));
}

#[test]
fn decode_uvarint_takes_five_bytes_at_most() {
    let input: [u8; 7] = [0xff, 0xff, 0xff, 0xff, 0xff, 0x01, 0x02];
    let mut bytes = input.iter();
    assert_eq!(decode_uvarint(&mut bytes), Err(DecodeUvarintError::ValueTooLarge));
    assert_eq!(bytes.as_slice(), &[0x01, 0x02]);
}

#[test]
fn decode_uvarint_accepts_leading_zero_groups() {
    let input: [u8; 2] = [0x80, 0x05];
    assert_eq!(decode_uvarint(&mut input.iter()), Ok(5));
}

#[test]
fn uvarint_round_trip_on_chosen_values() {
    for value in
        [0u32, 1, 127, 128, 150, 16383, 16384, 2097151, 2097152, 268435455, 268435456, u32::MAX]
    {
        let bytes = encode_uvarint(value);
        assert_eq!(decode_uvarint(&mut bytes.iter()), Ok(value));
    }
}

#[test]
fn uvarint_step_reports_each_outcome() {
    assert!(matches!(uvarint_step(0, 0, 0x7f), UvarintStep::Done(127)));
    assert!(matches!(uvarint_step(0, 0, 0x81), UvarintStep::More(1)));
    assert!(matches!(uvarint_step(1, 1, 0x16), UvarintStep::Done(150)));
    assert!(matches!(uvarint_step(0x1ff_ffff, 4, 0x7f), UvarintStep::Done(u32::MAX)));
    assert!(matches!(uvarint_step(0x200_0000, 4, 0x00), UvarintStep::TooLarge));
    assert!(matches!(uvarint_step(0, 4, 0x80), UvarintStep::TooLarge));
}

#[test]
fn encode_uvarlong_boundaries() {
    assert_eq!(encode_uvarlong(0), vec![0x00]);
    assert_eq!(encode_uvarlong(150), vec![0x81, 0x16]);
    assert_eq!(encode_uvarlong(u32::MAX as u64), vec![0x8f, 0xff, 0xff, 0xff, 0x7f]);
    assert_eq!(
        encode_uvarlong(u64::MAX),
        vec![0x81, 0xff, 0xff, 0xff, 0xff, 0xff, 0xff, 0xff, 0xff, 0x7f]
    );
}

#[test]
fn uvarlong_step_reports_each_outcome() {
    assert!(matches!(uvarlong_step(0, 0, 0x7f), UvarlongStep::Done(127)));
    assert!(matches!(uvarlong_step(1, 1, 0x96), UvarlongStep::More(150)));
    assert!(matches!(
        uvarlong_step(0x1ff_ffff_ffff_ffff, 9, 0x7f),
        UvarlongStep::Done(u64::MAX)
    ));
    assert!(matches!(uvarlong_step(0x200_0000_0000_0000, 9, 0x00), UvarlongStep::TooLarge));
    assert!(matches!(uvarlong_step(0, 9, 0x80), UvarlongStep::TooLarge));
}

#[test]
fn zigzag_sends_small_magnitudes_to_small_numbers() {
    assert_eq!(zigzag_encode32(0), 0);
    assert_eq!(zigzag_encode32(-1), 1);
    assert_eq!(zigzag_encode32(1), 2);
    assert_eq!(zigzag_encode32(-2), 3);
    assert_eq!(zigzag_encode32(i32::MAX), 0xffff_fffe);
    assert_eq!(zigzag_encode32(i32::MIN), 0xffff_ffff);
    assert_eq!(zigzag_encode64(-1), 1);
    assert_eq!(zigzag_encode64(i64::MAX), 0xffff_ffff_ffff_fffe);
    assert_eq!(zigzag_encode64(i64::MIN), 0xffff_ffff_ffff_ffff);
}

#[test]
fn zigzag_round_trip_on_chosen_values() {
    for value in [0i32, -1, 1, -2, 2, 63, -64, 64, i32::MAX, i32::MIN] {
        assert_eq!(zigzag_decode32(zigzag_encode32(value)), value);
    }
    for value in [0i64, -1, 1, -2, 2, i64::MAX, i64::MIN] {
        assert_eq!(zigzag_decode64(zigzag_encode64(value)), value);
    }
    assert_eq!(zigzag_decode32(3), -2);
    assert_eq!(zigzag_decode64(4), 2);
}

#[test]
fn encode_signed_varints() {
    assert_eq!(encode_varint(0), vec![0x00]);
    assert_eq!(encode_varint(-1), vec![0x01]);
    assert_eq!(encode_varint(1), vec![0x02]);
    assert_eq!(encode_varint(-64), vec![0x7f]);
    assert_eq!(encode_varint(64), vec![0x81, 0x00]);
    assert_eq!(encode_varint(i32::MIN), vec![0x8f, 0xff, 0xff, 0xff, 0x7f]);
    assert_eq!(encode_varlong(-1), vec![0x01]);
    assert_eq!(
        encode_varlong(i64::MIN),
        vec![0x81, 0xff, 0xff, 0xff, 0xff, 0xff, 0xff, 0xff, 0xff, 0x7f]
    );
}
