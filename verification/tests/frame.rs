use abkaf::frame::{frame, frame_prefix, payload_len};

#[test]
fn frame_prefix_is_the_length_in_four_bytes() {
    assert_eq!(frame_prefix(0), Some(vec![0, 0, 0, 0]));
    assert_eq!(frame_prefix(29), Some(vec![0, 0, 0, 29]));
    assert_eq!(frame_prefix(0x0102_0304), Some(vec![1, 2, 3, 4]));
    assert_eq!(frame_prefix(0x7fff_ffff), Some(vec![0x7f, 0xff, 0xff, 0xff]));
}

#[test]
fn frame_prefix_of_a_length_beyond_31_bits() {
    assert_eq!(frame_prefix(0x8000_0000), None);
    assert_eq!(frame_prefix(usize::MAX), None);
}

#[test]
fn frame_puts_the_length_before_the_payload() {
    assert_eq!(frame(&[]), Some(vec![0, 0, 0, 0]));
    assert_eq!(frame(&[0xaa, 0xbb, 0xcc]), Some(vec![0, 0, 0, 3, 0xaa, 0xbb, 0xcc]));
}

#[test]
fn payload_len_reads_the_prefix() {
    assert_eq!(payload_len([0, 0, 0, 0]), Some(0));
    assert_eq!(payload_len([0, 0, 1, 0]), Some(256));
    assert_eq!(payload_len([0x7f, 0xff, 0xff, 0xff]), Some(0x7fff_ffff));
}

#[test]
fn payload_len_of_a_negative_prefix() {
    assert_eq!(payload_len([0xff, 0xff, 0xff, 0xff]), None);
    assert_eq!(payload_len([0x80, 0, 0, 0]), None);
}

#[test]
fn frame_prefix_is_read_back() {
    for len in [0usize, 1, 255, 256, 65536, 0x7fff_ffff] {
        let prefix = frame_prefix(len).unwrap();
        assert_eq!(payload_len([prefix[0], prefix[1], prefix[2], prefix[3]]), Some(len));
    }
}
