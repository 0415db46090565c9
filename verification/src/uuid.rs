//! UUIDs: sixteen raw bytes on the wire, canonical text in the program.
//!
//! The text has 36 characters: 32 lower-case hexadecimal digits, two for each
//! byte in order, with hyphens after the 8th, 12th, 16th and 20th digit.
use crate::reader::string_from_utf8;
use vstd::pervasive::unreached;
use vstd::prelude::*;
use vstd::utf8::{
    encode_utf8, encode_utf8_valid_utf8, is_ascii_chars, is_ascii_chars_encode_utf8, valid_utf8,
};

verus! {

/// Length of the raw form.
pub const UUID_LEN: usize = 16;

/// Length of the text form.
pub const UUID_TEXT_LEN: usize = 36;

/// Whether the text has a hyphen at position `i`.
pub open spec fn is_hyphen_position(i: int) -> bool {
    i == 8 || i == 13 || i == 18 || i == 23
}

/// Which of the 32 digits stands at text position `i`.
pub open spec fn digit_index(i: int) -> int {
    if i > 23 {
        i - 4
    } else if i > 18 {
        i - 3
    } else if i > 13 {
        i - 2
    } else if i > 8 {
        i - 1
    } else {
        i
    }
}

/// The text position of the `k`-th digit.
pub open spec fn text_index(k: int) -> int {
    if k >= 20 {
        k + 4
    } else if k >= 16 {
        k + 3
    } else if k >= 12 {
        k + 2
    } else if k >= 8 {
        k + 1
    } else {
        k
    }
}

/// The character for a digit value below 16.
pub open spec fn hex_digit(n: int) -> u8 {
    if n < 10 {
        (0x30 + n) as u8
    } else {
        (0x61 + n - 10) as u8
    }
}

/// The value of a lower-case hexadecimal digit.
pub open spec fn hex_value(c: u8) -> Option<int> {
    if 0x30 <= c <= 0x39 {
        Some(c - 0x30)
    } else if 0x61 <= c <= 0x66 {
        Some(c - 0x61 + 10)
    } else {
        None
    }
}

/// The `k`-th half byte of `raw`, high half first.
pub open spec fn half_byte(raw: Seq<u8>, k: int) -> int {
    if k % 2 == 0 {
        raw[k / 2] as int / 16
    } else {
        raw[k / 2] as int % 16
    }
}

/// The text of a UUID, as the bytes of its characters.
pub open spec fn uuid_text_bytes(raw: Seq<u8>) -> Seq<u8> {
    Seq::new(
        36,
        |i: int|
            if is_hyphen_position(i) {
                0x2du8
            } else {
                hex_digit(half_byte(raw, digit_index(i)))
            },
    )
}

/// Whether `text` is the text of some UUID.
pub open spec fn is_uuid_text(text: Seq<u8>) -> bool {
    &&& text.len() == 36
    &&& forall|i: int|
        #![trigger text[i]]
        0 <= i < 36 ==> if is_hyphen_position(i) {
            text[i] == 0x2d
        } else {
            hex_value(text[i]) is Some
        }
}

/// The raw bytes that a UUID text stands for.
pub open spec fn uuid_raw_bytes(text: Seq<u8>) -> Seq<u8> {
    Seq::new(
        16,
        |j: int|
            (16 * hex_value(text[text_index(2 * j)])->0 + hex_value(
                text[text_index(2 * j + 1)],
            )->0) as u8,
    )
}

/// Raw bytes survive the way through text.
pub proof fn lemma_uuid_raw_round_trip(raw: Seq<u8>)
    requires
        raw.len() == 16,
    ensures
        is_uuid_text(uuid_text_bytes(raw)),
        uuid_raw_bytes(uuid_text_bytes(raw)) == raw,
{
    let text = uuid_text_bytes(raw);
    assert forall|j: int| 0 <= j < 16 implies #[trigger] uuid_raw_bytes(text)[j] == raw[j] by {
        assert(digit_index(text_index(2 * j)) == 2 * j);
        assert(digit_index(text_index(2 * j + 1)) == 2 * j + 1);
        assert(!is_hyphen_position(text_index(2 * j)));
        assert(!is_hyphen_position(text_index(2 * j + 1)));
    }
    assert(uuid_raw_bytes(text) =~= raw);
}

/// A UUID text survives the way through raw bytes.
pub proof fn lemma_uuid_text_round_trip(text: Seq<u8>)
    requires
        is_uuid_text(text),
    ensures
        uuid_raw_bytes(text).len() == 16,
        uuid_text_bytes(uuid_raw_bytes(text)) == text,
{
    let raw = uuid_raw_bytes(text);
    assert forall|i: int| 0 <= i < 36 implies #[trigger] uuid_text_bytes(raw)[i] == text[i] by {
        if !is_hyphen_position(i) {
            let k = digit_index(i);
            assert(text_index(k) == i);
            let j = k / 2;
            assert(hex_value(text[text_index(2 * j)]) is Some);
            assert(hex_value(text[text_index(2 * j + 1)]) is Some);
        }
    }
    assert(uuid_text_bytes(raw) =~= text);
}

/// Bytes below 128 are UTF-8.
pub proof fn lemma_ascii_is_utf8(bytes: Seq<u8>)
    requires
        forall|i: int| 0 <= i < bytes.len() ==> #[trigger] bytes[i] < 128,
    ensures
        valid_utf8(bytes),
{
    let chars = Seq::new(bytes.len(), |i: int| bytes[i] as char);
    assert(is_ascii_chars(chars)) by {
        assert forall|i: int| 0 <= i < chars.len() implies '\0' <= #[trigger] chars[i]
            <= '\u{7f}' by {
            assert(bytes[i] < 128);
        }
    }
    is_ascii_chars_encode_utf8(chars);
    assert(encode_utf8(chars) =~= bytes);
    encode_utf8_valid_utf8(chars);
}

fn hex_digit_of(n: u8) -> (c: u8)
    requires
        n < 16,
    ensures
        c == hex_digit(n as int),
        c < 128,
{
    if n < 10 {
        0x30 + n
    } else {
        0x61 + (n - 10)
    }
}

fn hex_value_of(c: u8) -> (r: Option<u8>)
    ensures
        match r {
            Some(n) => hex_value(c) == Some(n as int) && n < 16,
            None => hex_value(c) is None,
        },
{
    if 0x30 <= c && c <= 0x39 {
        Some(c - 0x30)
    } else if 0x61 <= c && c <= 0x66 {
        Some(c - 0x61 + 10)
    } else {
        None
    }
}

/// Spells sixteen raw bytes as UUID text.
pub fn uuid_to_text(raw: &[u8]) -> (text: String)
    requires
        raw.len() == UUID_LEN,
    ensures
        encode_utf8(text@) == uuid_text_bytes(raw@),
{
    let mut out: Vec<u8> = Vec::new();
    let mut i: usize = 0;
    while i < UUID_TEXT_LEN
        invariant
            i <= UUID_TEXT_LEN,
            raw.len() == UUID_LEN,
            out.len() == i,
            forall|p: int| 0 <= p < i ==> #[trigger] out[p] == uuid_text_bytes(raw@)[p],
            forall|p: int| 0 <= p < i ==> #[trigger] out[p] < 128,
        decreases UUID_TEXT_LEN - i,
    {
        if i == 8 || i == 13 || i == 18 || i == 23 {
            out.push(0x2d);
        } else {
            let k: usize = if i > 23 {
                i - 4
            } else if i > 18 {
                i - 3
            } else if i > 13 {
                i - 2
            } else if i > 8 {
                i - 1
            } else {
                i
            };
            let byte: u8 = raw[k / 2];
            let half: u8 = if k % 2 == 0 {
                byte / 16
            } else {
                byte % 16
            };
            out.push(hex_digit_of(half));
        }
        i = i + 1;
    }
    proof {
        assert(out@ =~= uuid_text_bytes(raw@));
        lemma_ascii_is_utf8(out@);
    }
    match string_from_utf8(out) {
        Some(text) => text,
        None => unreached(),
    }
}

/// Reads UUID text back into its sixteen raw bytes; `None` if `text` is not
/// the canonical text of a UUID.
pub fn uuid_from_text(text: &str) -> (r: Option<Vec<u8>>)
    ensures
        match r {
            Some(raw) => is_uuid_text(encode_utf8(text@)) && raw@ == uuid_raw_bytes(
                encode_utf8(text@),
            ),
            None => !is_uuid_text(encode_utf8(text@)),
        },
{
    let bytes = text.as_bytes();
    if bytes.len() != UUID_TEXT_LEN {
        return None;
    }
    let mut digits: Vec<u8> = Vec::new();
    let mut i: usize = 0;
    while i < UUID_TEXT_LEN
        invariant
            i <= UUID_TEXT_LEN,
            bytes.len() == UUID_TEXT_LEN,
            bytes@ == encode_utf8(text@),
            digits.len() == digit_index(i as int),
            forall|p: int|
                #![trigger bytes[p]]
                0 <= p < i ==> if is_hyphen_position(p) {
                    bytes[p] == 0x2d
                } else {
                    hex_value(bytes[p]) is Some
                },
            forall|k: int|
                0 <= k < digits.len() ==> hex_value(bytes[text_index(k)]) == Some(
                    #[trigger] digits[k] as int,
                ) && digits[k] < 16,
        decreases UUID_TEXT_LEN - i,
    {
        if i == 8 || i == 13 || i == 18 || i == 23 {
            if bytes[i] != 0x2d {
                return None;
            }
        } else {
            match hex_value_of(bytes[i]) {
                None => {
                    return None;
                },
                Some(n) => {
                    assert(text_index(digits.len() as int) == i);
                    digits.push(n);
                },
            }
        }
        i = i + 1;
    }
    let mut raw: Vec<u8> = Vec::new();
    let mut j: usize = 0;
    while j < UUID_LEN
        invariant
            j <= UUID_LEN,
            digits.len() == 32,
            raw.len() == j,
            forall|k: int| 0 <= k < 32 ==> #[trigger] digits[k] < 16,
            forall|q: int|
                0 <= q < j ==> #[trigger] raw[q] == 16 * digits[2 * q] + digits[2 * q + 1],
        decreases UUID_LEN - j,
    {
        raw.push(digits[2 * j] * 16 + digits[2 * j + 1]);
        j = j + 1;
    }
    assert(raw@ =~= uuid_raw_bytes(bytes@));
    Some(raw)
}

} // verus!
