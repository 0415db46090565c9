//! The reading half of the codec: what every source of bytes offers, and a
//! model of what each operation makes of the bytes in front of it.
//!
//! Every operation is a sequence of reads of raw byte runs.  A raw read either
//! takes its whole run or fails and takes nothing; an operation stops at its
//! first failing step, and what the steps before it took stays taken.
use crate::enc::{
    groups_consumed, groups_decoding, groups_value, has_continuation, lemma_continuation_run,
    lemma_groups_value_bound, lemma_groups_value_take, unzigzag, uvarint_step, uvarlong_step,
    zigzag_decode32, zigzag_decode64, DecodeUvarintError, UvarintStep, UvarlongStep,
    MAX_UVARINT_LEN, MAX_UVARLONG_LEN,
};
use crate::uuid::{uuid_text_bytes, uuid_to_text};
use crate::wire::{
    be_decode, be_value, bytes_bound, lemma_be_value_bound, lemma_signed_bytes_of_value,
    signed_decode, signed_value,
};
use vstd::prelude::*;
use vstd::utf8::{decode_utf8, encode_utf8, encode_utf8_decode_utf8, valid_utf8};

verus! {

/// Why a value could not be read.
#[derive(Debug, PartialEq, Eq, Structural, Clone, Copy)]
pub enum ReaderError {
    /// The source ended before the value did.
    UnexpectedEndOfInput,
    /// A length prefix is negative where only a length may stand.
    NegativeLength,
    /// A compact length prefix marks absence where a value must be present.
    InvalidNull,
    /// A variable-length integer does not fit the width asked for.
    ValueTooLarge,
    /// The bytes of a string are not UTF-8.
    InvalidUtf8,
}

pub type ReaderResult<T> = Result<T, ReaderError>;

/// What an operation makes of an input: the value or the error, and the bytes
/// that are left for the next operation.
pub ghost struct Parsed<T> {
    pub value: Result<T, ReaderError>,
    pub rest: Seq<u8>,
}

/// The model of an executable result: the view of the value, or the error.
pub open spec fn view_result<T: View>(r: ReaderResult<T>) -> Result<T::V, ReaderError> {
    match r {
        Ok(v) => Ok(v@),
        Err(e) => Err(e),
    }
}

/// The model of an executable result that may be absent.
pub open spec fn view_optional<T: View>(r: ReaderResult<Option<T>>) -> Result<
    Option<T::V>,
    ReaderError,
> {
    match r {
        Ok(Some(v)) => Ok(Some(v@)),
        Ok(None) => Ok(None),
        Err(e) => Err(e),
    }
}

/// A run of `count` raw bytes: taken whole, or not at all.
pub open spec fn parse_raw_bytes(s: Seq<u8>, count: nat) -> Parsed<Seq<u8>> {
    if count <= s.len() {
        Parsed { value: Ok(s.take(count as int)), rest: s.skip(count as int) }
    } else {
        Parsed { value: Err(ReaderError::UnexpectedEndOfInput), rest: s }
    }
}

/// One byte: zero is false, anything else is true.
pub open spec fn parse_bool(s: Seq<u8>) -> Parsed<bool> {
    match parse_raw_bytes(s, 1).value {
        Ok(b) => Parsed { value: Ok(b[0] != 0), rest: s.skip(1) },
        Err(e) => Parsed { value: Err(e), rest: s },
    }
}

/// A signed big-endian field of `width` bytes.
pub open spec fn parse_signed(s: Seq<u8>, width: nat) -> Parsed<int> {
    match parse_raw_bytes(s, width).value {
        Ok(b) => Parsed { value: Ok(signed_value(b)), rest: s.skip(width as int) },
        Err(e) => Parsed { value: Err(e), rest: s },
    }
}

/// An unsigned big-endian field of `width` bytes.
pub open spec fn parse_unsigned(s: Seq<u8>, width: nat) -> Parsed<nat> {
    match parse_raw_bytes(s, width).value {
        Ok(b) => Parsed { value: Ok(be_value(b)), rest: s.skip(width as int) },
        Err(e) => Parsed { value: Err(e), rest: s },
    }
}

pub open spec fn parse_i8(s: Seq<u8>) -> Parsed<i8> {
    match parse_signed(s, 1).value {
        Ok(v) => Parsed { value: Ok(v as i8), rest: s.skip(1) },
        Err(e) => Parsed { value: Err(e), rest: s },
    }
}

pub open spec fn parse_i16(s: Seq<u8>) -> Parsed<i16> {
    match parse_signed(s, 2).value {
        Ok(v) => Parsed { value: Ok(v as i16), rest: s.skip(2) },
        Err(e) => Parsed { value: Err(e), rest: s },
    }
}

pub open spec fn parse_i32(s: Seq<u8>) -> Parsed<i32> {
    match parse_signed(s, 4).value {
        Ok(v) => Parsed { value: Ok(v as i32), rest: s.skip(4) },
        Err(e) => Parsed { value: Err(e), rest: s },
    }
}

pub open spec fn parse_i64(s: Seq<u8>) -> Parsed<i64> {
    match parse_signed(s, 8).value {
        Ok(v) => Parsed { value: Ok(v as i64), rest: s.skip(8) },
        Err(e) => Parsed { value: Err(e), rest: s },
    }
}

pub open spec fn parse_u32(s: Seq<u8>) -> Parsed<u32> {
    match parse_unsigned(s, 4).value {
        Ok(v) => Parsed { value: Ok(v as u32), rest: s.skip(4) },
        Err(e) => Parsed { value: Err(e), rest: s },
    }
}

/// The reader's name for each way in which a variable-length integer fails.
pub open spec fn varint_error(e: DecodeUvarintError) -> ReaderError {
    match e {
        DecodeUvarintError::UnexpectedEof => ReaderError::UnexpectedEndOfInput,
        DecodeUvarintError::ValueTooLarge => ReaderError::ValueTooLarge,
    }
}

/// A variable-length integer of at most `max_len` groups and at most
/// `max_value`.  The bytes looked at are taken, also when decoding fails.
pub open spec fn parse_groups(s: Seq<u8>, max_len: nat, max_value: nat) -> Parsed<nat> {
    Parsed {
        value: match groups_decoding(s, max_len, max_value) {
            Ok(v) => Ok(v),
            Err(e) => Err(varint_error(e)),
        },
        rest: s.skip(groups_consumed(s, max_len) as int),
    }
}

pub open spec fn parse_unsigned_varint(s: Seq<u8>) -> Parsed<u32> {
    let p = parse_groups(s, 5, 0xffff_ffff);
    Parsed {
        value: match p.value {
            Ok(v) => Ok(v as u32),
            Err(e) => Err(e),
        },
        rest: p.rest,
    }
}

pub open spec fn parse_unsigned_varlong(s: Seq<u8>) -> Parsed<u64> {
    let p = parse_groups(s, 10, 0xffff_ffff_ffff_ffff);
    Parsed {
        value: match p.value {
            Ok(v) => Ok(v as u64),
            Err(e) => Err(e),
        },
        rest: p.rest,
    }
}

pub open spec fn parse_varint(s: Seq<u8>) -> Parsed<i32> {
    let p = parse_groups(s, 5, 0xffff_ffff);
    Parsed {
        value: match p.value {
            Ok(v) => Ok(unzigzag(v) as i32),
            Err(e) => Err(e),
        },
        rest: p.rest,
    }
}

pub open spec fn parse_varlong(s: Seq<u8>) -> Parsed<i64> {
    let p = parse_groups(s, 10, 0xffff_ffff_ffff_ffff);
    Parsed {
        value: match p.value {
            Ok(v) => Ok(unzigzag(v) as i64),
            Err(e) => Err(e),
        },
        rest: p.rest,
    }
}

/// Sixteen raw bytes, spelled as the canonical text of a UUID.
pub open spec fn parse_uuid(s: Seq<u8>) -> Parsed<Seq<char>> {
    match parse_raw_bytes(s, 16).value {
        Ok(b) => Parsed { value: Ok(decode_utf8(uuid_text_bytes(b))), rest: s.skip(16) },
        Err(e) => Parsed { value: Err(e), rest: s },
    }
}

/// A run of `count` bytes read as UTF-8 text.  The bytes are taken also when
/// they are not UTF-8.
pub open spec fn parse_text(s: Seq<u8>, count: nat) -> Parsed<Seq<char>> {
    match parse_raw_bytes(s, count).value {
        Ok(b) => Parsed { value: text_model(b), rest: s.skip(count as int) },
        Err(e) => Parsed { value: Err(e), rest: s },
    }
}

/// The text that a run of bytes spells, if it is UTF-8.
pub open spec fn text_model(b: Seq<u8>) -> Result<Seq<char>, ReaderError> {
    if valid_utf8(b) {
        Ok(decode_utf8(b))
    } else {
        Err(ReaderError::InvalidUtf8)
    }
}

/// Marks the value of a successful result as present.
pub open spec fn present<T>(p: Parsed<T>) -> Parsed<Option<T>> {
    Parsed {
        value: match p.value {
            Ok(v) => Ok(Some(v)),
            Err(e) => Err(e),
        },
        rest: p.rest,
    }
}

/// A string behind a signed 16-bit length.  A negative length is an error.
pub open spec fn parse_string(s: Seq<u8>) -> Parsed<Seq<char>> {
    let p = parse_i16(s);
    match p.value {
        Ok(len) => if len < 0 {
            Parsed { value: Err(ReaderError::NegativeLength), rest: p.rest }
        } else {
            parse_text(p.rest, len as nat)
        },
        Err(e) => Parsed { value: Err(e), rest: p.rest },
    }
}

/// A string behind a signed 16-bit length, where the length -1 stands for
/// "no string".  Any other negative length is an error.
pub open spec fn parse_nullable_string(s: Seq<u8>) -> Parsed<Option<Seq<char>>> {
    let p = parse_i16(s);
    match p.value {
        Ok(len) => if len == -1 {
            Parsed { value: Ok(None), rest: p.rest }
        } else if len < 0 {
            Parsed { value: Err(ReaderError::NegativeLength), rest: p.rest }
        } else {
            present(parse_text(p.rest, len as nat))
        },
        Err(e) => Parsed { value: Err(e), rest: p.rest },
    }
}

/// A string behind a variable-length prefix that holds the length plus one.
/// The prefix zero, which stands for "no string", is an error here.
pub open spec fn parse_compact_string(s: Seq<u8>) -> Parsed<Seq<char>> {
    let p = parse_unsigned_varint(s);
    match p.value {
        Ok(n) => if n == 0 {
            Parsed { value: Err(ReaderError::InvalidNull), rest: p.rest }
        } else {
            parse_text(p.rest, (n - 1) as nat)
        },
        Err(e) => Parsed { value: Err(e), rest: p.rest },
    }
}

/// A string behind a variable-length prefix that holds the length plus one,
/// where the prefix zero stands for "no string".
pub open spec fn parse_compact_nullable_string(s: Seq<u8>) -> Parsed<Option<Seq<char>>> {
    let p = parse_unsigned_varint(s);
    match p.value {
        Ok(n) => if n == 0 {
            Parsed { value: Ok(None), rest: p.rest }
        } else {
            present(parse_text(p.rest, (n - 1) as nat))
        },
        Err(e) => Parsed { value: Err(e), rest: p.rest },
    }
}

/// A byte array behind a signed 16-bit length.  A negative length is an error.
pub open spec fn parse_bytes(s: Seq<u8>) -> Parsed<Seq<u8>> {
    let p = parse_i16(s);
    match p.value {
        Ok(len) => if len < 0 {
            Parsed { value: Err(ReaderError::NegativeLength), rest: p.rest }
        } else {
            parse_raw_bytes(p.rest, len as nat)
        },
        Err(e) => Parsed { value: Err(e), rest: p.rest },
    }
}

/// A byte array behind a signed 16-bit length, where the length -1 stands for
/// "no array".  Any other negative length is an error.
pub open spec fn parse_nullable_bytes(s: Seq<u8>) -> Parsed<Option<Seq<u8>>> {
    let p = parse_i16(s);
    match p.value {
        Ok(len) => if len == -1 {
            Parsed { value: Ok(None), rest: p.rest }
        } else if len < 0 {
            Parsed { value: Err(ReaderError::NegativeLength), rest: p.rest }
        } else {
            present(parse_raw_bytes(p.rest, len as nat))
        },
        Err(e) => Parsed { value: Err(e), rest: p.rest },
    }
}

/// A byte array behind a variable-length prefix that holds the length plus
/// one.  The prefix zero, which stands for "no array", is an error here.
pub open spec fn parse_compact_bytes(s: Seq<u8>) -> Parsed<Seq<u8>> {
    let p = parse_unsigned_varint(s);
    match p.value {
        Ok(n) => if n == 0 {
            Parsed { value: Err(ReaderError::InvalidNull), rest: p.rest }
        } else {
            parse_raw_bytes(p.rest, (n - 1) as nat)
        },
        Err(e) => Parsed { value: Err(e), rest: p.rest },
    }
}

/// A byte array behind a variable-length prefix that holds the length plus
/// one, where the prefix zero stands for "no array".
pub open spec fn parse_compact_nullable_bytes(s: Seq<u8>) -> Parsed<Option<Seq<u8>>> {
    let p = parse_unsigned_varint(s);
    match p.value {
        Ok(n) => if n == 0 {
            Parsed { value: Ok(None), rest: p.rest }
        } else {
            present(parse_raw_bytes(p.rest, (n - 1) as nat))
        },
        Err(e) => Parsed { value: Err(e), rest: p.rest },
    }
}

/// `String::from_utf8` of the standard library, with its error dropped.
/// Nothing of this is proved.  The contract claims what the documentation of
/// `String::from_utf8` states: the call succeeds exactly when the bytes are
/// UTF-8 (which `valid_utf8` is taken to define), and the string then consists
/// of the bytes given.
#[verifier::external_body]
pub(crate) fn string_from_utf8(bytes: Vec<u8>) -> (r: Option<String>)
    ensures
        r is Some <==> valid_utf8(bytes@),
        r matches Some(text) ==> encode_utf8(text@) == bytes@,
{
    String::from_utf8(bytes).ok()
}

/// Reads a run of bytes as text.
pub fn text_of(bytes: Vec<u8>) -> (r: ReaderResult<String>)
    ensures
        view_result(r) == text_model(bytes@),
{
    match string_from_utf8(bytes) {
        Some(text) => {
            proof {
                encode_utf8_decode_utf8(text@);
            }
            Ok(text)
        },
        None => Err(ReaderError::InvalidUtf8),
    }
}

/// A source of bytes that hands out typed values from its front.
///
/// An implementation says what input it still holds and how to take a run of
/// raw bytes from it; every other operation is built from those.
pub trait Reader {
    /// The bytes that have not been read yet.
    spec fn remaining(&self) -> Seq<u8>;

    /// Whether every byte has been read.
    fn at_end(&self) -> (b: bool)
        ensures
            b == (self.remaining().len() == 0),
    ;

    /// Takes `count` bytes, or fails and takes none.
    fn next_raw_bytes(&mut self, count: u32) -> (r: ReaderResult<Vec<u8>>)
        ensures
            view_result(r) == parse_raw_bytes(old(self).remaining(), count as nat).value,
            final(self).remaining() == parse_raw_bytes(old(self).remaining(), count as nat).rest,
    ;

    /// Reads one byte as a truth value.
    fn next_bool(&mut self) -> (r: ReaderResult<bool>)
        ensures
            r == parse_bool(old(self).remaining()).value,
            final(self).remaining() == parse_bool(old(self).remaining()).rest,
    {
        let b = self.next_raw_bytes(1)?;
        Ok(b[0] != 0)
    }

    /// Reads a signed 8-bit integer.
    fn next_i8(&mut self) -> (r: ReaderResult<i8>)
        ensures
            r == parse_i8(old(self).remaining()).value,
            final(self).remaining() == parse_i8(old(self).remaining()).rest,
    {
        let b = self.next_raw_bytes(1)?;
        proof {
            reveal_with_fuel(bytes_bound, 2);
            lemma_signed_bytes_of_value(b@);
        }
        Ok(signed_decode(b.as_slice()) as i8)
    }

    /// Reads a signed 16-bit integer.
    fn next_i16(&mut self) -> (r: ReaderResult<i16>)
        ensures
            r == parse_i16(old(self).remaining()).value,
            final(self).remaining() == parse_i16(old(self).remaining()).rest,
    {
        let b = self.next_raw_bytes(2)?;
        proof {
            reveal_with_fuel(bytes_bound, 3);
            lemma_signed_bytes_of_value(b@);
        }
        Ok(signed_decode(b.as_slice()) as i16)
    }

    /// Reads a signed 32-bit integer.
    fn next_i32(&mut self) -> (r: ReaderResult<i32>)
        ensures
            r == parse_i32(old(self).remaining()).value,
            final(self).remaining() == parse_i32(old(self).remaining()).rest,
    {
        let b = self.next_raw_bytes(4)?;
        proof {
            reveal_with_fuel(bytes_bound, 5);
            lemma_signed_bytes_of_value(b@);
        }
        Ok(signed_decode(b.as_slice()) as i32)
    }

    /// Reads a signed 64-bit integer.
    fn next_i64(&mut self) -> (r: ReaderResult<i64>)
        ensures
            r == parse_i64(old(self).remaining()).value,
            final(self).remaining() == parse_i64(old(self).remaining()).rest,
    {
        let b = self.next_raw_bytes(8)?;
        Ok(signed_decode(b.as_slice()))
    }

    /// Reads an unsigned 32-bit integer.
    fn next_u32(&mut self) -> (r: ReaderResult<u32>)
        ensures
            r == parse_u32(old(self).remaining()).value,
            final(self).remaining() == parse_u32(old(self).remaining()).rest,
    {
        let b = self.next_raw_bytes(4)?;
        proof {
            reveal_with_fuel(bytes_bound, 5);
            lemma_be_value_bound(b@);
        }
        Ok(be_decode(b.as_slice()) as u32)
    }

    /// Reads an unsigned 32-bit integer of variable length.
    fn next_unsigned_varint(&mut self) -> (r: ReaderResult<u32>)
        ensures
            r == parse_unsigned_varint(old(self).remaining()).value,
            final(self).remaining() == parse_unsigned_varint(old(self).remaining()).rest,
    {
        let ghost s = self.remaining();
        let mut acc: u32 = 0;
        let mut index: usize = 0;
        assert(s.take(0) =~= Seq::<u8>::empty());
        assert(s.skip(0) =~= s);
        loop
            invariant
                index < MAX_UVARINT_LEN,
                index <= s.len(),
                s == old(self).remaining(),
                self.remaining() == s.skip(index as int),
                forall|j: int| 0 <= j < index ==> has_continuation(#[trigger] s[j]),
                acc == groups_value(s.take(index as int)),
            decreases MAX_UVARINT_LEN - index,
        {
            proof {
                lemma_groups_value_bound(s.take(index as int));
                lemma_continuation_run(s, index as nat);
            }
            let b = match self.next_raw_bytes(1) {
                Ok(b) => b,
                Err(e) => {
                    return Err(e);
                },
            };
            proof {
                assert(b[0] == s[index as int]);
                assert(s.skip(index as int).skip(1) =~= s.skip(index + 1));
                lemma_groups_value_take(s, index as int);
                if has_continuation(b[0]) {
                    lemma_continuation_run(s, (index + 1) as nat);
                }
            }
            match uvarint_step(acc, index, b[0]) {
                UvarintStep::Done(value) => {
                    return Ok(value);
                },
                UvarintStep::TooLarge => {
                    return Err(ReaderError::ValueTooLarge);
                },
                UvarintStep::More(next) => {
                    acc = next;
                    index = index + 1;
                },
            }
        }
    }

    /// Reads a signed 32-bit integer of variable length.
    fn next_varint(&mut self) -> (r: ReaderResult<i32>)
        ensures
            r == parse_varint(old(self).remaining()).value,
            final(self).remaining() == parse_varint(old(self).remaining()).rest,
    {
        let u = self.next_unsigned_varint()?;
        Ok(zigzag_decode32(u))
    }

    /// Reads an unsigned 64-bit integer of variable length.
    fn next_unsigned_varlong(&mut self) -> (r: ReaderResult<u64>)
        ensures
            r == parse_unsigned_varlong(old(self).remaining()).value,
            final(self).remaining() == parse_unsigned_varlong(old(self).remaining()).rest,
    {
        let ghost s = self.remaining();
        let mut acc: u64 = 0;
        let mut index: usize = 0;
        assert(s.take(0) =~= Seq::<u8>::empty());
        assert(s.skip(0) =~= s);
        loop
            invariant
                index < MAX_UVARLONG_LEN,
                index <= s.len(),
                s == old(self).remaining(),
                self.remaining() == s.skip(index as int),
                forall|j: int| 0 <= j < index ==> has_continuation(#[trigger] s[j]),
                acc == groups_value(s.take(index as int)),
            decreases MAX_UVARLONG_LEN - index,
        {
            proof {
                lemma_groups_value_bound(s.take(index as int));
                lemma_continuation_run(s, index as nat);
            }
            let b = match self.next_raw_bytes(1) {
                Ok(b) => b,
                Err(e) => {
                    return Err(e);
                },
            };
            proof {
                assert(b[0] == s[index as int]);
                assert(s.skip(index as int).skip(1) =~= s.skip(index + 1));
                lemma_groups_value_take(s, index as int);
                if has_continuation(b[0]) {
                    lemma_continuation_run(s, (index + 1) as nat);
                }
            }
            match uvarlong_step(acc, index, b[0]) {
                UvarlongStep::Done(value) => {
                    return Ok(value);
                },
                UvarlongStep::TooLarge => {
                    return Err(ReaderError::ValueTooLarge);
                },
                UvarlongStep::More(next) => {
                    acc = next;
                    index = index + 1;
                },
            }
        }
    }

    /// Reads a signed 64-bit integer of variable length.
    fn next_varlong(&mut self) -> (r: ReaderResult<i64>)
        ensures
            r == parse_varlong(old(self).remaining()).value,
            final(self).remaining() == parse_varlong(old(self).remaining()).rest,
    {
        let u = self.next_unsigned_varlong()?;
        Ok(zigzag_decode64(u))
    }

    /// Reads the sixteen bytes of a UUID and spells them as text.
    fn next_uuid(&mut self) -> (r: ReaderResult<String>)
        ensures
            view_result(r) == parse_uuid(old(self).remaining()).value,
            final(self).remaining() == parse_uuid(old(self).remaining()).rest,
    {
        let raw = self.next_raw_bytes(16)?;
        let text = uuid_to_text(raw.as_slice());
        proof {
            encode_utf8_decode_utf8(text@);
        }
        Ok(text)
    }

    /// Reads a string behind a 16-bit length.
    fn next_string(&mut self) -> (r: ReaderResult<String>)
        ensures
            view_result(r) == parse_string(old(self).remaining()).value,
            final(self).remaining() == parse_string(old(self).remaining()).rest,
    {
        let len = self.next_i16()?;
        if len < 0 {
            return Err(ReaderError::NegativeLength);
        }
        let bytes = self.next_raw_bytes(len as u32)?;
        text_of(bytes)
    }

    /// Reads a string behind a compact length.
    fn next_compact_string(&mut self) -> (r: ReaderResult<String>)
        ensures
            view_result(r) == parse_compact_string(old(self).remaining()).value,
            final(self).remaining() == parse_compact_string(old(self).remaining()).rest,
    {
        let n = self.next_unsigned_varint()?;
        if n == 0 {
            return Err(ReaderError::InvalidNull);
        }
        let bytes = self.next_raw_bytes(n - 1)?;
        text_of(bytes)
    }

    /// Reads a string that may be absent, behind a 16-bit length.
    fn next_nullable_string(&mut self) -> (r: ReaderResult<Option<String>>)
        ensures
            view_optional(r) == parse_nullable_string(old(self).remaining()).value,
            final(self).remaining() == parse_nullable_string(old(self).remaining()).rest,
    {
        let len = self.next_i16()?;
        if len == -1 {
            return Ok(None);
        }
        if len < 0 {
            return Err(ReaderError::NegativeLength);
        }
        let bytes = self.next_raw_bytes(len as u32)?;
        Ok(Some(text_of(bytes)?))
    }

    /// Reads a string that may be absent, behind a compact length.
    fn next_compact_nullable_string(&mut self) -> (r: ReaderResult<Option<String>>)
        ensures
            view_optional(r) == parse_compact_nullable_string(old(self).remaining()).value,
            final(self).remaining() == parse_compact_nullable_string(old(self).remaining()).rest,
    {
        let n = self.next_unsigned_varint()?;
        if n == 0 {
            return Ok(None);
        }
        let bytes = self.next_raw_bytes(n - 1)?;
        Ok(Some(text_of(bytes)?))
    }

    /// Reads a byte array behind a 16-bit length.
    fn next_bytes(&mut self) -> (r: ReaderResult<Vec<u8>>)
        ensures
            view_result(r) == parse_bytes(old(self).remaining()).value,
            final(self).remaining() == parse_bytes(old(self).remaining()).rest,
    {
        let len = self.next_i16()?;
        if len < 0 {
            return Err(ReaderError::NegativeLength);
        }
        self.next_raw_bytes(len as u32)
    }

    /// Reads a byte array behind a compact length.
    fn next_compact_bytes(&mut self) -> (r: ReaderResult<Vec<u8>>)
        ensures
            view_result(r) == parse_compact_bytes(old(self).remaining()).value,
            final(self).remaining() == parse_compact_bytes(old(self).remaining()).rest,
    {
        let n = self.next_unsigned_varint()?;
        if n == 0 {
            return Err(ReaderError::InvalidNull);
        }
        self.next_raw_bytes(n - 1)
    }

    /// Reads a byte array that may be absent, behind a 16-bit length.
    fn next_nullable_bytes(&mut self) -> (r: ReaderResult<Option<Vec<u8>>>)
        ensures
            view_optional(r) == parse_nullable_bytes(old(self).remaining()).value,
            final(self).remaining() == parse_nullable_bytes(old(self).remaining()).rest,
    {
        let len = self.next_i16()?;
        if len == -1 {
            return Ok(None);
        }
        if len < 0 {
            return Err(ReaderError::NegativeLength);
        }
        Ok(Some(self.next_raw_bytes(len as u32)?))
    }

    /// Reads a byte array that may be absent, behind a compact length.
    fn next_compact_nullable_bytes(&mut self) -> (r: ReaderResult<Option<Vec<u8>>>)
        ensures
            view_optional(r) == parse_compact_nullable_bytes(old(self).remaining()).value,
            final(self).remaining() == parse_compact_nullable_bytes(old(self).remaining()).rest,
    {
        let n = self.next_unsigned_varint()?;
        if n == 0 {
            return Ok(None);
        }
        Ok(Some(self.next_raw_bytes(n - 1)?))
    }
}

} // verus!
