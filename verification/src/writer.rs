//! The writing half of the codec: what every sink of bytes offers, and the
//! byte layout of each value.
//!
//! Every operation hands the sink one run of bytes: the whole encoding of its
//! value.  The sink takes the run whole or, when it has no room for it, not
//! at all.  A value that has no encoding never reaches the sink.
use crate::enc::{
    encode_uvarint, encode_uvarlong, encode_varint, encode_varlong, uvarint_encoding, zigzag,
};
use crate::wire::{
    append_bytes, be_bytes, be_encode, bytes_bound, signed_bytes, signed_encode,
};
use crate::uuid::{is_uuid_text, uuid_from_text, uuid_raw_bytes};
use vstd::prelude::*;
use vstd::utf8::encode_utf8;

verus! {

/// Why a value could not be written.
#[derive(Debug, PartialEq, Eq, Structural, Clone, Copy)]
pub enum WriterError {
    /// The value, or its length, does not fit the width of its wire form.
    ValueOutOfRange,
    /// The sink has no room for the encoding.
    BufferOverflow,
}

pub type WriterResult = Result<(), WriterError>;

/// What an operation leaves behind: its result, and all that the sink holds
/// after it.
pub ghost struct Emitted {
    pub result: WriterResult,
    pub written: Seq<u8>,
}

/// Hands `bytes` to a sink that holds `written` and has room for `capacity`
/// bytes in all.
pub open spec fn emit(written: Seq<u8>, capacity: nat, bytes: Seq<u8>) -> Emitted {
    if written.len() + bytes.len() <= capacity {
        Emitted { result: Ok(()), written: written + bytes }
    } else {
        Emitted { result: Err(WriterError::BufferOverflow), written }
    }
}

/// Hands an encoding to the sink, if there is one.
pub open spec fn emit_checked(
    written: Seq<u8>,
    capacity: nat,
    encoding: Result<Seq<u8>, WriterError>,
) -> Emitted {
    match encoding {
        Ok(bytes) => emit(written, capacity, bytes),
        Err(e) => Emitted { result: Err(e), written },
    }
}

/// Goes on with the next encoding after a successful step, and stops after a
/// failed one.
pub open spec fn then_emit(
    before: Emitted,
    capacity: nat,
    encoding: Result<Seq<u8>, WriterError>,
) -> Emitted {
    if before.result is Ok {
        emit_checked(before.written, capacity, encoding)
    } else {
        before
    }
}

/// A truth value is the byte 1 or the byte 0.
pub open spec fn bool_bytes(value: bool) -> Seq<u8> {
    seq![if value { 1u8 } else { 0u8 }]
}

/// Largest length that a signed 16-bit prefix can announce.
pub const MAX_PREFIXED_LEN: usize = 0x7fff;

/// Largest length that a compact prefix can announce: the prefix holds the
/// length plus one in 32 bits.
pub const MAX_COMPACT_LEN: usize = 0xffff_fffe;

/// A byte array behind a signed 16-bit length.
pub open spec fn bytes_encoding(value: Seq<u8>) -> Result<Seq<u8>, WriterError> {
    if value.len() <= MAX_PREFIXED_LEN {
        Ok(signed_bytes(value.len() as int, 2) + value)
    } else {
        Err(WriterError::ValueOutOfRange)
    }
}

/// A byte array that may be absent, behind a signed 16-bit length; absence is
/// the length -1 with nothing after it.
pub open spec fn nullable_bytes_encoding(value: Option<Seq<u8>>) -> Result<Seq<u8>, WriterError> {
    match value {
        Some(bytes) => bytes_encoding(bytes),
        None => Ok(signed_bytes(-1, 2)),
    }
}

/// A byte array behind a variable-length prefix that holds the length plus
/// one.
pub open spec fn compact_bytes_encoding(value: Seq<u8>) -> Result<Seq<u8>, WriterError> {
    if value.len() <= MAX_COMPACT_LEN {
        Ok(uvarint_encoding(value.len() + 1) + value)
    } else {
        Err(WriterError::ValueOutOfRange)
    }
}

/// A byte array that may be absent, behind a variable-length prefix; absence
/// is the prefix zero with nothing after it.
pub open spec fn compact_nullable_bytes_encoding(value: Option<Seq<u8>>) -> Result<
    Seq<u8>,
    WriterError,
> {
    match value {
        Some(bytes) => compact_bytes_encoding(bytes),
        None => Ok(uvarint_encoding(0)),
    }
}

/// A string is the byte array of its UTF-8 form.
pub open spec fn string_encoding(value: Seq<char>) -> Result<Seq<u8>, WriterError> {
    bytes_encoding(encode_utf8(value))
}

pub open spec fn nullable_string_encoding(value: Option<Seq<char>>) -> Result<
    Seq<u8>,
    WriterError,
> {
    match value {
        Some(text) => string_encoding(text),
        None => Ok(signed_bytes(-1, 2)),
    }
}

pub open spec fn compact_string_encoding(value: Seq<char>) -> Result<Seq<u8>, WriterError> {
    compact_bytes_encoding(encode_utf8(value))
}

pub open spec fn compact_nullable_string_encoding(value: Option<Seq<char>>) -> Result<
    Seq<u8>,
    WriterError,
> {
    match value {
        Some(text) => compact_string_encoding(text),
        None => Ok(uvarint_encoding(0)),
    }
}

/// The sixteen raw bytes of a UUID given as text.  Anything but the
/// canonical text of a UUID has no encoding.
pub open spec fn uuid_encoding(text: Seq<char>) -> Result<Seq<u8>, WriterError> {
    if is_uuid_text(encode_utf8(text)) {
        Ok(uuid_raw_bytes(encode_utf8(text)))
    } else {
        Err(WriterError::ValueOutOfRange)
    }
}

/// The model of a string that may be absent.
pub open spec fn optional_text(value: Option<&str>) -> Option<Seq<char>> {
    match value {
        Some(text) => Some(text@),
        None => None,
    }
}

/// The model of a byte array that may be absent.
pub open spec fn optional_bytes(value: Option<&[u8]>) -> Option<Seq<u8>> {
    match value {
        Some(bytes) => Some(bytes@),
        None => None,
    }
}

/// Builds the encoding of a byte array behind a signed 16-bit length.
pub fn encode_bytes(value: &[u8]) -> (r: Result<Vec<u8>, WriterError>)
    ensures
        match r {
            Ok(out) => bytes_encoding(value@) == Ok::<Seq<u8>, WriterError>(out@),
            Err(e) => bytes_encoding(value@) == Err::<Seq<u8>, WriterError>(e),
        },
{
    if value.len() > MAX_PREFIXED_LEN {
        return Err(WriterError::ValueOutOfRange);
    }
    proof {
        reveal_with_fuel(bytes_bound, 3);
    }
    let mut out = signed_encode(value.len() as i64, 2);
    append_bytes(&mut out, value);
    Ok(out)
}

/// Builds the encoding of a byte array behind a compact length.
pub fn encode_compact_bytes(value: &[u8]) -> (r: Result<Vec<u8>, WriterError>)
    ensures
        match r {
            Ok(out) => compact_bytes_encoding(value@) == Ok::<Seq<u8>, WriterError>(out@),
            Err(e) => compact_bytes_encoding(value@) == Err::<Seq<u8>, WriterError>(e),
        },
{
    if value.len() > MAX_COMPACT_LEN {
        return Err(WriterError::ValueOutOfRange);
    }
    let mut out = encode_uvarint((value.len() + 1) as u32);
    append_bytes(&mut out, value);
    Ok(out)
}

/// A sink of bytes that takes typed values at its end.
///
/// An implementation says what it holds, how much it can hold, and how to
/// append a run of raw bytes; every other operation is built from those.
pub trait Writer {
    /// All the bytes that the sink holds.
    spec fn written(&self) -> Seq<u8>;

    /// The number of bytes that the sink can hold in all.
    spec fn capacity(&self) -> nat;

    /// Appends `value`, or fails and appends nothing when the sink has no
    /// room for all of it.
    fn write_raw_bytes(&mut self, value: &[u8]) -> (r: WriterResult)
        ensures
            final(self).capacity() == old(self).capacity(),
            r == emit(old(self).written(), old(self).capacity(), value@).result,
            final(self).written() == emit(
                old(self).written(),
                old(self).capacity(),
                value@,
            ).written,
    ;

    /// Writes a truth value as one byte.
    fn write_bool(&mut self, value: bool) -> (r: WriterResult)
        ensures
            final(self).capacity() == old(self).capacity(),
            r == emit(old(self).written(), old(self).capacity(), bool_bytes(value)).result,
            final(self).written() == emit(
                old(self).written(),
                old(self).capacity(),
                bool_bytes(value),
            ).written,
    {
        let mut out: Vec<u8> = Vec::new();
        out.push(if value { 1u8 } else { 0u8 });
        assert(out@ =~= bool_bytes(value));
        self.write_raw_bytes(out.as_slice())
    }

    /// Writes a signed 8-bit integer.
    fn write_i8(&mut self, value: i8) -> (r: WriterResult)
        ensures
            final(self).capacity() == old(self).capacity(),
            r == emit(
                old(self).written(),
                old(self).capacity(),
                signed_bytes(value as int, 1),
            ).result,
            final(self).written() == emit(
                old(self).written(),
                old(self).capacity(),
                signed_bytes(value as int, 1),
            ).written,
    {
        proof {
            reveal_with_fuel(bytes_bound, 2);
        }
        let out = signed_encode(value as i64, 1);
        self.write_raw_bytes(out.as_slice())
    }

    /// Writes a signed 16-bit integer.
    fn write_i16(&mut self, value: i16) -> (r: WriterResult)
        ensures
            final(self).capacity() == old(self).capacity(),
            r == emit(
                old(self).written(),
                old(self).capacity(),
                signed_bytes(value as int, 2),
            ).result,
            final(self).written() == emit(
                old(self).written(),
                old(self).capacity(),
                signed_bytes(value as int, 2),
            ).written,
    {
        proof {
            reveal_with_fuel(bytes_bound, 3);
        }
        let out = signed_encode(value as i64, 2);
        self.write_raw_bytes(out.as_slice())
    }

    /// Writes a signed 32-bit integer.
    fn write_i32(&mut self, value: i32) -> (r: WriterResult)
        ensures
            final(self).capacity() == old(self).capacity(),
            r == emit(
                old(self).written(),
                old(self).capacity(),
                signed_bytes(value as int, 4),
            ).result,
            final(self).written() == emit(
                old(self).written(),
                old(self).capacity(),
                signed_bytes(value as int, 4),
            ).written,
    {
        proof {
            reveal_with_fuel(bytes_bound, 5);
        }
        let out = signed_encode(value as i64, 4);
        self.write_raw_bytes(out.as_slice())
    }

    /// Writes a signed 64-bit integer.
    fn write_i64(&mut self, value: i64) -> (r: WriterResult)
        ensures
            final(self).capacity() == old(self).capacity(),
            r == emit(
                old(self).written(),
                old(self).capacity(),
                signed_bytes(value as int, 8),
            ).result,
            final(self).written() == emit(
                old(self).written(),
                old(self).capacity(),
                signed_bytes(value as int, 8),
            ).written,
    {
        proof {
            reveal_with_fuel(bytes_bound, 9);
        }
        let out = signed_encode(value, 8);
        self.write_raw_bytes(out.as_slice())
    }

    /// Writes an unsigned 32-bit integer.
    fn write_u32(&mut self, value: u32) -> (r: WriterResult)
        ensures
            final(self).capacity() == old(self).capacity(),
            r == emit(
                old(self).written(),
                old(self).capacity(),
                be_bytes(value as nat, 4),
            ).result,
            final(self).written() == emit(
                old(self).written(),
                old(self).capacity(),
                be_bytes(value as nat, 4),
            ).written,
    {
        let out = be_encode(value as u64, 4);
        self.write_raw_bytes(out.as_slice())
    }

    /// Writes a signed 32-bit integer in variable length.
    fn write_varint(&mut self, value: i32) -> (r: WriterResult)
        ensures
            final(self).capacity() == old(self).capacity(),
            r == emit(
                old(self).written(),
                old(self).capacity(),
                uvarint_encoding(zigzag(value as int)),
            ).result,
            final(self).written() == emit(
                old(self).written(),
                old(self).capacity(),
                uvarint_encoding(zigzag(value as int)),
            ).written,
    {
        let out = encode_varint(value);
        self.write_raw_bytes(out.as_slice())
    }

    /// Writes an unsigned 32-bit integer in variable length.
    fn write_unsigned_varint(&mut self, value: u32) -> (r: WriterResult)
        ensures
            final(self).capacity() == old(self).capacity(),
            r == emit(
                old(self).written(),
                old(self).capacity(),
                uvarint_encoding(value as nat),
            ).result,
            final(self).written() == emit(
                old(self).written(),
                old(self).capacity(),
                uvarint_encoding(value as nat),
            ).written,
    {
        let out = encode_uvarint(value);
        self.write_raw_bytes(out.as_slice())
    }

    /// Writes a signed 64-bit integer in variable length.
    fn write_varlong(&mut self, value: i64) -> (r: WriterResult)
        ensures
            final(self).capacity() == old(self).capacity(),
            r == emit(
                old(self).written(),
                old(self).capacity(),
                uvarint_encoding(zigzag(value as int)),
            ).result,
            final(self).written() == emit(
                old(self).written(),
                old(self).capacity(),
                uvarint_encoding(zigzag(value as int)),
            ).written,
    {
        let out = encode_varlong(value);
        self.write_raw_bytes(out.as_slice())
    }

    /// Writes an unsigned 64-bit integer in variable length.
    fn write_unsigned_varlong(&mut self, value: u64) -> (r: WriterResult)
        ensures
            final(self).capacity() == old(self).capacity(),
            r == emit(
                old(self).written(),
                old(self).capacity(),
                uvarint_encoding(value as nat),
            ).result,
            final(self).written() == emit(
                old(self).written(),
                old(self).capacity(),
                uvarint_encoding(value as nat),
            ).written,
    {
        let out = encode_uvarlong(value);
        self.write_raw_bytes(out.as_slice())
    }

    /// Writes the sixteen raw bytes of a UUID given as text.
    fn write_uuid(&mut self, uuid: &str) -> (r: WriterResult)
        ensures
            final(self).capacity() == old(self).capacity(),
            r == emit_checked(
                old(self).written(),
                old(self).capacity(),
                uuid_encoding(uuid@),
            ).result,
            final(self).written() == emit_checked(
                old(self).written(),
                old(self).capacity(),
                uuid_encoding(uuid@),
            ).written,
    {
        match uuid_from_text(uuid) {
            Some(raw) => self.write_raw_bytes(raw.as_slice()),
            None => Err(WriterError::ValueOutOfRange),
        }
    }

    /// Writes a string behind a 16-bit length.
    fn write_string(&mut self, value: &str) -> (r: WriterResult)
        ensures
            final(self).capacity() == old(self).capacity(),
            r == emit_checked(
                old(self).written(),
                old(self).capacity(),
                string_encoding(value@),
            ).result,
            final(self).written() == emit_checked(
                old(self).written(),
                old(self).capacity(),
                string_encoding(value@),
            ).written,
    {
        self.write_bytes(value.as_bytes())
    }

    /// Writes a string behind a compact length.
    fn write_compact_string(&mut self, value: &str) -> (r: WriterResult)
        ensures
            final(self).capacity() == old(self).capacity(),
            r == emit_checked(
                old(self).written(),
                old(self).capacity(),
                compact_string_encoding(value@),
            ).result,
            final(self).written() == emit_checked(
                old(self).written(),
                old(self).capacity(),
                compact_string_encoding(value@),
            ).written,
    {
        self.write_compact_bytes(value.as_bytes())
    }

    /// Writes a string that may be absent, behind a 16-bit length.
    fn write_nullable_string(&mut self, value: Option<&str>) -> (r: WriterResult)
        ensures
            final(self).capacity() == old(self).capacity(),
            r == emit_checked(
                old(self).written(),
                old(self).capacity(),
                nullable_string_encoding(optional_text(value)),
            ).result,
            final(self).written() == emit_checked(
                old(self).written(),
                old(self).capacity(),
                nullable_string_encoding(optional_text(value)),
            ).written,
    {
        match value {
            Some(text) => self.write_bytes(text.as_bytes()),
            None => self.write_i16(-1),
        }
    }

    /// Writes a string that may be absent, behind a compact length.
    fn write_compact_nullable_string(&mut self, value: Option<&str>) -> (r: WriterResult)
        ensures
            final(self).capacity() == old(self).capacity(),
            r == emit_checked(
                old(self).written(),
                old(self).capacity(),
                compact_nullable_string_encoding(optional_text(value)),
            ).result,
            final(self).written() == emit_checked(
                old(self).written(),
                old(self).capacity(),
                compact_nullable_string_encoding(optional_text(value)),
            ).written,
    {
        match value {
            Some(text) => self.write_compact_bytes(text.as_bytes()),
            None => self.write_unsigned_varint(0),
        }
    }

    /// Writes a byte array behind a 16-bit length.
    fn write_bytes(&mut self, value: &[u8]) -> (r: WriterResult)
        ensures
            final(self).capacity() == old(self).capacity(),
            r == emit_checked(
                old(self).written(),
                old(self).capacity(),
                bytes_encoding(value@),
            ).result,
            final(self).written() == emit_checked(
                old(self).written(),
                old(self).capacity(),
                bytes_encoding(value@),
            ).written,
    {
        let out = encode_bytes(value)?;
        self.write_raw_bytes(out.as_slice())
    }

    /// Writes a byte array behind a compact length.
    fn write_compact_bytes(&mut self, value: &[u8]) -> (r: WriterResult)
        ensures
            final(self).capacity() == old(self).capacity(),
            r == emit_checked(
                old(self).written(),
                old(self).capacity(),
                compact_bytes_encoding(value@),
            ).result,
            final(self).written() == emit_checked(
                old(self).written(),
                old(self).capacity(),
                compact_bytes_encoding(value@),
            ).written,
    {
        let out = encode_compact_bytes(value)?;
        self.write_raw_bytes(out.as_slice())
    }

    /// Writes a byte array that may be absent, behind a 16-bit length.
    fn write_nullable_bytes(&mut self, value: Option<&[u8]>) -> (r: WriterResult)
        ensures
            final(self).capacity() == old(self).capacity(),
            r == emit_checked(
                old(self).written(),
                old(self).capacity(),
                nullable_bytes_encoding(optional_bytes(value)),
            ).result,
            final(self).written() == emit_checked(
                old(self).written(),
                old(self).capacity(),
                nullable_bytes_encoding(optional_bytes(value)),
            ).written,
    {
        match value {
            Some(bytes) => self.write_bytes(bytes),
            None => self.write_i16(-1),
        }
    }

    /// Writes a byte array that may be absent, behind a compact length.
    fn write_compact_nullable_bytes(&mut self, value: Option<&[u8]>) -> (r: WriterResult)
        ensures
            final(self).capacity() == old(self).capacity(),
            r == emit_checked(
                old(self).written(),
                old(self).capacity(),
                compact_nullable_bytes_encoding(optional_bytes(value)),
            ).result,
            final(self).written() == emit_checked(
                old(self).written(),
                old(self).capacity(),
                compact_nullable_bytes_encoding(optional_bytes(value)),
            ).written,
    {
        match value {
            Some(bytes) => self.write_compact_bytes(bytes),
            None => self.write_unsigned_varint(0),
        }
    }
}

} // verus!
