//! A reader over a byte slice held in memory.
use crate::reader::{parse_string, text_of, Reader, ReaderError, ReaderResult};
use crate::wire::{
    be_decode, be_value, bytes_bound, lemma_be_value_bound, lemma_signed_bytes_of_value,
    signed_decode, signed_value,
};
use vstd::layout::size_of;
use vstd::prelude::*;
use vstd::slice::slice_to_vec;

verus! {

/// Why the parser could not hand out a value.
#[derive(Debug, PartialEq, Eq, Structural, Clone, Copy)]
pub enum ParserNextError {
    /// Fewer bytes are left than the value takes.
    UnexpectedEndOfInput,
}

/// Why the parser could not hand out a string.
#[derive(Debug, PartialEq, Eq, Structural, Clone, Copy)]
pub enum ParserNextStringError {
    /// Fewer bytes are left than the length prefix or the string takes.
    UnexpectedEndOfInput(ParserNextError),
    /// The length prefix is negative.
    NegativeLength,
    /// The bytes of the string are not UTF-8.
    InvalidUtf8,
}

/// The reader's name for each way in which reading a string fails.
pub open spec fn string_error_model(e: ParserNextStringError) -> ReaderError {
    match e {
        ParserNextStringError::UnexpectedEndOfInput(_) => ReaderError::UnexpectedEndOfInput,
        ParserNextStringError::NegativeLength => ReaderError::NegativeLength,
        ParserNextStringError::InvalidUtf8 => ReaderError::InvalidUtf8,
    }
}

pub type NextResult<T> = Result<T, ParserNextError>;

/// A fixed-width value that is read from big-endian bytes.
pub trait KafkaPrimitive<T> {
    /// The value that a run of bytes holds, if the run has the width of the
    /// type.
    spec fn decode(bytes: Seq<u8>) -> Option<T>;

    /// Reads the value from a run of bytes; `None` if the run has another
    /// length than the type.
    fn from_be_bytes(bytes: &[u8]) -> (r: Option<T>)
        ensures
            r == Self::decode(bytes@),
    ;
}

impl KafkaPrimitive<i8> for i8 {
    open spec fn decode(bytes: Seq<u8>) -> Option<i8> {
        if bytes.len() == 1 {
            Some(signed_value(bytes) as i8)
        } else {
            None
        }
    }

    fn from_be_bytes(bytes: &[u8]) -> (r: Option<i8>) {
        if bytes.len() != 1 {
            return None;
        }
        proof {
            reveal_with_fuel(bytes_bound, 2);
            lemma_signed_bytes_of_value(bytes@);
        }
        Some(signed_decode(bytes) as i8)
    }
}

impl KafkaPrimitive<i16> for i16 {
    open spec fn decode(bytes: Seq<u8>) -> Option<i16> {
        if bytes.len() == 2 {
            Some(signed_value(bytes) as i16)
        } else {
            None
        }
    }

    fn from_be_bytes(bytes: &[u8]) -> (r: Option<i16>) {
        if bytes.len() != 2 {
            return None;
        }
        proof {
            reveal_with_fuel(bytes_bound, 3);
            lemma_signed_bytes_of_value(bytes@);
        }
        Some(signed_decode(bytes) as i16)
    }
}

impl KafkaPrimitive<u16> for u16 {
    open spec fn decode(bytes: Seq<u8>) -> Option<u16> {
        if bytes.len() == 2 {
            Some(be_value(bytes) as u16)
        } else {
            None
        }
    }

    fn from_be_bytes(bytes: &[u8]) -> (r: Option<u16>) {
        if bytes.len() != 2 {
            return None;
        }
        proof {
            reveal_with_fuel(bytes_bound, 3);
            lemma_be_value_bound(bytes@);
        }
        Some(be_decode(bytes) as u16)
    }
}

impl KafkaPrimitive<i32> for i32 {
    open spec fn decode(bytes: Seq<u8>) -> Option<i32> {
        if bytes.len() == 4 {
            Some(signed_value(bytes) as i32)
        } else {
            None
        }
    }

    fn from_be_bytes(bytes: &[u8]) -> (r: Option<i32>) {
        if bytes.len() != 4 {
            return None;
        }
        proof {
            reveal_with_fuel(bytes_bound, 5);
            lemma_signed_bytes_of_value(bytes@);
        }
        Some(signed_decode(bytes) as i32)
    }
}

impl KafkaPrimitive<u32> for u32 {
    open spec fn decode(bytes: Seq<u8>) -> Option<u32> {
        if bytes.len() == 4 {
            Some(be_value(bytes) as u32)
        } else {
            None
        }
    }

    fn from_be_bytes(bytes: &[u8]) -> (r: Option<u32>) {
        if bytes.len() != 4 {
            return None;
        }
        proof {
            reveal_with_fuel(bytes_bound, 5);
            lemma_be_value_bound(bytes@);
        }
        Some(be_decode(bytes) as u32)
    }
}

impl KafkaPrimitive<i64> for i64 {
    open spec fn decode(bytes: Seq<u8>) -> Option<i64> {
        if bytes.len() == 8 {
            Some(signed_value(bytes) as i64)
        } else {
            None
        }
    }

    fn from_be_bytes(bytes: &[u8]) -> (r: Option<i64>) {
        if bytes.len() != 8 {
            return None;
        }
        Some(signed_decode(bytes))
    }
}

impl KafkaPrimitive<u64> for u64 {
    open spec fn decode(bytes: Seq<u8>) -> Option<u64> {
        if bytes.len() == 8 {
            Some(be_value(bytes) as u64)
        } else {
            None
        }
    }

    fn from_be_bytes(bytes: &[u8]) -> (r: Option<u64>) {
        if bytes.len() != 8 {
            return None;
        }
        Some(be_decode(bytes))
    }
}

/// Hands out values from the front of a byte slice.
pub struct Parser<'a> {
    buf: &'a [u8],
}

impl<'a> View for Parser<'a> {
    type V = Seq<u8>;

    /// The bytes that have not been handed out yet.
    closed spec fn view(&self) -> Seq<u8> {
        self.buf@
    }
}

impl<'a> Parser<'a> {
    /// A parser with all of `buf` in front of it.
    pub fn new(buf: &'a [u8]) -> (parser: Self)
        ensures
            parser@ == buf@,
    {
        Self { buf }
    }

    /// Number of bytes that have not been handed out yet.
    pub fn remaining_len(&self) -> (n: usize)
        ensures
            n == self@.len(),
    {
        self.buf.len()
    }

    /// Hands out the next `count` bytes, or fails and keeps its place when
    /// fewer are left.
    pub fn next_bytes(&mut self, count: usize) -> (r: NextResult<&'a [u8]>)
        ensures
            match r {
                Ok(bytes) => {
                    &&& count <= old(self)@.len()
                    &&& bytes@ == old(self)@.take(count as int)
                    &&& final(self)@ == old(self)@.skip(count as int)
                },
                Err(_) => count > old(self)@.len() && final(self)@ == old(self)@,
            },
    {
        if count > self.buf.len() {
            Err(ParserNextError::UnexpectedEndOfInput)
        } else {
            let (left, right) = self.buf.split_at(count);
            self.buf = right;
            Ok(left)
        }
    }

    /// Hands out the next byte as a truth value: zero is false, anything else
    /// is true.
    pub fn next_bool(&mut self) -> (r: NextResult<bool>)
        ensures
            match r {
                Ok(b) => {
                    &&& old(self)@.len() >= 1
                    &&& b == (old(self)@[0] != 0)
                    &&& final(self)@ == old(self)@.skip(1)
                },
                Err(_) => old(self)@.len() == 0 && final(self)@ == old(self)@,
            },
    {
        let bytes = match self.next_bytes(1) {
            Ok(bytes) => bytes,
            Err(e) => {
                return Err(e);
            },
        };
        Ok(bytes[0] != 0)
    }

    /// Hands out the next value of a fixed-width type: takes as many bytes as
    /// the type has, if they are there, and reads them big-endian.
    pub fn next_primitive<T: KafkaPrimitive<T> + Sized>(&mut self) -> (r: NextResult<T>)
        ensures
            match r {
                Ok(v) => {
                    &&& size_of::<T>() <= old(self)@.len()
                    &&& T::decode(old(self)@.take(size_of::<T>() as int)) == Some(v)
                    &&& final(self)@ == old(self)@.skip(size_of::<T>() as int)
                },
                Err(_) => if size_of::<T>() <= old(self)@.len() {
                    &&& T::decode(old(self)@.take(size_of::<T>() as int)) is None
                    &&& final(self)@ == old(self)@.skip(size_of::<T>() as int)
                } else {
                    final(self)@ == old(self)@
                },
            },
    {
        let bytes = match self.next_bytes(core::mem::size_of::<T>()) {
            Ok(bytes) => bytes,
            Err(e) => {
                return Err(e);
            },
        };
        match T::from_be_bytes(bytes) {
            Some(v) => Ok(v),
            None => Err(ParserNextError::UnexpectedEndOfInput),
        }
    }

    /// Hands out the next string: a signed 16-bit length, then that many
    /// bytes of UTF-8.  What was read before a failure stays read.
    pub fn next_string(&mut self) -> (r: Result<String, ParserNextStringError>)
        ensures
            match r {
                Ok(text) => parse_string(old(self)@).value == Ok::<Seq<char>, ReaderError>(text@),
                Err(e) => parse_string(old(self)@).value == Err::<Seq<char>, ReaderError>(
                    string_error_model(e),
                ),
            },
            final(self)@ == parse_string(old(self)@).rest,
    {
        broadcast use vstd::layout::layout_of_primitives;

        let len = match self.next_primitive::<i16>() {
            Ok(len) => len,
            Err(e) => {
                return Err(ParserNextStringError::UnexpectedEndOfInput(e));
            },
        };
        if len < 0 {
            return Err(ParserNextStringError::NegativeLength);
        }
        let bytes = match self.next_bytes(len as usize) {
            Ok(bytes) => bytes,
            Err(e) => {
                return Err(ParserNextStringError::UnexpectedEndOfInput(e));
            },
        };
        match text_of(slice_to_vec(bytes)) {
            Ok(text) => Ok(text),
            Err(_) => Err(ParserNextStringError::InvalidUtf8),
        }
    }
}

impl<'a> Reader for Parser<'a> {
    open spec fn remaining(&self) -> Seq<u8> {
        self@
    }

    fn at_end(&self) -> (b: bool) {
        self.remaining_len() == 0
    }

    fn next_raw_bytes(&mut self, count: u32) -> (r: ReaderResult<Vec<u8>>) {
        match Parser::next_bytes(self, count as usize) {
            Ok(bytes) => Ok(slice_to_vec(bytes)),
            Err(_) => Err(ReaderError::UnexpectedEndOfInput),
        }
    }
}

} // verus!
