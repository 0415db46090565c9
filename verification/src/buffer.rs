//! Sinks held in memory: a vector that grows as needed, and a buffer that
//! takes no more than a limit given at its making.
//!
//! No vector holds more than `isize::MAX` bytes, so neither sink takes more.
use crate::wire::append_bytes;
use crate::writer::{Writer, WriterError, WriterResult};
use vstd::prelude::*;

verus! {

/// The most bytes that a vector holds.
pub const MAX_VEC_LEN: usize = isize::MAX as usize;

/// A vector takes bytes up to the most that a vector holds.
impl Writer for Vec<u8> {
    open spec fn written(&self) -> Seq<u8> {
        self@
    }

    open spec fn capacity(&self) -> nat {
        MAX_VEC_LEN as nat
    }

    fn write_raw_bytes(&mut self, value: &[u8]) -> (r: WriterResult) {
        if self.len() > MAX_VEC_LEN || value.len() > MAX_VEC_LEN - self.len() {
            Err(WriterError::BufferOverflow)
        } else {
            append_bytes(self, value);
            Ok(())
        }
    }
}

/// A sink that holds at most as many bytes as the limit it was made with.
pub struct BoundedBuffer {
    bytes: Vec<u8>,
    room: usize,
}

impl View for BoundedBuffer {
    type V = Seq<u8>;

    /// The bytes written so far.  How many more the buffer takes is not
    /// part of the view: `spec_room` states it.
    closed spec fn view(&self) -> Seq<u8> {
        self.bytes@
    }
}

impl BoundedBuffer {
    /// The number of bytes that the buffer still takes.
    pub closed spec fn spec_room(&self) -> nat {
        self.room as nat
    }

    /// An empty buffer that takes at most `limit` bytes, and no more than a
    /// vector holds.
    pub fn new(limit: usize) -> (buffer: Self)
        ensures
            buffer@ == Seq::<u8>::empty(),
            buffer.spec_room() == if limit <= MAX_VEC_LEN {
                limit
            } else {
                MAX_VEC_LEN
            },
    {
        let room = if limit <= MAX_VEC_LEN {
            limit
        } else {
            MAX_VEC_LEN
        };
        Self { bytes: Vec::new(), room }
    }

    /// The number of bytes that the buffer still takes.
    pub fn room(&self) -> (room: usize)
        ensures
            room == self.spec_room(),
    {
        self.room
    }

    /// The number of bytes written so far.
    pub fn len(&self) -> (len: usize)
        ensures
            len == self@.len(),
    {
        self.bytes.len()
    }

    /// The bytes written so far.
    pub fn as_slice(&self) -> (bytes: &[u8])
        ensures
            bytes@ == self@,
    {
        self.bytes.as_slice()
    }

    /// Gives up the buffer for the bytes written to it.
    pub fn into_bytes(self) -> (bytes: Vec<u8>)
        ensures
            bytes@ == self@,
    {
        self.bytes
    }
}

impl Writer for BoundedBuffer {
    open spec fn written(&self) -> Seq<u8> {
        self@
    }

    /// What is written and what may still be written make up the limit.
    open spec fn capacity(&self) -> nat {
        self@.len() + self.spec_room()
    }

    fn write_raw_bytes(&mut self, value: &[u8]) -> (r: WriterResult) {
        if value.len() > self.room {
            Err(WriterError::BufferOverflow)
        } else {
            append_bytes(&mut self.bytes, value);
            self.room = self.room - value.len();
            Ok(())
        }
    }
}

} // verus!
