//! Values that are written to a sink field by field.
use crate::wire::signed_bytes;
use crate::writer::{emit_checked, Emitted, Writer, WriterError, WriterResult};
use vstd::prelude::*;

verus! {

/// A value with a wire form.
pub trait Writable {
    /// What writing leaves in a sink that held `written` and takes `capacity`
    /// bytes in all: the fields in the order of their declaration, up to the
    /// first one that fails.
    spec fn emitted(&self, written: Seq<u8>, capacity: nat) -> Emitted;

    /// Appends the value to what `writer` holds.
    fn write<W: Writer>(&self, writer: &mut W) -> (r: WriterResult)
        ensures
            final(writer).capacity() == old(writer).capacity(),
            r == self.emitted(old(writer).written(), old(writer).capacity()).result,
            final(writer).written() == self.emitted(
                old(writer).written(),
                old(writer).capacity(),
            ).written,
    ;
}

/// What writing a run of values, one after the other, leaves in a sink.
pub open spec fn emitted_many<T: Writable>(
    items: Seq<T>,
    written: Seq<u8>,
    capacity: nat,
) -> Emitted
    decreases items.len(),
{
    if items.len() == 0 {
        Emitted { result: Ok(()), written }
    } else {
        let before = emitted_many(items.drop_last(), written, capacity);
        if before.result is Ok {
            items.last().emitted(before.written, capacity)
        } else {
            before
        }
    }
}

/// The count in front of a run of `len` values, if a signed 32-bit number
/// can hold it.
pub open spec fn count_encoding(len: nat) -> Result<Seq<u8>, WriterError> {
    if len <= i32::MAX {
        Ok(signed_bytes(len as int, 4))
    } else {
        Err(WriterError::ValueOutOfRange)
    }
}

/// What writing a counted run leaves in a sink: the count, then the values.
pub open spec fn emitted_counted<T: Writable>(
    items: Seq<T>,
    written: Seq<u8>,
    capacity: nat,
) -> Emitted {
    let count = emit_checked(written, capacity, count_encoding(items.len()));
    if count.result is Ok {
        emitted_many(items, count.written, capacity)
    } else {
        count
    }
}

/// Once a value has failed, the values after it are not written.
pub proof fn lemma_emitted_many_stops<T: Writable>(
    items: Seq<T>,
    k: int,
    written: Seq<u8>,
    capacity: nat,
)
    requires
        0 <= k <= items.len(),
        emitted_many(items.take(k), written, capacity).result is Err,
    ensures
        emitted_many(items, written, capacity) == emitted_many(items.take(k), written, capacity),
    decreases items.len() - k,
{
    if k < items.len() {
        assert(items.take(k + 1).drop_last() =~= items.take(k));
        lemma_emitted_many_stops(items, k + 1, written, capacity);
    } else {
        assert(items.take(k) =~= items);
    }
}

/// Writes the values one after the other, with nothing before, between or
/// after them.
pub fn write_many<T: Writable, W: Writer>(items: &Vec<T>, writer: &mut W) -> (r: WriterResult)
    ensures
        final(writer).capacity() == old(writer).capacity(),
        r == emitted_many(items@, old(writer).written(), old(writer).capacity()).result,
        final(writer).written() == emitted_many(
            items@,
            old(writer).written(),
            old(writer).capacity(),
        ).written,
{
    let ghost start = writer.written();
    let ghost capacity = writer.capacity();
    let mut result: WriterResult = Ok(());
    let mut i: usize = 0;
    assert(items@.take(0) =~= Seq::<T>::empty());
    while i < items.len()
        invariant
            i <= items.len(),
            start == old(writer).written(),
            capacity == old(writer).capacity(),
            writer.capacity() == capacity,
            result is Ok,
            emitted_many(items@.take(i as int), start, capacity) == (Emitted {
                result,
                written: writer.written(),
            }),
        decreases items.len() - i,
    {
        proof {
            assert(items@.take(i + 1).drop_last() =~= items@.take(i as int));
            assert(items@.take(i + 1).last() == items[i as int]);
        }
        match items[i].write(writer) {
            Ok(done) => {
                result = Ok(done);
            },
            Err(e) => {
                proof {
                    lemma_emitted_many_stops(items@, (i + 1) as int, start, capacity);
                }
                return Err(e);
            },
        }
        i = i + 1;
    }
    assert(items@.take(items.len() as int) =~= items@);
    result
}

/// Writes a counted run: the count, then the values.
pub fn write_counted<T: Writable, W: Writer>(items: &Vec<T>, writer: &mut W) -> (r: WriterResult)
    ensures
        final(writer).capacity() == old(writer).capacity(),
        r == emitted_counted(items@, old(writer).written(), old(writer).capacity()).result,
        final(writer).written() == emitted_counted(
            items@,
            old(writer).written(),
            old(writer).capacity(),
        ).written,
{
    if items.len() > i32::MAX as usize {
        return Err(WriterError::ValueOutOfRange);
    }
    writer.write_i32(items.len() as i32)?;
    write_many(items, writer)
}

} // verus!
