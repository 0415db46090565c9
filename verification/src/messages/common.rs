//! What all messages share: tagged fields and the versions of the headers.
use crate::enc::{groups_consumed, uvarint_encoding};
use crate::readable::Readable;
use crate::reader::{
    parse_raw_bytes, parse_unsigned_varint, Parsed, Reader, ReaderError, ReaderResult,
};
use crate::writable::Writable;
use crate::writer::{emit, then_emit, Emitted, Writer, WriterError, WriterResult};
use vstd::prelude::*;

pub mod v0;
pub mod v1;
pub mod v2;

verus! {

/// A piece of data that a reader may not know the meaning of: it is carried
/// as a tag and opaque bytes.
#[derive(Debug, Clone, PartialEq, Eq)]
pub struct TaggedField {
    pub tag: u32,
    pub field: Vec<u8>,
}

/// The model of a tagged field.
pub ghost struct TaggedFieldView {
    pub tag: u32,
    pub field: Seq<u8>,
}

impl View for TaggedField {
    type V = TaggedFieldView;

    open spec fn view(&self) -> TaggedFieldView {
        TaggedFieldView { tag: self.tag, field: self.field@ }
    }
}

impl TaggedFieldView {
    /// The length prefix of the field, if the length fits in 32 bits.
    pub open spec fn length_prefix(self) -> Result<Seq<u8>, WriterError> {
        if self.field.len() <= u32::MAX {
            Ok(uvarint_encoding(self.field.len()))
        } else {
            Err(WriterError::ValueOutOfRange)
        }
    }

    /// The wire form: the tag, the length of the data, the data.
    pub open spec fn encoding(self) -> Seq<u8> {
        uvarint_encoding(self.tag as nat) + uvarint_encoding(self.field.len()) + self.field
    }

    /// What writing the field leaves in a sink.
    pub open spec fn emitted(self, written: Seq<u8>, capacity: nat) -> Emitted {
        then_emit(
            then_emit(
                emit(written, capacity, uvarint_encoding(self.tag as nat)),
                capacity,
                self.length_prefix(),
            ),
            capacity,
            Ok(self.field),
        )
    }

    /// What reading one field makes of an input.
    pub open spec fn parse(input: Seq<u8>) -> Parsed<TaggedFieldView> {
        let tag = parse_unsigned_varint(input);
        match tag.value {
            Err(e) => Parsed { value: Err(e), rest: tag.rest },
            Ok(t) => {
                let len = parse_unsigned_varint(tag.rest);
                match len.value {
                    Err(e) => Parsed { value: Err(e), rest: len.rest },
                    Ok(n) => {
                        let data = parse_raw_bytes(len.rest, n as nat);
                        match data.value {
                            Err(e) => Parsed { value: Err(e), rest: data.rest },
                            Ok(bytes) => Parsed {
                                value: Ok(TaggedFieldView { tag: t, field: bytes }),
                                rest: data.rest,
                            },
                        }
                    },
                }
            },
        }
    }
}

impl Readable for TaggedField {
    open spec fn parse(input: Seq<u8>) -> Parsed<TaggedFieldView> {
        TaggedFieldView::parse(input)
    }

    fn read<R: Reader>(reader: &mut R) -> (r: ReaderResult<Self>) {
        let tag = reader.next_unsigned_varint()?;
        let field_len = reader.next_unsigned_varint()?;
        let field = reader.next_raw_bytes(field_len)?;
        Ok(Self { tag, field })
    }
}

impl Writable for TaggedField {
    open spec fn emitted(&self, written: Seq<u8>, capacity: nat) -> Emitted {
        self@.emitted(written, capacity)
    }

    fn write<W: Writer>(&self, writer: &mut W) -> (r: WriterResult) {
        writer.write_unsigned_varint(self.tag)?;
        if self.field.len() > u32::MAX as usize {
            return Err(WriterError::ValueOutOfRange);
        }
        writer.write_unsigned_varint(self.field.len() as u32)?;
        writer.write_raw_bytes(self.field.as_slice())
    }
}

/// The models of a run of tagged fields.
pub open spec fn fields_view(fields: Seq<TaggedField>) -> Seq<TaggedFieldView> {
    fields.map_values(|f: TaggedField| f@)
}

/// Puts the fields read so far in front of what the rest of a section gives.
pub open spec fn after_fields(
    done: Seq<TaggedFieldView>,
    others: Parsed<Seq<TaggedFieldView>>,
) -> Parsed<Seq<TaggedFieldView>> {
    Parsed {
        value: match others.value {
            Ok(fields) => Ok(done + fields),
            Err(e) => Err(e),
        },
        rest: others.rest,
    }
}

/// What reading a section of tagged fields makes of an input.  The section
/// has no count and no end mark: it runs to the end of the input, and an input
/// that ends inside a field is an error.
pub open spec fn parse_tagged_fields(input: Seq<u8>) -> Parsed<Seq<TaggedFieldView>>
    decreases input.len(),
{
    if input.len() == 0 {
        Parsed { value: Ok(Seq::empty()), rest: input }
    } else {
        let first = TaggedFieldView::parse(input);
        match first.value {
            Ok(field) if first.rest.len() < input.len() => after_fields(
                seq![field],
                parse_tagged_fields(first.rest),
            ),
            Ok(_) => Parsed { value: Err(ReaderError::UnexpectedEndOfInput), rest: first.rest },
            Err(e) => Parsed { value: Err(e), rest: first.rest },
        }
    }
}

/// What writing a run of tagged fields, one after the other, leaves in a
/// sink.
pub open spec fn emitted_fields(
    fields: Seq<TaggedFieldView>,
    written: Seq<u8>,
    capacity: nat,
) -> Emitted
    decreases fields.len(),
{
    if fields.len() == 0 {
        Emitted { result: Ok(()), written }
    } else {
        let before = emitted_fields(fields.drop_last(), written, capacity);
        if before.result is Ok {
            fields.last().emitted(before.written, capacity)
        } else {
            before
        }
    }
}

/// The wire form of a run of tagged fields: the fields one after the other.
pub open spec fn fields_encoding(fields: Seq<TaggedFieldView>) -> Seq<u8>
    decreases fields.len(),
{
    if fields.len() == 0 {
        Seq::empty()
    } else {
        fields_encoding(fields.drop_last()) + fields.last().encoding()
    }
}

/// Whether every field of a run can be written: the length of its data fits
/// in 32 bits.
pub open spec fn fields_encodable(fields: Seq<TaggedFieldView>) -> bool {
    forall|i: int| 0 <= i < fields.len() ==> (#[trigger] fields[i]).field.len() <= u32::MAX
}

/// A field that is read takes at least one byte.
pub proof fn lemma_tagged_field_consumes(input: Seq<u8>)
    requires
        TaggedFieldView::parse(input).value is Ok,
    ensures
        TaggedFieldView::parse(input).rest.len() < input.len(),
{
    assert(groups_consumed(input, 5) >= 1);
}

/// Reads tagged fields until the source is at its end.
pub fn read_tagged_fields<R: Reader>(reader: &mut R) -> (r: ReaderResult<Vec<TaggedField>>)
    ensures
        match r {
            Ok(fields) => parse_tagged_fields(old(reader).remaining()).value == Ok::<
                Seq<TaggedFieldView>,
                ReaderError,
            >(fields_view(fields@)),
            Err(e) => parse_tagged_fields(old(reader).remaining()).value == Err::<
                Seq<TaggedFieldView>,
                ReaderError,
            >(e),
        },
        final(reader).remaining() == parse_tagged_fields(old(reader).remaining()).rest,
{
    let mut fields: Vec<TaggedField> = Vec::new();
    assert(fields_view(fields@) =~= Seq::<TaggedFieldView>::empty());
    assert(after_fields(fields_view(fields@), parse_tagged_fields(reader.remaining()))
        == parse_tagged_fields(reader.remaining())) by {
        let p = parse_tagged_fields(reader.remaining());
        if p.value is Ok {
            assert(Seq::<TaggedFieldView>::empty() + p.value->Ok_0 =~= p.value->Ok_0);
        }
    }
    while !reader.at_end()
        invariant
            parse_tagged_fields(old(reader).remaining()) == after_fields(
                fields_view(fields@),
                parse_tagged_fields(reader.remaining()),
            ),
        decreases reader.remaining().len(),
    {
        let ghost input = reader.remaining();
        let ghost done = fields_view(fields@);
        match TaggedField::read(reader) {
            Err(e) => {
                return Err(e);
            },
            Ok(field) => {
                proof {
                    lemma_tagged_field_consumes(input);
                    let others = parse_tagged_fields(reader.remaining());
                    assert(fields_view(fields@.push(field)) =~= done.push(field@));
                    if others.value is Ok {
                        assert(done + (seq![field@] + others.value->Ok_0) =~= done.push(field@)
                            + others.value->Ok_0);
                    }
                }
                fields.push(field);
            },
        }
    }
    proof {
        assert(fields_view(fields@) + Seq::<TaggedFieldView>::empty() =~= fields_view(fields@));
    }
    Ok(fields)
}

/// Writes tagged fields one after the other, with nothing before, between or
/// after them.
pub fn write_tagged_fields<W: Writer>(fields: &Vec<TaggedField>, writer: &mut W) -> (r:
    WriterResult)
    ensures
        final(writer).capacity() == old(writer).capacity(),
        r == emitted_fields(
            fields_view(fields@),
            old(writer).written(),
            old(writer).capacity(),
        ).result,
        final(writer).written() == emitted_fields(
            fields_view(fields@),
            old(writer).written(),
            old(writer).capacity(),
        ).written,
{
    let ghost start = writer.written();
    let ghost capacity = writer.capacity();
    let mut i: usize = 0;
    assert(fields_view(fields@).take(0) =~= Seq::<TaggedFieldView>::empty());
    while i < fields.len()
        invariant
            i <= fields.len(),
            start == old(writer).written(),
            capacity == old(writer).capacity(),
            writer.capacity() == capacity,
            emitted_fields(fields_view(fields@).take(i as int), start, capacity) == (Emitted {
                result: Ok(()),
                written: writer.written(),
            }),
        decreases fields.len() - i,
    {
        proof {
            let all = fields_view(fields@);
            assert(all.take(i + 1).drop_last() =~= all.take(i as int));
            assert(all.take(i + 1).last() == fields[i as int]@);
        }
        match fields[i].write(writer) {
            Ok(()) => {},
            Err(e) => {
                proof {
                    lemma_emitted_fields_stops(
                        fields_view(fields@),
                        (i + 1) as int,
                        start,
                        capacity,
                    );
                }
                return Err(e);
            },
        }
        i = i + 1;
    }
    assert(fields_view(fields@).take(fields.len() as int) =~= fields_view(fields@));
    Ok(())
}

/// Once a field has failed, the fields after it are not written.
pub proof fn lemma_emitted_fields_stops(
    fields: Seq<TaggedFieldView>,
    k: int,
    written: Seq<u8>,
    capacity: nat,
)
    requires
        0 <= k <= fields.len(),
        emitted_fields(fields.take(k), written, capacity).result is Err,
    ensures
        emitted_fields(fields, written, capacity) == emitted_fields(
            fields.take(k),
            written,
            capacity,
        ),
    decreases fields.len() - k,
{
    if k < fields.len() {
        assert(fields.take(k + 1).drop_last() =~= fields.take(k));
        lemma_emitted_fields_stops(fields, k + 1, written, capacity);
    } else {
        assert(fields.take(k) =~= fields);
    }
}

} // verus!
