//! What holds of reading and writing together: every value that has an
//! encoding is read back from it, whatever follows the encoding, and nothing
//! of what follows is touched.
use crate::enc::{
    continuation_run, groups_bound, lemma_groups_round_trip, lemma_zigzag_inverse,
    uvarint_encoding, zigzag,
};
use crate::messages::common::v0;
use crate::messages::common::v1;
use crate::messages::common::v2;
use crate::messages::common::{
    after_fields, emitted_fields, fields_encodable, fields_encoding, parse_tagged_fields,
    TaggedFieldView,
};
use crate::reader::{
    parse_bool, parse_bytes, parse_compact_bytes, parse_compact_nullable_bytes,
    parse_compact_nullable_string, parse_compact_string, parse_i16, parse_i32, parse_i64,
    parse_i8, parse_nullable_bytes, parse_nullable_string, parse_raw_bytes, parse_string,
    parse_u32, parse_unsigned_varint, parse_unsigned_varlong, parse_uuid, parse_varint,
    parse_varlong, Parsed, ReaderError,
};
use crate::uuid::{is_uuid_text, lemma_uuid_text_round_trip, uuid_raw_bytes};
use crate::wire::{
    be_bytes, bytes_bound, lemma_be_bytes_len, lemma_be_value_of_bytes,
    lemma_signed_value_of_bytes, signed_bytes,
};
use crate::messages::metadata::v0::{
    fits_wire, request_body, request_header, topic_encoding, topics_encoding, MetadataRequest,
    Topic, METADATA_API_KEY, METADATA_API_VERSION,
};
use crate::readable::{parse_many, views, Readable};
use crate::writable::{emitted_many, Writable};
use crate::writer::{
    Emitted,
    bool_bytes, bytes_encoding, compact_bytes_encoding, compact_nullable_bytes_encoding,
    compact_nullable_string_encoding, compact_string_encoding, nullable_bytes_encoding,
    nullable_string_encoding, string_encoding, uuid_encoding, WriterError,
};
use vstd::prelude::*;
use vstd::utf8::{
    decode_utf8, decode_utf8_encode_utf8, encode_utf8, encode_utf8_decode_utf8,
    encode_utf8_valid_utf8, valid_utf8,
};

verus! {

/// A run of raw bytes is read back.
pub proof fn lemma_raw_bytes_round_trip(bytes: Seq<u8>, rest: Seq<u8>)
    ensures
        parse_raw_bytes(bytes + rest, bytes.len()) == (Parsed { value: Ok(bytes), rest }),
{
    assert((bytes + rest).take(bytes.len() as int) =~= bytes);
    assert((bytes + rest).skip(bytes.len() as int) =~= rest);
}

/// A truth value is read back.
pub proof fn lemma_bool_round_trip(value: bool, rest: Seq<u8>)
    ensures
        parse_bool(bool_bytes(value) + rest) == (Parsed { value: Ok(value), rest }),
{
    lemma_raw_bytes_round_trip(bool_bytes(value), rest);
}

/// A signed 8-bit integer is read back.
pub proof fn lemma_i8_round_trip(value: i8, rest: Seq<u8>)
    ensures
        parse_i8(signed_bytes(value as int, 1) + rest) == (Parsed { value: Ok(value), rest }),
{
    reveal_with_fuel(bytes_bound, 2);
    lemma_signed_value_of_bytes(value as int, 1);
    lemma_raw_bytes_round_trip(signed_bytes(value as int, 1), rest);
}

/// A signed 16-bit integer is read back.
pub proof fn lemma_i16_round_trip(value: i16, rest: Seq<u8>)
    ensures
        parse_i16(signed_bytes(value as int, 2) + rest) == (Parsed { value: Ok(value), rest }),
{
    reveal_with_fuel(bytes_bound, 3);
    lemma_signed_value_of_bytes(value as int, 2);
    lemma_raw_bytes_round_trip(signed_bytes(value as int, 2), rest);
}

/// A signed 32-bit integer is read back.
pub proof fn lemma_i32_round_trip(value: i32, rest: Seq<u8>)
    ensures
        parse_i32(signed_bytes(value as int, 4) + rest) == (Parsed { value: Ok(value), rest }),
{
    reveal_with_fuel(bytes_bound, 5);
    lemma_signed_value_of_bytes(value as int, 4);
    lemma_raw_bytes_round_trip(signed_bytes(value as int, 4), rest);
}

/// A signed 64-bit integer is read back.
pub proof fn lemma_i64_round_trip(value: i64, rest: Seq<u8>)
    ensures
        parse_i64(signed_bytes(value as int, 8) + rest) == (Parsed { value: Ok(value), rest }),
{
    reveal_with_fuel(bytes_bound, 9);
    lemma_signed_value_of_bytes(value as int, 8);
    lemma_raw_bytes_round_trip(signed_bytes(value as int, 8), rest);
}

/// An unsigned 32-bit integer is read back.
pub proof fn lemma_u32_round_trip(value: u32, rest: Seq<u8>)
    ensures
        parse_u32(be_bytes(value as nat, 4) + rest) == (Parsed { value: Ok(value), rest }),
{
    reveal_with_fuel(bytes_bound, 5);
    lemma_be_bytes_len(value as nat, 4);
    lemma_be_value_of_bytes(value as nat, 4);
    lemma_raw_bytes_round_trip(be_bytes(value as nat, 4), rest);
}

/// An unsigned 32-bit integer of variable length is read back.
pub proof fn lemma_unsigned_varint_round_trip(value: u32, rest: Seq<u8>)
    ensures
        parse_unsigned_varint(uvarint_encoding(value as nat) + rest) == (Parsed {
            value: Ok(value),
            rest,
        }),
{
    reveal_with_fuel(groups_bound, 6);
    lemma_groups_round_trip(value as nat, rest, 5, 0xffff_ffff);
    let e = uvarint_encoding(value as nat);
    assert((e + rest).skip(e.len() as int) =~= rest);
}

/// An unsigned 64-bit integer of variable length is read back.
pub proof fn lemma_unsigned_varlong_round_trip(value: u64, rest: Seq<u8>)
    ensures
        parse_unsigned_varlong(uvarint_encoding(value as nat) + rest) == (Parsed {
            value: Ok(value),
            rest,
        }),
{
    reveal_with_fuel(groups_bound, 11);
    lemma_groups_round_trip(value as nat, rest, 10, 0xffff_ffff_ffff_ffff);
    let e = uvarint_encoding(value as nat);
    assert((e + rest).skip(e.len() as int) =~= rest);
}

/// A signed 32-bit integer of variable length is read back.
pub proof fn lemma_varint_round_trip(value: i32, rest: Seq<u8>)
    ensures
        parse_varint(uvarint_encoding(zigzag(value as int)) + rest) == (Parsed {
            value: Ok(value),
            rest,
        }),
{
    reveal_with_fuel(groups_bound, 6);
    lemma_groups_round_trip(zigzag(value as int), rest, 5, 0xffff_ffff);
    lemma_zigzag_inverse(value as int, 0);
    let e = uvarint_encoding(zigzag(value as int));
    assert((e + rest).skip(e.len() as int) =~= rest);
}

/// A signed 64-bit integer of variable length is read back.
pub proof fn lemma_varlong_round_trip(value: i64, rest: Seq<u8>)
    ensures
        parse_varlong(uvarint_encoding(zigzag(value as int)) + rest) == (Parsed {
            value: Ok(value),
            rest,
        }),
{
    reveal_with_fuel(groups_bound, 11);
    lemma_groups_round_trip(zigzag(value as int), rest, 10, 0xffff_ffff_ffff_ffff);
    lemma_zigzag_inverse(value as int, 0);
    let e = uvarint_encoding(zigzag(value as int));
    assert((e + rest).skip(e.len() as int) =~= rest);
}

/// From a source without bytes nothing is read: every operation that takes
/// at least one byte reports that the source is exhausted.
pub proof fn lemma_empty_source_is_exhausted(count: nat)
    requires
        count > 0,
    ensures
        parse_raw_bytes(Seq::empty(), count).value is Err,
        parse_raw_bytes(Seq::empty(), count).value->Err_0 == ReaderError::UnexpectedEndOfInput,
        parse_bool(Seq::empty()).value == Err::<bool, _>(ReaderError::UnexpectedEndOfInput),
        parse_i8(Seq::empty()).value == Err::<i8, _>(ReaderError::UnexpectedEndOfInput),
        parse_i16(Seq::empty()).value == Err::<i16, _>(ReaderError::UnexpectedEndOfInput),
        parse_i32(Seq::empty()).value == Err::<i32, _>(ReaderError::UnexpectedEndOfInput),
        parse_i64(Seq::empty()).value == Err::<i64, _>(ReaderError::UnexpectedEndOfInput),
        parse_u32(Seq::empty()).value == Err::<u32, _>(ReaderError::UnexpectedEndOfInput),
        parse_unsigned_varint(Seq::empty()).value == Err::<u32, _>(
            ReaderError::UnexpectedEndOfInput,
        ),
        parse_varint(Seq::empty()).value == Err::<i32, _>(ReaderError::UnexpectedEndOfInput),
        parse_unsigned_varlong(Seq::empty()).value == Err::<u64, _>(
            ReaderError::UnexpectedEndOfInput,
        ),
        parse_varlong(Seq::empty()).value == Err::<i64, _>(ReaderError::UnexpectedEndOfInput),
        parse_uuid(Seq::empty()).value == Err::<Seq<char>, _>(ReaderError::UnexpectedEndOfInput),
        parse_string(Seq::empty()).value == Err::<Seq<char>, _>(
            ReaderError::UnexpectedEndOfInput,
        ),
        parse_compact_string(Seq::empty()).value == Err::<Seq<char>, _>(
            ReaderError::UnexpectedEndOfInput,
        ),
        parse_nullable_string(Seq::empty()).value == Err::<Option<Seq<char>>, _>(
            ReaderError::UnexpectedEndOfInput,
        ),
        parse_compact_nullable_string(Seq::empty()).value == Err::<Option<Seq<char>>, _>(
            ReaderError::UnexpectedEndOfInput,
        ),
        parse_bytes(Seq::empty()).value == Err::<Seq<u8>, _>(ReaderError::UnexpectedEndOfInput),
        parse_compact_bytes(Seq::empty()).value == Err::<Seq<u8>, _>(
            ReaderError::UnexpectedEndOfInput,
        ),
        parse_nullable_bytes(Seq::empty()).value == Err::<Option<Seq<u8>>, _>(
            ReaderError::UnexpectedEndOfInput,
        ),
        parse_compact_nullable_bytes(Seq::empty()).value == Err::<Option<Seq<u8>>, _>(
            ReaderError::UnexpectedEndOfInput,
        ),
{
    assert(continuation_run(Seq::<u8>::empty()) == 0);
}

/// A byte array behind a 16-bit length is read back.
pub proof fn lemma_bytes_round_trip(value: Seq<u8>, rest: Seq<u8>)
    ensures
        bytes_encoding(value) matches Ok(e) ==> parse_bytes(e + rest) == (Parsed {
            value: Ok(value),
            rest,
        }),
{
    if bytes_encoding(value) is Ok {
        let prefix = signed_bytes(value.len() as int, 2);
        assert(prefix + value + rest =~= prefix + (value + rest));
        lemma_i16_round_trip(value.len() as i16, value + rest);
        lemma_raw_bytes_round_trip(value, rest);
    }
}

/// A byte array that may be absent, behind a 16-bit length, is read back.
pub proof fn lemma_nullable_bytes_round_trip(value: Option<Seq<u8>>, rest: Seq<u8>)
    ensures
        nullable_bytes_encoding(value) matches Ok(e) ==> parse_nullable_bytes(e + rest) == (Parsed {
            value: Ok(value),
            rest,
        }),
{
    match value {
        Some(bytes) => {
            if bytes_encoding(bytes) is Ok {
                let prefix = signed_bytes(bytes.len() as int, 2);
                assert(prefix + bytes + rest =~= prefix + (bytes + rest));
                lemma_i16_round_trip(bytes.len() as i16, bytes + rest);
                lemma_raw_bytes_round_trip(bytes, rest);
            }
        },
        None => {
            lemma_i16_round_trip(-1i16, rest);
        },
    }
}

/// A byte array behind a compact length is read back.
pub proof fn lemma_compact_bytes_round_trip(value: Seq<u8>, rest: Seq<u8>)
    ensures
        compact_bytes_encoding(value) matches Ok(e) ==> parse_compact_bytes(e + rest) == (Parsed {
            value: Ok(value),
            rest,
        }),
{
    if compact_bytes_encoding(value) is Ok {
        let prefix = uvarint_encoding(value.len() + 1);
        assert(prefix + value + rest =~= prefix + (value + rest));
        lemma_unsigned_varint_round_trip((value.len() + 1) as u32, value + rest);
        lemma_raw_bytes_round_trip(value, rest);
    }
}

/// A byte array that may be absent, behind a compact length, is read back.
pub proof fn lemma_compact_nullable_bytes_round_trip(value: Option<Seq<u8>>, rest: Seq<u8>)
    ensures
        compact_nullable_bytes_encoding(value) matches Ok(e) ==> parse_compact_nullable_bytes(
            e + rest,
        ) == (Parsed { value: Ok(value), rest }),
{
    match value {
        Some(bytes) => {
            if compact_bytes_encoding(bytes) is Ok {
                let prefix = uvarint_encoding(bytes.len() + 1);
                assert(prefix + bytes + rest =~= prefix + (bytes + rest));
                lemma_unsigned_varint_round_trip((bytes.len() + 1) as u32, bytes + rest);
                lemma_raw_bytes_round_trip(bytes, rest);
            }
        },
        None => {
            lemma_unsigned_varint_round_trip(0, rest);
        },
    }
}

/// A string behind a 16-bit length is read back.
pub proof fn lemma_string_round_trip(value: Seq<char>, rest: Seq<u8>)
    ensures
        string_encoding(value) matches Ok(e) ==> parse_string(e + rest) == (Parsed {
            value: Ok(value),
            rest,
        }),
{
    let bytes = encode_utf8(value);
    if bytes_encoding(bytes) is Ok {
        let prefix = signed_bytes(bytes.len() as int, 2);
        assert(prefix + bytes + rest =~= prefix + (bytes + rest));
        lemma_i16_round_trip(bytes.len() as i16, bytes + rest);
        lemma_raw_bytes_round_trip(bytes, rest);
        encode_utf8_valid_utf8(value);
        encode_utf8_decode_utf8(value);
    }
}

/// A string that may be absent, behind a 16-bit length, is read back.
pub proof fn lemma_nullable_string_round_trip(value: Option<Seq<char>>, rest: Seq<u8>)
    ensures
        nullable_string_encoding(value) matches Ok(e) ==> parse_nullable_string(e + rest)
            == (Parsed { value: Ok(value), rest }),
{
    match value {
        Some(text) => {
            let bytes = encode_utf8(text);
            if bytes_encoding(bytes) is Ok {
                let prefix = signed_bytes(bytes.len() as int, 2);
                assert(prefix + bytes + rest =~= prefix + (bytes + rest));
                lemma_i16_round_trip(bytes.len() as i16, bytes + rest);
                lemma_raw_bytes_round_trip(bytes, rest);
                encode_utf8_valid_utf8(text);
                encode_utf8_decode_utf8(text);
            }
        },
        None => {
            lemma_i16_round_trip(-1i16, rest);
        },
    }
}

/// A string behind a compact length is read back.
pub proof fn lemma_compact_string_round_trip(value: Seq<char>, rest: Seq<u8>)
    ensures
        compact_string_encoding(value) matches Ok(e) ==> parse_compact_string(e + rest) == (Parsed {
            value: Ok(value),
            rest,
        }),
{
    let bytes = encode_utf8(value);
    if compact_bytes_encoding(bytes) is Ok {
        let prefix = uvarint_encoding(bytes.len() + 1);
        assert(prefix + bytes + rest =~= prefix + (bytes + rest));
        lemma_unsigned_varint_round_trip((bytes.len() + 1) as u32, bytes + rest);
        lemma_raw_bytes_round_trip(bytes, rest);
        encode_utf8_valid_utf8(value);
        encode_utf8_decode_utf8(value);
    }
}

/// A string that may be absent, behind a compact length, is read back.
pub proof fn lemma_compact_nullable_string_round_trip(value: Option<Seq<char>>, rest: Seq<u8>)
    ensures
        compact_nullable_string_encoding(value) matches Ok(e) ==> parse_compact_nullable_string(
            e + rest,
        ) == (Parsed { value: Ok(value), rest }),
{
    match value {
        Some(text) => {
            let bytes = encode_utf8(text);
            if compact_bytes_encoding(bytes) is Ok {
                let prefix = uvarint_encoding(bytes.len() + 1);
                assert(prefix + bytes + rest =~= prefix + (bytes + rest));
                lemma_unsigned_varint_round_trip((bytes.len() + 1) as u32, bytes + rest);
                lemma_raw_bytes_round_trip(bytes, rest);
                encode_utf8_valid_utf8(text);
                encode_utf8_decode_utf8(text);
            }
        },
        None => {
            lemma_unsigned_varint_round_trip(0, rest);
        },
    }
}

/// The text of a UUID is read back from its sixteen bytes.
pub proof fn lemma_uuid_round_trip(text: Seq<char>, rest: Seq<u8>)
    ensures
        uuid_encoding(text) matches Ok(e) ==> parse_uuid(e + rest) == (Parsed {
            value: Ok(text),
            rest,
        }),
{
    if is_uuid_text(encode_utf8(text)) {
        let raw = uuid_raw_bytes(encode_utf8(text));
        lemma_uuid_text_round_trip(encode_utf8(text));
        lemma_raw_bytes_round_trip(raw, rest);
        encode_utf8_decode_utf8(text);
    }
}

/// The length -1 is how an absent string is written, with nothing after it,
/// and how it is recognised.
pub proof fn lemma_absent_string(rest: Seq<u8>)
    ensures
        nullable_string_encoding(None) == Ok::<Seq<u8>, WriterError>(seq![0xffu8, 0xffu8]),
        parse_nullable_string(seq![0xffu8, 0xffu8] + rest) == (Parsed {
            value: Ok(None::<Seq<char>>),
            rest,
        }),
{
    reveal_with_fuel(bytes_bound, 3);
    reveal_with_fuel(be_bytes, 3);
    assert(signed_bytes(-1, 2) =~= seq![0xffu8, 0xffu8]);
    lemma_i16_round_trip(-1i16, rest);
}

/// A length prefix that is not negative announces a string of exactly that
/// many bytes: they are taken, and they are the bytes of the string read.
pub proof fn lemma_present_string(len: i16, body: Seq<u8>, rest: Seq<u8>)
    requires
        0 <= len == body.len(),
        valid_utf8(body),
    ensures
        parse_nullable_string(signed_bytes(len as int, 2) + body + rest) == (Parsed {
            value: Ok(Some(decode_utf8(body))),
            rest,
        }),
        parse_string(signed_bytes(len as int, 2) + body + rest) == (Parsed {
            value: Ok(decode_utf8(body)),
            rest,
        }),
        encode_utf8(decode_utf8(body)) == body,
{
    let prefix = signed_bytes(len as int, 2);
    assert(prefix + body + rest =~= prefix + (body + rest));
    lemma_i16_round_trip(len, body + rest);
    lemma_raw_bytes_round_trip(body, rest);
    decode_utf8_encode_utf8(body);
}

/// The compact prefix holds the length plus one.
pub proof fn lemma_compact_prefix(value: Seq<u8>, rest: Seq<u8>)
    requires
        compact_bytes_encoding(value) is Ok,
    ensures
        compact_bytes_encoding(value)->Ok_0 == uvarint_encoding(value.len() + 1) + value,
        parse_unsigned_varint(compact_bytes_encoding(value)->Ok_0 + rest) == (Parsed {
            value: Ok((value.len() + 1) as u32),
            rest: value + rest,
        }),
{
    let prefix = uvarint_encoding(value.len() + 1);
    assert(prefix + value + rest =~= prefix + (value + rest));
    lemma_unsigned_varint_round_trip((value.len() + 1) as u32, value + rest);
}

/// The compact prefix zero is the single byte zero.  Where a value may be
/// absent it reads as absence; where a value must be present it is an error.
pub proof fn lemma_compact_zero(rest: Seq<u8>)
    ensures
        uvarint_encoding(0) == seq![0u8],
        parse_compact_nullable_string(seq![0u8] + rest) == (Parsed {
            value: Ok(None::<Seq<char>>),
            rest,
        }),
        parse_compact_nullable_bytes(seq![0u8] + rest) == (Parsed {
            value: Ok(None::<Seq<u8>>),
            rest,
        }),
        parse_compact_string(seq![0u8] + rest) == (Parsed::<Seq<char>> {
            value: Err(ReaderError::InvalidNull),
            rest,
        }),
        parse_compact_bytes(seq![0u8] + rest) == (Parsed::<Seq<u8>> {
            value: Err(ReaderError::InvalidNull),
            rest,
        }),
{
    assert(uvarint_encoding(0) =~= seq![0u8]);
    lemma_unsigned_varint_round_trip(0, rest);
}

/// A tagged field is read back, whatever its tag.
pub proof fn lemma_tagged_field_round_trip(field: TaggedFieldView, rest: Seq<u8>)
    requires
        field.field.len() <= u32::MAX,
    ensures
        TaggedFieldView::parse(field.encoding() + rest) == (Parsed { value: Ok(field), rest }),
{
    let tag = uvarint_encoding(field.tag as nat);
    let len = uvarint_encoding(field.field.len());
    assert(field.encoding() + rest =~= tag + (len + (field.field + rest)));
    lemma_unsigned_varint_round_trip(field.tag, len + (field.field + rest));
    lemma_unsigned_varint_round_trip(field.field.len() as u32, field.field + rest);
    lemma_raw_bytes_round_trip(field.field, rest);
}

/// The wire form of a run of fields starts with the wire form of the first.
pub proof fn lemma_fields_encoding_head(fields: Seq<TaggedFieldView>)
    requires
        fields.len() > 0,
    ensures
        fields_encoding(fields) == fields[0].encoding() + fields_encoding(fields.drop_first()),
    decreases fields.len(),
{
    if fields.len() == 1 {
        assert(fields.drop_last() =~= Seq::<TaggedFieldView>::empty());
        assert(fields.drop_first() =~= Seq::<TaggedFieldView>::empty());
        assert(fields_encoding(fields) =~= fields[0].encoding() + fields_encoding(
            fields.drop_first(),
        ));
    } else {
        lemma_fields_encoding_head(fields.drop_last());
        assert(fields.drop_last().drop_first() =~= fields.drop_first().drop_last());
        assert(fields_encoding(fields) =~= fields[0].encoding() + fields_encoding(
            fields.drop_first(),
        ));
    }
}

/// What is written for a run of tagged fields, when writing succeeds, is the
/// wire form of the run, and every field of the run can be written.
pub proof fn lemma_emitted_fields_encoding(
    fields: Seq<TaggedFieldView>,
    written: Seq<u8>,
    capacity: nat,
)
    requires
        emitted_fields(fields, written, capacity).result is Ok,
    ensures
        emitted_fields(fields, written, capacity).written == written + fields_encoding(fields),
        fields_encodable(fields),
    decreases fields.len(),
{
    if fields.len() > 0 {
        lemma_emitted_fields_encoding(fields.drop_last(), written, capacity);
        let before = emitted_fields(fields.drop_last(), written, capacity);
        assert(emitted_fields(fields, written, capacity).written =~= written + fields_encoding(
            fields,
        ));
        assert forall|i: int| 0 <= i < fields.len() implies (#[trigger] fields[i]).field.len()
            <= u32::MAX by {
            if i < fields.len() - 1 {
                assert(fields.drop_last()[i] == fields[i]);
            }
        }
    } else {
        assert(written + fields_encoding(fields) =~= written);
    }
}

/// A run of tagged fields is read back from its wire form: the tags, the
/// data and the order are those that were written.
pub proof fn lemma_tagged_fields_round_trip(fields: Seq<TaggedFieldView>)
    requires
        fields_encodable(fields),
    ensures
        parse_tagged_fields(fields_encoding(fields)) == (Parsed {
            value: Ok(fields),
            rest: Seq::empty(),
        }),
    decreases fields.len(),
{
    if fields.len() > 0 {
        let tail = fields.drop_first();
        lemma_fields_encoding_head(fields);
        lemma_tagged_field_round_trip(fields[0], fields_encoding(tail));
        assert(fields_encodable(tail)) by {
            assert forall|i: int| 0 <= i < tail.len() implies (#[trigger] tail[i]).field.len()
                <= u32::MAX by {
                assert(tail[i] == fields[i + 1]);
            }
        }
        lemma_tagged_fields_round_trip(tail);
        let input = fields_encoding(fields);
        let first = TaggedFieldView::parse(input);
        assert(uvarint_encoding(fields[0].tag as nat).len() > 0);
        assert(input.len() > fields_encoding(tail).len());
        assert(first == (Parsed { value: Ok(fields[0]), rest: fields_encoding(tail) }));
        assert(seq![fields[0]] + tail =~= fields);
        assert(parse_tagged_fields(input) == after_fields(
            seq![fields[0]],
            parse_tagged_fields(first.rest),
        ));
    } else {
        assert(fields =~= Seq::<TaggedFieldView>::empty());
    }
}

/// A request header of the first version is read back, and what writing it
/// appends, when there is room, is its wire form.
pub proof fn lemma_request_header_v0_round_trip(
    header: v0::RequestHeader,
    rest: Seq<u8>,
    written: Seq<u8>,
    capacity: nat,
)
    ensures
        v0::RequestHeader::parse(header.encoding() + rest) == (Parsed { value: Ok(header), rest }),
        header.encoding().len() == 8,
        header.emitted(written, capacity).result is Ok ==> header.emitted(
            written,
            capacity,
        ).written == written + header.encoding(),
        header.emitted(written, capacity).result is Ok <==> written.len() + 8 <= capacity,
{
    let key = signed_bytes(header.request_api_key as int, 2);
    let version = signed_bytes(header.request_api_version as int, 2);
    let id = signed_bytes(header.correlation_id as int, 4);
    reveal_with_fuel(bytes_bound, 5);
    lemma_signed_value_of_bytes(header.request_api_key as int, 2);
    lemma_signed_value_of_bytes(header.request_api_version as int, 2);
    lemma_signed_value_of_bytes(header.correlation_id as int, 4);
    assert(header.encoding() + rest =~= key + (version + (id + rest)));
    lemma_i16_round_trip(header.request_api_key, version + (id + rest));
    lemma_i16_round_trip(header.request_api_version, id + rest);
    lemma_i32_round_trip(header.correlation_id, rest);
    if header.emitted(written, capacity).result is Ok {
        assert(header.emitted(written, capacity).written =~= written + header.encoding());
    }
}

/// A response header of the first version is read back, and what writing it
/// appends, when there is room, is its wire form.
pub proof fn lemma_response_header_v0_round_trip(
    header: v0::ResponseHeader,
    rest: Seq<u8>,
    written: Seq<u8>,
    capacity: nat,
)
    ensures
        v0::ResponseHeader::parse(header.encoding() + rest) == (Parsed {
            value: Ok(header),
            rest,
        }),
        header.emitted(written, capacity).result is Ok ==> header.emitted(
            written,
            capacity,
        ).written == written + header.encoding(),
{
    lemma_i32_round_trip(header.correlation_id, rest);
}

/// A request header of the second version is read back, and what writing it
/// appends, when it succeeds, is its wire form.
pub proof fn lemma_request_header_v1_round_trip(
    header: v1::RequestHeaderView,
    rest: Seq<u8>,
    written: Seq<u8>,
    capacity: nat,
)
    ensures
        header.encoding() matches Ok(e) ==> v1::RequestHeaderView::parse(e + rest) == (Parsed {
            value: Ok(header),
            rest,
        }),
        header.emitted(written, capacity).result is Ok ==> header.encoding() is Ok
            && header.emitted(written, capacity).written == written + header.encoding()->Ok_0,
{
    if header.encoding() is Ok {
        let name = nullable_string_encoding(header.client_id)->Ok_0;
        assert(header.base().encoding() + name + rest =~= header.base().encoding() + (name
            + rest));
        lemma_request_header_v0_round_trip(header.base(), name + rest, written, capacity);
        lemma_nullable_string_round_trip(header.client_id, rest);
    }
    if header.emitted(written, capacity).result is Ok {
        lemma_request_header_v0_round_trip(header.base(), rest, written, capacity);
        assert(header.emitted(written, capacity).written =~= written + header.encoding()->Ok_0);
    }
}

/// The versions of the request header only add fields: a reader of an
/// earlier version reads its fields from the wire form of a later version and
/// leaves what the later version added.
pub proof fn lemma_request_header_versions_add_fields(header: v2::RequestHeaderView)
    requires
        header.encoding() is Ok,
    ensures
        v1::RequestHeaderView::parse(header.encoding()->Ok_0) == (Parsed {
            value: Ok(header.base()),
            rest: fields_encoding(header.tagged_fields),
        }),
        v0::RequestHeader::parse(header.encoding()->Ok_0) == (Parsed {
            value: Ok(header.base().base()),
            rest: nullable_string_encoding(header.client_id)->Ok_0 + fields_encoding(
                header.tagged_fields,
            ),
        }),
{
    let name = nullable_string_encoding(header.client_id)->Ok_0;
    let fields = fields_encoding(header.tagged_fields);
    let base = header.base().base();
    lemma_request_header_v1_round_trip(header.base(), fields, Seq::empty(), 0);
    lemma_request_header_v0_round_trip(base, name + fields, Seq::empty(), 0);
    assert(header.encoding()->Ok_0 =~= base.encoding() + (name + fields));
}

/// A response header of the second version is read back from an input that
/// ends with it, and what writing it appends, when it succeeds, is its wire
/// form.
pub proof fn lemma_response_header_v1_round_trip(
    header: v1::ResponseHeaderView,
    written: Seq<u8>,
    capacity: nat,
)
    ensures
        header.encoding() matches Ok(e) ==> v1::ResponseHeaderView::parse(e) == (Parsed {
            value: Ok(header),
            rest: Seq::empty(),
        }),
        header.emitted(written, capacity).result is Ok ==> header.encoding() is Ok
            && header.emitted(written, capacity).written == written + header.encoding()->Ok_0,
{
    if header.encoding() is Ok {
        lemma_response_header_v0_round_trip(
            header.base(),
            fields_encoding(header.tagged_fields),
            written,
            capacity,
        );
        lemma_tagged_fields_round_trip(header.tagged_fields);
    }
    if header.emitted(written, capacity).result is Ok {
        let base = header.base().emitted(written, capacity);
        lemma_emitted_fields_encoding(header.tagged_fields, base.written, capacity);
        assert(header.emitted(written, capacity).written =~= written + header.encoding()->Ok_0);
    }
}

/// A request header of the third version is read back from an input that
/// ends with it, and what writing it appends, when it succeeds, is its wire
/// form.
pub proof fn lemma_request_header_v2_round_trip(
    header: v2::RequestHeaderView,
    written: Seq<u8>,
    capacity: nat,
)
    ensures
        header.encoding() matches Ok(e) ==> v2::RequestHeaderView::parse(e) == (Parsed {
            value: Ok(header),
            rest: Seq::empty(),
        }),
        header.emitted(written, capacity).result is Ok ==> header.encoding() is Ok
            && header.emitted(written, capacity).written == written + header.encoding()->Ok_0,
{
    if header.encoding() is Ok {
        lemma_request_header_v1_round_trip(
            header.base(),
            fields_encoding(header.tagged_fields),
            written,
            capacity,
        );
        lemma_tagged_fields_round_trip(header.tagged_fields);
    }
    if header.emitted(written, capacity).result is Ok {
        let base = header.base().emitted(written, capacity);
        lemma_request_header_v1_round_trip(header.base(), Seq::empty(), written, capacity);
        lemma_emitted_fields_encoding(header.tagged_fields, base.written, capacity);
        assert(header.emitted(written, capacity).written =~= written + header.encoding()->Ok_0);
    }
}

/// The names of a run of topics, when they fit their wire form and the sink
/// has room, are written one after the other.
pub proof fn lemma_topics_emitted(topics: Seq<Topic>, written: Seq<u8>, capacity: nat)
    requires
        forall|i: int|
            0 <= i < topics.len() ==> encode_utf8((#[trigger] topics[i]).name@).len() <= i16::MAX,
        written.len() + topics_encoding(topics).len() <= capacity,
    ensures
        emitted_many(topics, written, capacity) == (Emitted {
            result: Ok(()),
            written: written + topics_encoding(topics),
        }),
    decreases topics.len(),
{
    if topics.len() > 0 {
        let front = topics.drop_last();
        assert forall|i: int| 0 <= i < front.len() implies encode_utf8(
            (#[trigger] front[i]).name@,
        ).len() <= i16::MAX by {
            assert(front[i] == topics[i]);
        }
        lemma_topics_emitted(front, written, capacity);
        assert(written + topics_encoding(front) + topic_encoding(topics.last()) =~= written
            + topics_encoding(topics));
    } else {
        assert(written + topics_encoding(topics) =~= written);
    }
}

/// What `to_bytes` appends to a vector is what a sink with room holds after a
/// header of the second version without a client name and then the request
/// were written to it.
pub proof fn lemma_request_frame(
    request: MetadataRequest,
    correlation_id: i32,
    written: Seq<u8>,
    capacity: nat,
)
    requires
        fits_wire(request),
        written.len() + request_header(correlation_id).len() + request_body(request).len()
            <= capacity,
    ensures
        ({
            let header = v1::RequestHeaderView {
                request_api_key: METADATA_API_KEY,
                request_api_version: METADATA_API_VERSION,
                correlation_id,
                client_id: None,
            };
            let after_header = written + request_header(correlation_id);
            &&& header.emitted(written, capacity) == (Emitted {
                result: Ok(()),
                written: after_header,
            })
            &&& request.emitted(after_header, capacity) == (Emitted {
                result: Ok(()),
                written: after_header + request_body(request),
            })
        }),
{
    let header = v1::RequestHeaderView {
        request_api_key: METADATA_API_KEY,
        request_api_version: METADATA_API_VERSION,
        correlation_id,
        client_id: None,
    };
    let after_header = written + request_header(correlation_id);
    reveal_with_fuel(bytes_bound, 5);
    lemma_signed_value_of_bytes(METADATA_API_KEY as int, 2);
    lemma_signed_value_of_bytes(METADATA_API_VERSION as int, 2);
    lemma_signed_value_of_bytes(correlation_id as int, 4);
    lemma_signed_value_of_bytes(-1, 2);
    lemma_signed_value_of_bytes(request.topics@.len() as int, 4);
    assert(header.emitted(written, capacity).written =~= after_header);
    let count = signed_bytes(request.topics@.len() as int, 4);
    assert(after_header + count + topics_encoding(request.topics@) =~= after_header
        + request_body(request));
    lemma_topics_emitted(request.topics@, after_header + count, capacity);
}

/// The wire form of a run of topics starts with the wire form of the first.
pub proof fn lemma_topics_encoding_head(topics: Seq<Topic>)
    requires
        topics.len() > 0,
    ensures
        topics_encoding(topics) == topic_encoding(topics[0]) + topics_encoding(
            topics.drop_first(),
        ),
    decreases topics.len(),
{
    if topics.len() == 1 {
        assert(topics.drop_last() =~= Seq::<Topic>::empty());
        assert(topics.drop_first() =~= Seq::<Topic>::empty());
        assert(topics_encoding(topics) =~= topic_encoding(topics[0]) + topics_encoding(
            topics.drop_first(),
        ));
    } else {
        lemma_topics_encoding_head(topics.drop_last());
        assert(topics.drop_last().drop_first() =~= topics.drop_first().drop_last());
        assert(topics_encoding(topics) =~= topic_encoding(topics[0]) + topics_encoding(
            topics.drop_first(),
        ));
    }
}

/// The names of a run of topics are read back.
pub proof fn lemma_topics_round_trip(topics: Seq<Topic>, rest: Seq<u8>)
    requires
        forall|i: int|
            0 <= i < topics.len() ==> encode_utf8((#[trigger] topics[i]).name@).len() <= i16::MAX,
    ensures
        parse_many::<Topic>(topics_encoding(topics) + rest, topics.len()) == (Parsed {
            value: Ok(views(topics)),
            rest,
        }),
    decreases topics.len(),
{
    if topics.len() > 0 {
        let tail = topics.drop_first();
        lemma_topics_encoding_head(topics);
        assert forall|i: int| 0 <= i < tail.len() implies encode_utf8(
            (#[trigger] tail[i]).name@,
        ).len() <= i16::MAX by {
            assert(tail[i] == topics[i + 1]);
        }
        lemma_topics_round_trip(tail, rest);
        assert(topics_encoding(topics) + rest =~= topic_encoding(topics[0]) + (topics_encoding(
            tail,
        ) + rest));
        lemma_string_round_trip(topics[0].name@, topics_encoding(tail) + rest);
        assert(seq![topics[0]@] + views(tail) =~= views(topics));
    } else {
        assert(topics_encoding(topics) + rest =~= rest);
        assert(views(topics) =~= Seq::<Seq<char>>::empty());
    }
}

/// A metadata request whose lengths fit their wire forms is read back from
/// its body.
pub proof fn lemma_metadata_request_round_trip(request: MetadataRequest, rest: Seq<u8>)
    requires
        fits_wire(request),
    ensures
        MetadataRequest::parse(request_body(request) + rest) == (Parsed {
            value: Ok(request@),
            rest,
        }),
{
    let count = signed_bytes(request.topics@.len() as int, 4);
    let names = topics_encoding(request.topics@);
    assert(request_body(request) + rest =~= count + (names + rest));
    lemma_i32_round_trip(request.topics@.len() as i32, names + rest);
    lemma_topics_round_trip(request.topics@, rest);
}

} // verus!
