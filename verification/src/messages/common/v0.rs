//! The first version of the headers.
use crate::readable::Readable;
use crate::reader::{parse_i16, parse_i32, Parsed, Reader, ReaderResult};
use crate::wire::signed_bytes;
use crate::writable::Writable;
use crate::writer::{emit, then_emit, Emitted, Writer, WriterResult};
use vstd::prelude::*;

verus! {

/// What precedes every request.
#[derive(Debug, Clone, PartialEq, Eq)]
pub struct RequestHeader {
    pub request_api_key: i16,
    pub request_api_version: i16,
    pub correlation_id: i32,
}

impl View for RequestHeader {
    type V = RequestHeader;

    open spec fn view(&self) -> RequestHeader {
        *self
    }
}

impl RequestHeader {
    /// The wire form: the three numbers, big-endian, in eight bytes.
    pub open spec fn encoding(self) -> Seq<u8> {
        signed_bytes(self.request_api_key as int, 2) + signed_bytes(
            self.request_api_version as int,
            2,
        ) + signed_bytes(self.correlation_id as int, 4)
    }
}

impl Readable for RequestHeader {
    open spec fn parse(input: Seq<u8>) -> Parsed<RequestHeader> {
        let key = parse_i16(input);
        match key.value {
            Err(e) => Parsed { value: Err(e), rest: key.rest },
            Ok(request_api_key) => {
                let version = parse_i16(key.rest);
                match version.value {
                    Err(e) => Parsed { value: Err(e), rest: version.rest },
                    Ok(request_api_version) => {
                        let id = parse_i32(version.rest);
                        match id.value {
                            Err(e) => Parsed { value: Err(e), rest: id.rest },
                            Ok(correlation_id) => Parsed {
                                value: Ok(
                                    RequestHeader {
                                        request_api_key,
                                        request_api_version,
                                        correlation_id,
                                    },
                                ),
                                rest: id.rest,
                            },
                        }
                    },
                }
            },
        }
    }

    fn read<R: Reader>(reader: &mut R) -> (r: ReaderResult<Self>) {
        let request_api_key = reader.next_i16()?;
        let request_api_version = reader.next_i16()?;
        let correlation_id = reader.next_i32()?;
        Ok(Self { request_api_key, request_api_version, correlation_id })
    }
}

impl Writable for RequestHeader {
    open spec fn emitted(&self, written: Seq<u8>, capacity: nat) -> Emitted {
        then_emit(
            then_emit(
                emit(written, capacity, signed_bytes(self.request_api_key as int, 2)),
                capacity,
                Ok(signed_bytes(self.request_api_version as int, 2)),
            ),
            capacity,
            Ok(signed_bytes(self.correlation_id as int, 4)),
        )
    }

    fn write<W: Writer>(&self, writer: &mut W) -> (r: WriterResult) {
        writer.write_i16(self.request_api_key)?;
        writer.write_i16(self.request_api_version)?;
        writer.write_i32(self.correlation_id)?;
        Ok(())
    }
}

/// What precedes every response.
#[derive(Debug, Clone, PartialEq, Eq)]
pub struct ResponseHeader {
    pub correlation_id: i32,
}

impl View for ResponseHeader {
    type V = ResponseHeader;

    open spec fn view(&self) -> ResponseHeader {
        *self
    }
}

impl ResponseHeader {
    /// The wire form: the number, big-endian, in four bytes.
    pub open spec fn encoding(self) -> Seq<u8> {
        signed_bytes(self.correlation_id as int, 4)
    }
}

impl Readable for ResponseHeader {
    open spec fn parse(input: Seq<u8>) -> Parsed<ResponseHeader> {
        let id = parse_i32(input);
        match id.value {
            Err(e) => Parsed { value: Err(e), rest: id.rest },
            Ok(correlation_id) => Parsed {
                value: Ok(ResponseHeader { correlation_id }),
                rest: id.rest,
            },
        }
    }

    fn read<R: Reader>(reader: &mut R) -> (r: ReaderResult<Self>) {
        let correlation_id = reader.next_i32()?;
        Ok(Self { correlation_id })
    }
}

impl Writable for ResponseHeader {
    open spec fn emitted(&self, written: Seq<u8>, capacity: nat) -> Emitted {
        emit(written, capacity, signed_bytes(self.correlation_id as int, 4))
    }

    fn write<W: Writer>(&self, writer: &mut W) -> (r: WriterResult) {
        writer.write_i32(self.correlation_id)?;
        Ok(())
    }
}

} // verus!
