//! The third version of the request header: tagged fields follow the
//! client's name.
use crate::messages::common::v1;
use crate::messages::common::{
    emitted_fields, fields_encodable, fields_encoding, fields_view, parse_tagged_fields,
    read_tagged_fields, write_tagged_fields, TaggedField, TaggedFieldView,
};
use crate::readable::Readable;
use crate::reader::{Parsed, Reader, ReaderResult};
use crate::writable::Writable;
use crate::writer::{Emitted, Writer, WriterError, WriterResult};
use vstd::prelude::*;

verus! {

/// What precedes every request.
#[derive(Debug, Clone, PartialEq, Eq)]
pub struct RequestHeader {
    pub request_api_key: i16,
    pub request_api_version: i16,
    pub correlation_id: i32,
    pub client_id: Option<String>,
    pub tagged_fields: Vec<TaggedField>,
}

/// The model of a request header.
pub ghost struct RequestHeaderView {
    pub request_api_key: i16,
    pub request_api_version: i16,
    pub correlation_id: i32,
    pub client_id: Option<Seq<char>>,
    pub tagged_fields: Seq<TaggedFieldView>,
}

impl View for RequestHeader {
    type V = RequestHeaderView;

    open spec fn view(&self) -> RequestHeaderView {
        RequestHeaderView {
            request_api_key: self.request_api_key,
            request_api_version: self.request_api_version,
            correlation_id: self.correlation_id,
            client_id: match self.client_id {
                Some(id) => Some(id@),
                None => None,
            },
            tagged_fields: fields_view(self.tagged_fields@),
        }
    }
}

impl RequestHeaderView {
    /// The fields that the second version has too.
    pub open spec fn base(self) -> v1::RequestHeaderView {
        v1::RequestHeaderView {
            request_api_key: self.request_api_key,
            request_api_version: self.request_api_version,
            correlation_id: self.correlation_id,
            client_id: self.client_id,
        }
    }

    /// The wire form: the fields of the second version, then the tagged
    /// fields.
    pub open spec fn encoding(self) -> Result<Seq<u8>, WriterError> {
        match self.base().encoding() {
            Ok(base) => if fields_encodable(self.tagged_fields) {
                Ok(base + fields_encoding(self.tagged_fields))
            } else {
                Err(WriterError::ValueOutOfRange)
            },
            Err(e) => Err(e),
        }
    }

    /// What writing the header leaves in a sink: the fields of the second
    /// version, then the tagged fields.
    pub open spec fn emitted(self, written: Seq<u8>, capacity: nat) -> Emitted {
        let base = self.base().emitted(written, capacity);
        if base.result is Ok {
            emitted_fields(self.tagged_fields, base.written, capacity)
        } else {
            base
        }
    }

    /// What reading a header makes of an input.  The tagged fields run to the
    /// end of the input.
    pub open spec fn parse(input: Seq<u8>) -> Parsed<RequestHeaderView> {
        let base = v1::RequestHeaderView::parse(input);
        match base.value {
            Err(e) => Parsed { value: Err(e), rest: base.rest },
            Ok(b) => {
                let fields = parse_tagged_fields(base.rest);
                match fields.value {
                    Err(e) => Parsed { value: Err(e), rest: fields.rest },
                    Ok(tagged_fields) => Parsed {
                        value: Ok(
                            RequestHeaderView {
                                request_api_key: b.request_api_key,
                                request_api_version: b.request_api_version,
                                correlation_id: b.correlation_id,
                                client_id: b.client_id,
                                tagged_fields,
                            },
                        ),
                        rest: fields.rest,
                    },
                }
            },
        }
    }
}

impl Readable for RequestHeader {
    open spec fn parse(input: Seq<u8>) -> Parsed<RequestHeaderView> {
        RequestHeaderView::parse(input)
    }

    fn read<R: Reader>(reader: &mut R) -> (r: ReaderResult<Self>) {
        let request_api_key = reader.next_i16()?;
        let request_api_version = reader.next_i16()?;
        let correlation_id = reader.next_i32()?;
        let client_id = reader.next_nullable_string()?;
        let tagged_fields = read_tagged_fields(reader)?;
        Ok(Self { request_api_key, request_api_version, correlation_id, client_id, tagged_fields })
    }
}

impl Writable for RequestHeader {
    open spec fn emitted(&self, written: Seq<u8>, capacity: nat) -> Emitted {
        self@.emitted(written, capacity)
    }

    fn write<W: Writer>(&self, writer: &mut W) -> (r: WriterResult) {
        writer.write_i16(self.request_api_key)?;
        writer.write_i16(self.request_api_version)?;
        writer.write_i32(self.correlation_id)?;
        match &self.client_id {
            Some(id) => writer.write_nullable_string(Some(id.as_str()))?,
            None => writer.write_nullable_string(None)?,
        }
        write_tagged_fields(&self.tagged_fields, writer)
    }
}

} // verus!
