use abkaf::buffer::BoundedBuffer;
use abkaf::messages::common::{read_tagged_fields, v0, v1, v2, write_tagged_fields, TaggedField};
use abkaf::messages::metadata::v0::{
    check_fits_wire, to_bytes, Broker, MetadataRequest, MetadataResponse, PartitionMetadata,
    Topic, TopicMetadata,
};
use abkaf::parsing::Parser;
use abkaf::readable::{read_counted, read_many, Readable};
use abkaf::reader::{Reader, ReaderError};
use abkaf::writable::{write_counted, write_many, Writable};
use abkaf::writer::WriterError;

#[test]
fn metadata_request_end_to_end() {
    let request = MetadataRequest { topics: vec![Topic { name: String::from("coinbase-user") }] };
    let mut buf: Vec<u8> = Vec::new();
    to_bytes(request, 99, &mut buf).unwrap();
    let mut expected: Vec<u8> = vec![
        0x00, 0x03, // api_key = 3
        0x00, 0x00, // api_version = 0
        0x00, 0x00, 0x00, 0x63, // correlation_id = 99
        0xff, 0xff, // client_id length = -1
        0x00, 0x00, 0x00, 0x01, // topic count = 1
        0x00, 0x0d, // name length = 13
    ];
    expected.extend_from_slice(b"coinbase-user");
    assert_eq!(buf, expected);
}

#[test]
fn metadata_request_is_appended_to_what_the_buffer_holds() {
    let request = MetadataRequest {
        topics: vec![Topic { name: String::from("a") }, Topic { name: String::new() }],
    };
    let mut buf: Vec<u8> = vec![0xaa];
    to_bytes(request, -1, &mut buf).unwrap();
    assert_eq!(
        buf,
        vec![
            0xaa, 0x00, 0x03, 0x00, 0x00, 0xff, 0xff, 0xff, 0xff, 0xff, 0xff, 0x00, 0x00, 0x00,
            0x02, 0x00, 0x01, 0x61, 0x00, 0x00,
        ]
    );
}

#[test]
fn metadata_request_without_topics() {
    let mut buf: Vec<u8> = Vec::new();
    to_bytes(MetadataRequest { topics: vec![] }, 0, &mut buf).unwrap();
    assert_eq!(buf, vec![0, 3, 0, 0, 0, 0, 0, 0, 0xff, 0xff, 0, 0, 0, 0]);
}

#[test]
fn metadata_request_header_reads_as_a_version_one_header() {
    let request = MetadataRequest { topics: vec![Topic { name: String::from("t") }] };
    let mut buf: Vec<u8> = Vec::new();
    to_bytes(request, 99, &mut buf).unwrap();
    let mut p = Parser::new(&buf);
    assert_eq!(
        v1::RequestHeader::read(&mut p),
        Ok(v1::RequestHeader {
            request_api_key: 3,
            request_api_version: 0,
            correlation_id: 99,
            client_id: None,
        })
    );
    assert_eq!(p.next_i32(), Ok(1));
    assert_eq!(Reader::next_string(&mut p), Ok(String::from("t")));
    assert!(p.at_end());
}

#[test]
fn request_header_v0_layout() {
    let header = v0::RequestHeader {
        request_api_key: 3,
        request_api_version: 1,
        correlation_id: 0x01020304,
    };
    let mut out: Vec<u8> = Vec::new();
    assert_eq!(header.write(&mut out), Ok(()));
    assert_eq!(out, vec![0, 3, 0, 1, 1, 2, 3, 4]);
    let mut p = Parser::new(&out);
    assert_eq!(v0::RequestHeader::read(&mut p), Ok(header));
    assert!(p.at_end());
}

#[test]
fn request_header_v0_cut_short() {
    let bytes: [u8; 7] = [0, 3, 0, 1, 1, 2, 3];
    let mut p = Parser::new(&bytes);
    assert_eq!(v0::RequestHeader::read(&mut p), Err(ReaderError::UnexpectedEndOfInput));
    assert_eq!(p.remaining_len(), 3);
}

#[test]
fn request_header_v0_stops_at_the_first_field_without_room() {
    let header =
        v0::RequestHeader { request_api_key: 3, request_api_version: 1, correlation_id: 7 };
    let mut out = BoundedBuffer::new(6);
    assert_eq!(header.write(&mut out), Err(WriterError::BufferOverflow));
    assert_eq!(out.as_slice(), &[0, 3, 0, 1]);
}

#[test]
fn response_header_v0_layout() {
    let header = v0::ResponseHeader { correlation_id: -2 };
    let mut out: Vec<u8> = Vec::new();
    assert_eq!(header.write(&mut out), Ok(()));
    assert_eq!(out, vec![0xff, 0xff, 0xff, 0xfe]);
    let mut p = Parser::new(&out);
    assert_eq!(v0::ResponseHeader::read(&mut p), Ok(header));
}

#[test]
fn request_header_v1_adds_the_client_id() {
    let header = v1::RequestHeader {
        request_api_key: 3,
        request_api_version: 1,
        correlation_id: 99,
        client_id: Some(String::from("me")),
    };
    let mut out: Vec<u8> = Vec::new();
    assert_eq!(header.write(&mut out), Ok(()));
    assert_eq!(out, vec![0, 3, 0, 1, 0, 0, 0, 99, 0, 2, 0x6d, 0x65]);
    let mut p = Parser::new(&out);
    assert_eq!(v1::RequestHeader::read(&mut p), Ok(header));
    // The first eight bytes are a header of the first version.
    let mut p = Parser::new(&out);
    assert_eq!(
        v0::RequestHeader::read(&mut p),
        Ok(v0::RequestHeader { request_api_key: 3, request_api_version: 1, correlation_id: 99 })
    );
}

#[test]
fn request_header_v1_with_overlong_client_id() {
    let header = v1::RequestHeader {
        request_api_key: 3,
        request_api_version: 1,
        correlation_id: 99,
        client_id: Some("c".repeat(40000)),
    };
    let mut out: Vec<u8> = Vec::new();
    assert_eq!(header.write(&mut out), Err(WriterError::ValueOutOfRange));
    assert_eq!(out, vec![0, 3, 0, 1, 0, 0, 0, 99]);
}

#[test]
fn request_header_v2_adds_tagged_fields() {
    let header = v2::RequestHeader {
        request_api_key: 3,
        request_api_version: 9,
        correlation_id: 1,
        client_id: None,
        tagged_fields: vec![
            TaggedField { tag: 0, field: vec![0xaa] },
            TaggedField { tag: 300, field: vec![] },
        ],
    };
    let mut out: Vec<u8> = Vec::new();
    assert_eq!(header.write(&mut out), Ok(()));
    assert_eq!(out, vec![0, 3, 0, 9, 0, 0, 0, 1, 0xff, 0xff, 0, 1, 0xaa, 0x82, 0x2c, 0]);
    let mut p = Parser::new(&out);
    assert_eq!(v2::RequestHeader::read(&mut p), Ok(header));
    assert!(p.at_end());
}

#[test]
fn response_header_v1_adds_tagged_fields() {
    let header = v1::ResponseHeader {
        correlation_id: 5,
        tagged_fields: vec![TaggedField { tag: 1, field: vec![1, 2] }],
    };
    let mut out: Vec<u8> = Vec::new();
    assert_eq!(header.write(&mut out), Ok(()));
    assert_eq!(out, vec![0, 0, 0, 5, 1, 2, 1, 2]);
    let mut p = Parser::new(&out);
    assert_eq!(v1::ResponseHeader::read(&mut p), Ok(header));
    let plain = v1::ResponseHeader { correlation_id: 5, tagged_fields: vec![] };
    let mut p = Parser::new(&out[0..4]);
    assert_eq!(v1::ResponseHeader::read(&mut p), Ok(plain));
}

#[test]
fn tagged_field_layout() {
    let field = TaggedField { tag: 7, field: vec![1, 2, 3] };
    let mut out: Vec<u8> = Vec::new();
    assert_eq!(field.write(&mut out), Ok(()));
    assert_eq!(out, vec![7, 3, 1, 2, 3]);
    let mut p = Parser::new(&out);
    assert_eq!(TaggedField::read(&mut p), Ok(field));
}

#[test]
fn tagged_field_without_room_for_its_data() {
    let field = TaggedField { tag: 7, field: vec![1, 2, 3] };
    let mut out = BoundedBuffer::new(4);
    assert_eq!(field.write(&mut out), Err(WriterError::BufferOverflow));
    assert_eq!(out.as_slice(), &[7, 3]);
}

#[test]
fn tagged_fields_round_trip_with_arbitrary_tags() {
    let fields = vec![
        TaggedField { tag: u32::MAX, field: vec![0xde, 0xad] },
        TaggedField { tag: 0, field: vec![] },
        TaggedField { tag: 128, field: vec![0; 200] },
        TaggedField { tag: 0, field: vec![0x80] },
        TaggedField { tag: 42, field: vec![1] },
    ];
    let mut out: Vec<u8> = Vec::new();
    assert_eq!(write_tagged_fields(&fields, &mut out), Ok(()));
    assert_eq!(out.len(), 8 + 2 + (2 + 2 + 200) + 3 + 3);
    assert_eq!(&out[0..8], &[0x8f, 0xff, 0xff, 0xff, 0x7f, 2, 0xde, 0xad]);
    let mut p = Parser::new(&out);
    assert_eq!(read_tagged_fields(&mut p), Ok(fields));
    assert!(p.at_end());
}

#[test]
fn no_tagged_fields_is_no_bytes() {
    let mut out: Vec<u8> = Vec::new();
    assert_eq!(write_tagged_fields(&vec![], &mut out), Ok(()));
    assert!(out.is_empty());
    let mut p = Parser::new(&out);
    assert_eq!(read_tagged_fields(&mut p), Ok(vec![]));
}

#[test]
fn tagged_fields_cut_short() {
    let tag_only: [u8; 4] = [1, 0, 2, 1];
    let mut p = Parser::new(&tag_only);
    assert_eq!(read_tagged_fields(&mut p), Err(ReaderError::UnexpectedEndOfInput));
    let no_length: [u8; 1] = [9];
    let mut p = Parser::new(&no_length);
    assert_eq!(read_tagged_fields(&mut p), Err(ReaderError::UnexpectedEndOfInput));
    let tag_too_large: [u8; 6] = [0xff, 0xff, 0xff, 0xff, 0x7f, 0];
    let mut p = Parser::new(&tag_too_large);
    assert_eq!(read_tagged_fields(&mut p), Err(ReaderError::ValueTooLarge));
}

#[test]
fn metadata_request_body_is_written_and_read() {
    let request = MetadataRequest {
        topics: vec![Topic { name: String::from("a") }, Topic { name: String::from("bc") }],
    };
    let mut out: Vec<u8> = Vec::new();
    assert_eq!(request.write(&mut out), Ok(()));
    assert_eq!(out, vec![0, 0, 0, 2, 0, 1, 0x61, 0, 2, 0x62, 0x63]);
    let mut p = Parser::new(&out);
    let read = MetadataRequest::read(&mut p).unwrap();
    assert_eq!(read.topics.len(), 2);
    assert_eq!(read.topics[0].name, "a");
    assert_eq!(read.topics[1].name, "bc");
    assert!(p.at_end());
}

#[test]
fn to_bytes_is_header_then_request() {
    let topics = vec![Topic { name: String::from("coinbase-user") }];
    let mut expected: Vec<u8> = Vec::new();
    let header = v1::RequestHeader {
        request_api_key: 3,
        request_api_version: 0,
        correlation_id: 99,
        client_id: None,
    };
    assert_eq!(header.write(&mut expected), Ok(()));
    assert_eq!(MetadataRequest { topics: topics.clone() }.write(&mut expected), Ok(()));
    let mut buf: Vec<u8> = Vec::new();
    to_bytes(MetadataRequest { topics }, 99, &mut buf).unwrap();
    assert_eq!(buf, expected);
}

#[test]
fn metadata_request_with_overlong_name() {
    let request = MetadataRequest {
        topics: vec![Topic { name: String::from("ok") }, Topic { name: "n".repeat(0x8000) }],
    };
    assert!(!check_fits_wire(&request));
    let mut out: Vec<u8> = Vec::new();
    assert_eq!(request.write(&mut out), Err(WriterError::ValueOutOfRange));
    assert_eq!(out, vec![0, 0, 0, 2, 0, 2, 0x6f, 0x6b]);
    let longest = MetadataRequest { topics: vec![Topic { name: "n".repeat(0x7fff) }] };
    assert!(check_fits_wire(&longest));
    assert!(check_fits_wire(&MetadataRequest { topics: vec![] }));
}

#[test]
fn metadata_request_with_negative_count() {
    let bytes: [u8; 4] = [0xff, 0xff, 0xff, 0xff];
    let mut p = Parser::new(&bytes);
    assert!(matches!(MetadataRequest::read(&mut p), Err(ReaderError::NegativeLength)));
}

#[test]
fn metadata_request_with_fewer_topics_than_counted() {
    let bytes: [u8; 7] = [0, 0, 0, 2, 0, 1, 0x61];
    let mut p = Parser::new(&bytes);
    assert!(matches!(MetadataRequest::read(&mut p), Err(ReaderError::UnexpectedEndOfInput)));
    assert!(p.at_end());
}

#[test]
fn metadata_response_is_written_and_read() {
    let response = MetadataResponse {
        brokers: vec![Broker { node_id: 1, host: String::from("core1"), port: 9094 }],
        topics: vec![
            TopicMetadata {
                error_code: 0,
                name: String::from("t"),
                partitions: vec![
                    PartitionMetadata {
                        error_code: 0,
                        partition_index: 0,
                        leader_id: 1,
                        replica_nodes: 1,
                        isr_nodes: 1,
                    },
                    PartitionMetadata {
                        error_code: -1,
                        partition_index: 1,
                        leader_id: -1,
                        replica_nodes: 0,
                        isr_nodes: 0,
                    },
                ],
            },
            TopicMetadata { error_code: 3, name: String::new(), partitions: vec![] },
        ],
    };
    let mut out: Vec<u8> = Vec::new();
    assert_eq!(response.write(&mut out), Ok(()));
    let mut expected: Vec<u8> = vec![0, 0, 0, 1]; // one broker
    expected.extend_from_slice(&[0, 0, 0, 1, 0, 5]);
    expected.extend_from_slice(b"core1");
    expected.extend_from_slice(&[0, 0, 0x23, 0x86]);
    expected.extend_from_slice(&[0, 0, 0, 2]); // two topics
    expected.extend_from_slice(&[0, 0, 0, 0, 0, 1, 0x74, 0, 0, 0, 2]);
    expected.extend_from_slice(&[0, 0, 0, 0, 0, 0, 0, 0, 0, 1, 0, 0, 0, 1, 0, 0, 0, 1]);
    expected.extend_from_slice(&[
        0xff, 0xff, 0, 0, 0, 1, 0xff, 0xff, 0xff, 0xff, 0, 0, 0, 0, 0, 0, 0, 0,
    ]);
    expected.extend_from_slice(&[0, 0, 0, 3, 0, 0, 0, 0, 0, 0]);
    assert_eq!(out, expected);

    let mut p = Parser::new(&out);
    let read = MetadataResponse::read(&mut p).unwrap();
    assert!(p.at_end());
    assert_eq!(read.brokers.len(), 1);
    assert_eq!(read.brokers[0].node_id, 1);
    assert_eq!(read.brokers[0].host, "core1");
    assert_eq!(read.brokers[0].port, 9094);
    assert_eq!(read.topics.len(), 2);
    assert_eq!(read.topics[0].name, "t");
    assert_eq!(read.topics[0].partitions.len(), 2);
    assert_eq!(read.topics[0].partitions[1].error_code, -1);
    assert_eq!(read.topics[0].partitions[1].partition_index, 1);
    assert_eq!(read.topics[0].partitions[1].leader_id, -1);
    assert_eq!(read.topics[0].partitions[0].isr_nodes, 1);
    assert_eq!(read.topics[1].error_code, 3);
    assert_eq!(read.topics[1].name, "");
    assert!(read.topics[1].partitions.is_empty());
}

#[test]
fn metadata_response_cut_short() {
    let bytes: [u8; 9] = [0, 0, 0, 1, 0, 0, 0, 1, 0];
    let mut p = Parser::new(&bytes);
    assert!(matches!(MetadataResponse::read(&mut p), Err(ReaderError::UnexpectedEndOfInput)));
    assert_eq!(p.remaining_len(), 1);
}

#[test]
fn counted_runs_are_written_with_their_count() {
    let partitions = vec![PartitionMetadata {
        error_code: 1,
        partition_index: 2,
        leader_id: 3,
        replica_nodes: 4,
        isr_nodes: 5,
    }];
    let mut out: Vec<u8> = Vec::new();
    assert_eq!(write_counted(&partitions, &mut out), Ok(()));
    assert_eq!(out, vec![0, 0, 0, 1, 0, 1, 0, 0, 0, 2, 0, 0, 0, 3, 0, 0, 0, 4, 0, 0, 0, 5]);
    let mut p = Parser::new(&out);
    let read: Vec<PartitionMetadata> = read_counted(&mut p).unwrap();
    assert_eq!(read.len(), 1);
    assert_eq!(read[0].isr_nodes, 5);
    let mut p = Parser::new(&out[4..]);
    let read: Vec<PartitionMetadata> = read_many(&mut p, 1).unwrap();
    assert_eq!(read[0].leader_id, 3);
    let mut bare: Vec<u8> = Vec::new();
    assert_eq!(write_many(&partitions, &mut bare), Ok(()));
    assert_eq!(bare, out[4..].to_vec());
    let mut small = BoundedBuffer::new(5);
    assert_eq!(write_counted(&partitions, &mut small), Err(WriterError::BufferOverflow));
    assert_eq!(small.as_slice(), &[0, 0, 0, 1]);
}

#[test]
fn to_bytes_refuses_a_name_too_long_for_its_length_field() {
    let request = MetadataRequest {
        topics: vec![Topic { name: String::from("ok") }, Topic { name: "n".repeat(0x8000) }],
    };
    let mut buf: Vec<u8> = vec![0xaa, 0xbb];
    assert_eq!(to_bytes(request, 99, &mut buf), Err(WriterError::ValueOutOfRange));
    assert_eq!(buf, vec![0xaa, 0xbb]);
}

#[test]
fn to_bytes_takes_the_longest_name_that_fits() {
    let request = MetadataRequest { topics: vec![Topic { name: "n".repeat(0x7fff) }] };
    let mut buf: Vec<u8> = Vec::new();
    assert_eq!(to_bytes(request, 1, &mut buf), Ok(()));
    assert_eq!(buf.len(), 14 + 2 + 0x7fff);
    assert_eq!(&buf[10..16], &[0, 0, 0, 1, 0x7f, 0xff]);
    assert_eq!(buf[16], 0x6e);
}

#[test]
fn to_bytes_counts_the_bytes_of_a_name_not_its_characters() {
    let fits = MetadataRequest { topics: vec![Topic { name: "\u{e9}".repeat(0x3fff) }] };
    let mut buf: Vec<u8> = Vec::new();
    assert_eq!(to_bytes(fits, 1, &mut buf), Ok(()));
    assert_eq!(&buf[14..16], &[0x7f, 0xfe]);
    let too_long = MetadataRequest { topics: vec![Topic { name: "\u{e9}".repeat(0x4000) }] };
    let mut buf: Vec<u8> = Vec::new();
    assert_eq!(to_bytes(too_long, 1, &mut buf), Err(WriterError::ValueOutOfRange));
    assert!(buf.is_empty());
}
