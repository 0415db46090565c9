//! The first version of the metadata request and response.
use crate::readable::{parse_counted, read_counted, views, Readable};
use crate::reader::{parse_i16, parse_i32, parse_string, Parsed, Reader, ReaderResult};
use crate::wire::{append_bytes, bytes_bound, signed_bytes, signed_encode};
use crate::writable::{emitted_counted, write_counted, Writable};
use crate::writer::{
    emit, emit_checked, string_encoding, then_emit, Emitted, Writer, WriterError,
    WriterResult, MAX_PREFIXED_LEN,
};
use vstd::prelude::*;
use vstd::utf8::encode_utf8;

verus! {

/// The API key of the metadata request.
pub const METADATA_API_KEY: i16 = 3;

/// The version of the request that `to_bytes` writes.
pub const METADATA_API_VERSION: i16 = 0;

/// A topic to ask about.
#[derive(Debug, Clone)]
pub struct Topic {
    pub name: String,
}

/// Asks for the metadata of some topics.
#[derive(Debug, Clone)]
pub struct MetadataRequest {
    pub topics: Vec<Topic>,
}

/// A broker of the cluster.
#[derive(Debug, Clone)]
pub struct Broker {
    pub node_id: i32,
    pub host: String,
    pub port: i32,
}

/// What is known of one partition of a topic.
#[derive(Debug, Clone)]
pub struct PartitionMetadata {
    pub error_code: i16,
    pub partition_index: i32,
    pub leader_id: i32,
    pub replica_nodes: i32,
    pub isr_nodes: i32,
}

/// What is known of one topic.
#[derive(Debug, Clone)]
pub struct TopicMetadata {
    pub error_code: i32,
    pub name: String,
    pub partitions: Vec<PartitionMetadata>,
}

/// The answer to a metadata request.
#[derive(Debug, Clone)]
pub struct MetadataResponse {
    pub brokers: Vec<Broker>,
    pub topics: Vec<TopicMetadata>,
}

impl View for Topic {
    type V = Seq<char>;

    /// A topic is its name.
    open spec fn view(&self) -> Seq<char> {
        self.name@
    }
}

impl Readable for Topic {
    open spec fn parse(input: Seq<u8>) -> Parsed<Seq<char>> {
        parse_string(input)
    }

    fn read<R: Reader>(reader: &mut R) -> (r: ReaderResult<Self>) {
        let name = reader.next_string()?;
        Ok(Self { name })
    }
}

impl Writable for Topic {
    open spec fn emitted(&self, written: Seq<u8>, capacity: nat) -> Emitted {
        emit_checked(written, capacity, string_encoding(self.name@))
    }

    fn write<W: Writer>(&self, writer: &mut W) -> (r: WriterResult) {
        writer.write_string(self.name.as_str())
    }
}

impl View for MetadataRequest {
    type V = Seq<Seq<char>>;

    /// A request is the names of its topics.
    open spec fn view(&self) -> Seq<Seq<char>> {
        views(self.topics@)
    }
}

impl Readable for MetadataRequest {
    open spec fn parse(input: Seq<u8>) -> Parsed<Seq<Seq<char>>> {
        parse_counted::<Topic>(input)
    }

    fn read<R: Reader>(reader: &mut R) -> (r: ReaderResult<Self>) {
        let topics = read_counted::<Topic, R>(reader)?;
        Ok(Self { topics })
    }
}

impl Writable for MetadataRequest {
    open spec fn emitted(&self, written: Seq<u8>, capacity: nat) -> Emitted {
        emitted_counted(self.topics@, written, capacity)
    }

    fn write<W: Writer>(&self, writer: &mut W) -> (r: WriterResult) {
        write_counted(&self.topics, writer)
    }
}

/// The model of a broker.
pub ghost struct BrokerView {
    pub node_id: i32,
    pub host: Seq<char>,
    pub port: i32,
}

impl View for Broker {
    type V = BrokerView;

    open spec fn view(&self) -> BrokerView {
        BrokerView { node_id: self.node_id, host: self.host@, port: self.port }
    }
}

impl Readable for Broker {
    open spec fn parse(input: Seq<u8>) -> Parsed<BrokerView> {
        let id = parse_i32(input);
        match id.value {
            Err(e) => Parsed { value: Err(e), rest: id.rest },
            Ok(node_id) => {
                let name = parse_string(id.rest);
                match name.value {
                    Err(e) => Parsed { value: Err(e), rest: name.rest },
                    Ok(host) => {
                        let number = parse_i32(name.rest);
                        match number.value {
                            Err(e) => Parsed { value: Err(e), rest: number.rest },
                            Ok(port) => Parsed {
                                value: Ok(BrokerView { node_id, host, port }),
                                rest: number.rest,
                            },
                        }
                    },
                }
            },
        }
    }

    fn read<R: Reader>(reader: &mut R) -> (r: ReaderResult<Self>) {
        let node_id = reader.next_i32()?;
        let host = reader.next_string()?;
        let port = reader.next_i32()?;
        Ok(Self { node_id, host, port })
    }
}

impl Writable for Broker {
    open spec fn emitted(&self, written: Seq<u8>, capacity: nat) -> Emitted {
        then_emit(
            then_emit(
                emit(written, capacity, signed_bytes(self.node_id as int, 4)),
                capacity,
                string_encoding(self.host@),
            ),
            capacity,
            Ok(signed_bytes(self.port as int, 4)),
        )
    }

    fn write<W: Writer>(&self, writer: &mut W) -> (r: WriterResult) {
        writer.write_i32(self.node_id)?;
        writer.write_string(self.host.as_str())?;
        writer.write_i32(self.port)
    }
}

impl View for PartitionMetadata {
    type V = PartitionMetadata;

    open spec fn view(&self) -> PartitionMetadata {
        *self
    }
}

impl Readable for PartitionMetadata {
    open spec fn parse(input: Seq<u8>) -> Parsed<PartitionMetadata> {
        let code = parse_i16(input);
        match code.value {
            Err(e) => Parsed { value: Err(e), rest: code.rest },
            Ok(error_code) => {
                let index = parse_i32(code.rest);
                match index.value {
                    Err(e) => Parsed { value: Err(e), rest: index.rest },
                    Ok(partition_index) => {
                        let leader = parse_i32(index.rest);
                        match leader.value {
                            Err(e) => Parsed { value: Err(e), rest: leader.rest },
                            Ok(leader_id) => {
                                let replicas = parse_i32(leader.rest);
                                match replicas.value {
                                    Err(e) => Parsed { value: Err(e), rest: replicas.rest },
                                    Ok(replica_nodes) => {
                                        let isr = parse_i32(replicas.rest);
                                        match isr.value {
                                            Err(e) => Parsed { value: Err(e), rest: isr.rest },
                                            Ok(isr_nodes) => Parsed {
                                                value: Ok(
                                                    PartitionMetadata {
                                                        error_code,
                                                        partition_index,
                                                        leader_id,
                                                        replica_nodes,
                                                        isr_nodes,
                                                    },
                                                ),
                                                rest: isr.rest,
                                            },
                                        }
                                    },
                                }
                            },
                        }
                    },
                }
            },
        }
    }

    fn read<R: Reader>(reader: &mut R) -> (r: ReaderResult<Self>) {
        let error_code = reader.next_i16()?;
        let partition_index = reader.next_i32()?;
        let leader_id = reader.next_i32()?;
        let replica_nodes = reader.next_i32()?;
        let isr_nodes = reader.next_i32()?;
        Ok(Self { error_code, partition_index, leader_id, replica_nodes, isr_nodes })
    }
}

impl Writable for PartitionMetadata {
    open spec fn emitted(&self, written: Seq<u8>, capacity: nat) -> Emitted {
        then_emit(
            then_emit(
                then_emit(
                    then_emit(
                        emit(written, capacity, signed_bytes(self.error_code as int, 2)),
                        capacity,
                        Ok(signed_bytes(self.partition_index as int, 4)),
                    ),
                    capacity,
                    Ok(signed_bytes(self.leader_id as int, 4)),
                ),
                capacity,
                Ok(signed_bytes(self.replica_nodes as int, 4)),
            ),
            capacity,
            Ok(signed_bytes(self.isr_nodes as int, 4)),
        )
    }

    fn write<W: Writer>(&self, writer: &mut W) -> (r: WriterResult) {
        writer.write_i16(self.error_code)?;
        writer.write_i32(self.partition_index)?;
        writer.write_i32(self.leader_id)?;
        writer.write_i32(self.replica_nodes)?;
        writer.write_i32(self.isr_nodes)
    }
}

/// The model of what is known of a topic.
pub ghost struct TopicMetadataView {
    pub error_code: i32,
    pub name: Seq<char>,
    pub partitions: Seq<PartitionMetadata>,
}

impl View for TopicMetadata {
    type V = TopicMetadataView;

    open spec fn view(&self) -> TopicMetadataView {
        TopicMetadataView {
            error_code: self.error_code,
            name: self.name@,
            partitions: views(self.partitions@),
        }
    }
}

impl Readable for TopicMetadata {
    open spec fn parse(input: Seq<u8>) -> Parsed<TopicMetadataView> {
        let code = parse_i32(input);
        match code.value {
            Err(e) => Parsed { value: Err(e), rest: code.rest },
            Ok(error_code) => {
                let text = parse_string(code.rest);
                match text.value {
                    Err(e) => Parsed { value: Err(e), rest: text.rest },
                    Ok(name) => {
                        let run = parse_counted::<PartitionMetadata>(text.rest);
                        match run.value {
                            Err(e) => Parsed { value: Err(e), rest: run.rest },
                            Ok(partitions) => Parsed {
                                value: Ok(TopicMetadataView { error_code, name, partitions }),
                                rest: run.rest,
                            },
                        }
                    },
                }
            },
        }
    }

    fn read<R: Reader>(reader: &mut R) -> (r: ReaderResult<Self>) {
        let error_code = reader.next_i32()?;
        let name = reader.next_string()?;
        let partitions = read_counted::<PartitionMetadata, R>(reader)?;
        Ok(Self { error_code, name, partitions })
    }
}

impl Writable for TopicMetadata {
    open spec fn emitted(&self, written: Seq<u8>, capacity: nat) -> Emitted {
        let fields = then_emit(
            emit(written, capacity, signed_bytes(self.error_code as int, 4)),
            capacity,
            string_encoding(self.name@),
        );
        if fields.result is Ok {
            emitted_counted(self.partitions@, fields.written, capacity)
        } else {
            fields
        }
    }

    fn write<W: Writer>(&self, writer: &mut W) -> (r: WriterResult) {
        writer.write_i32(self.error_code)?;
        writer.write_string(self.name.as_str())?;
        write_counted(&self.partitions, writer)
    }
}

/// The model of the answer to a metadata request.
pub ghost struct MetadataResponseView {
    pub brokers: Seq<BrokerView>,
    pub topics: Seq<TopicMetadataView>,
}

impl View for MetadataResponse {
    type V = MetadataResponseView;

    open spec fn view(&self) -> MetadataResponseView {
        MetadataResponseView { brokers: views(self.brokers@), topics: views(self.topics@) }
    }
}

impl Readable for MetadataResponse {
    open spec fn parse(input: Seq<u8>) -> Parsed<MetadataResponseView> {
        let first = parse_counted::<Broker>(input);
        match first.value {
            Err(e) => Parsed { value: Err(e), rest: first.rest },
            Ok(brokers) => {
                let second = parse_counted::<TopicMetadata>(first.rest);
                match second.value {
                    Err(e) => Parsed { value: Err(e), rest: second.rest },
                    Ok(topics) => Parsed {
                        value: Ok(MetadataResponseView { brokers, topics }),
                        rest: second.rest,
                    },
                }
            },
        }
    }

    fn read<R: Reader>(reader: &mut R) -> (r: ReaderResult<Self>) {
        let brokers = read_counted::<Broker, R>(reader)?;
        let topics = read_counted::<TopicMetadata, R>(reader)?;
        Ok(Self { brokers, topics })
    }
}

impl Writable for MetadataResponse {
    open spec fn emitted(&self, written: Seq<u8>, capacity: nat) -> Emitted {
        let first = emitted_counted(self.brokers@, written, capacity);
        if first.result is Ok {
            emitted_counted(self.topics@, first.written, capacity)
        } else {
            first
        }
    }

    fn write<W: Writer>(&self, writer: &mut W) -> (r: WriterResult) {
        write_counted(&self.brokers, writer)?;
        write_counted(&self.topics, writer)
    }
}

/// A topic name on the wire: a signed 16-bit length, then the UTF-8 bytes.
pub open spec fn topic_encoding(topic: Topic) -> Seq<u8> {
    signed_bytes(encode_utf8(topic.name@).len() as int, 2) + encode_utf8(topic.name@)
}

/// The names of the topics, one after the other.
pub open spec fn topics_encoding(topics: Seq<Topic>) -> Seq<u8>
    decreases topics.len(),
{
    if topics.len() == 0 {
        Seq::empty()
    } else {
        topics_encoding(topics.drop_last()) + topic_encoding(topics.last())
    }
}

/// The body of the request: the number of topics in 32 bits, then the names.
pub open spec fn request_body(request: MetadataRequest) -> Seq<u8> {
    signed_bytes(request.topics@.len() as int, 4) + topics_encoding(request.topics@)
}

/// The header that `to_bytes` writes: the API key, the version, the
/// correlation id, and -1 for a client without a name.
pub open spec fn request_header(correlation_id: i32) -> Seq<u8> {
    signed_bytes(METADATA_API_KEY as int, 2) + signed_bytes(METADATA_API_VERSION as int, 2)
        + signed_bytes(correlation_id as int, 4) + signed_bytes(-1, 2)
}

/// Whether the lengths of the request fit their wire forms: the number of
/// topics a signed 32-bit count, the length of each name a signed 16-bit one.
pub open spec fn fits_wire(request: MetadataRequest) -> bool {
    &&& request.topics@.len() <= i32::MAX
    &&& forall|i: int|
        0 <= i < request.topics@.len() ==> encode_utf8(
            (#[trigger] request.topics@[i]).name@,
        ).len() <= i16::MAX
}

/// Tests whether the lengths of the request fit their wire forms.
pub fn check_fits_wire(request: &MetadataRequest) -> (fits: bool)
    ensures
        fits == fits_wire(*request),
{
    if request.topics.len() > i32::MAX as usize {
        return false;
    }
    let mut i: usize = 0;
    while i < request.topics.len()
        invariant
            i <= request.topics.len(),
            forall|k: int|
                0 <= k < i ==> encode_utf8((#[trigger] request.topics@[k]).name@).len()
                    <= i16::MAX,
        decreases request.topics.len() - i,
    {
        if request.topics[i].name.as_str().as_bytes().len() > MAX_PREFIXED_LEN {
            return false;
        }
        i = i + 1;
    }
    true
}

/// Appends a metadata request to `buf`: the header, then the body.
///
/// A request with a length that does not fit its wire form is refused as out
/// of range, and `buf` is left as it was: no length is ever cut to fit.
pub fn to_bytes(request: MetadataRequest, correlation_id: i32, buf: &mut Vec<u8>) -> (r:
    WriterResult)
    ensures
        match r {
            Ok(_) => fits_wire(request) && final(buf)@ == old(buf)@ + request_header(
                correlation_id,
            ) + request_body(request),
            Err(e) => !fits_wire(request) && e == WriterError::ValueOutOfRange && final(buf)@
                == old(buf)@,
        },
{
    if !check_fits_wire(&request) {
        return Err(WriterError::ValueOutOfRange);
    }
    proof {
        reveal_with_fuel(bytes_bound, 5);
    }
    // The API key for metadata is 3
    append_bytes(buf, signed_encode(METADATA_API_KEY as i64, 2).as_slice());
    // Version is 0
    append_bytes(buf, signed_encode(METADATA_API_VERSION as i64, 2).as_slice());
    // Write correlation_id
    append_bytes(buf, signed_encode(correlation_id as i64, 4).as_slice());
    // Write the client id
    append_bytes(buf, signed_encode(-1, 2).as_slice());
    assert(buf@ =~= old(buf)@ + request_header(correlation_id));
    // Write the request
    append_bytes(buf, signed_encode(request.topics.len() as i64, 4).as_slice());
    let ghost start = buf@;
    let mut i: usize = 0;
    assert(request.topics@.take(0) =~= Seq::<Topic>::empty());
    assert(start + Seq::<u8>::empty() =~= start);
    while i < request.topics.len()
        invariant
            i <= request.topics.len(),
            fits_wire(request),
            buf@ == start + topics_encoding(request.topics@.take(i as int)),
        decreases request.topics.len() - i,
    {
        let name = request.topics[i].name.as_str().as_bytes();
        proof {
            reveal_with_fuel(bytes_bound, 3);
            let all = request.topics@;
            assert(all.take(i + 1).drop_last() =~= all.take(i as int));
            assert(all.take(i + 1).last() == all[i as int]);
        }
        let ghost before = buf@;
        append_bytes(buf, signed_encode(name.len() as i64, 2).as_slice());
        append_bytes(buf, name);
        assert(buf@ =~= before + topic_encoding(request.topics@[i as int]));
        assert(buf@ =~= start + topics_encoding(request.topics@.take(i + 1)));
        i = i + 1;
    }
    assert(request.topics@.take(request.topics.len() as int) =~= request.topics@);
    assert(buf@ =~= old(buf)@ + request_header(correlation_id) + request_body(request));
    Ok(())
}

} // verus!
