//! The packet: its fields, the test that finds the next frame in a buffer,
//! and the splitting of a payload into packets.

use vstd::prelude::*;
use vstd::slice::slice_to_vec;
use crate::bytes::{copy_range, read_u16, read_u32, u32_at, write_all, write_u16, write_u32};
use crate::errors::{CuteError, CuteErrorCode};
use crate::wire::{
    checksum,
    frame_check,
    holds_frame,
    parse_frame,
    sealed_packet,
    FrameCheck,
    PacketView,
};

verus! {

/// The number every frame starts with.
pub const CUTE_DELIMITER: u32 = 0x12345678;

/// The size of a frame's header.
pub const HEADER_SIZE: usize = 24;

/// The size of a frame's tail.
pub const TAIL_SIZE: usize = 4;

/// The most payload bytes one frame carries.
pub const MAX_PAYLOAD_SIZE: usize = 65536 - HEADER_SIZE - TAIL_SIZE;

/// The most frames one payload is split into: the chunk count is 16 bits wide.
pub const MAX_CHUNKS: usize = 65535;

/// The most payload bytes that can be split into frames.
pub const MAX_MESSAGE_SIZE: usize = MAX_CHUNKS * MAX_PAYLOAD_SIZE;

/// What a frame asks of its receiver.
#[derive(Clone, Copy, Debug, PartialEq, Eq, Structural)]
pub enum CutePacketType {
    Empty,
    Unary,
    Streaming,
    StreamClose,
    StreamAllClose,
}

/// The number that stands for a packet type on the wire.
pub open spec fn type_number(t: CutePacketType) -> u32 {
    match t {
        CutePacketType::Empty => 0,
        CutePacketType::Unary => 1,
        CutePacketType::Streaming => 2,
        CutePacketType::StreamClose => 3,
        CutePacketType::StreamAllClose => 4,
    }
}

/// The packet type that a number on the wire stands for; a number that
/// stands for none reads as `Empty`.
pub open spec fn type_of_number(n: u32) -> CutePacketType {
    if n == 1 {
        CutePacketType::Unary
    } else if n == 2 {
        CutePacketType::Streaming
    } else if n == 3 {
        CutePacketType::StreamClose
    } else if n == 4 {
        CutePacketType::StreamAllClose
    } else {
        CutePacketType::Empty
    }
}

impl CutePacketType {
    /// The number that stands for this type on the wire.
    pub fn number(self) -> (n: u32)
        ensures
            n == type_number(self),
    {
        match self {
            CutePacketType::Empty => 0,
            CutePacketType::Unary => 1,
            CutePacketType::Streaming => 2,
            CutePacketType::StreamClose => 3,
            CutePacketType::StreamAllClose => 4,
        }
    }

    /// The type that `n` stands for; `Empty` where it stands for none.
    pub fn from_number(n: u32) -> (t: CutePacketType)
        ensures
            t == type_of_number(n),
    {
        if n == 1 {
            CutePacketType::Unary
        } else if n == 2 {
            CutePacketType::Streaming
        } else if n == 3 {
            CutePacketType::StreamClose
        } else if n == 4 {
            CutePacketType::StreamAllClose
        } else {
            CutePacketType::Empty
        }
    }
}

/// The answer of the validity test on a receive buffer.
pub enum CutePacketValid {
    /// A whole frame is there; the number is its size in bytes.
    ValidOK(usize),
    /// More bytes are needed.
    DataShort,
    /// The bytes at the head of the buffer are no frame.
    ValidFailed(CuteError),
}

/// The seven fields of a frame's header.
#[derive(Debug)]
pub struct CutePacketHeader {
    delimiter: u32,
    protocol: u32,
    length: u32,
    compress_length: u32,
    protocol_type: u32,
    idx: u16,
    count: u16,
}

/// A header as contracts see it.
pub struct HeaderView {
    pub delimiter: u32,
    pub protocol: u32,
    pub length: u32,
    pub compress_length: u32,
    pub protocol_type: u32,
    pub idx: u16,
    pub count: u16,
}

impl View for CutePacketHeader {
    type V = HeaderView;

    closed spec fn view(&self) -> HeaderView {
        HeaderView {
            delimiter: self.delimiter,
            protocol: self.protocol,
            length: self.length,
            compress_length: self.compress_length,
            protocol_type: self.protocol_type,
            idx: self.idx,
            count: self.count,
        }
    }
}

impl Default for CutePacketHeader {
    /// The header whose seven fields are zero.
    fn default() -> (h: Self)
        ensures
            h@ == (HeaderView {
                delimiter: 0,
                protocol: 0,
                length: 0,
                compress_length: 0,
                protocol_type: 0,
                idx: 0,
                count: 0,
            }),
    {
        CutePacketHeader {
            delimiter: 0,
            protocol: 0,
            length: 0,
            compress_length: 0,
            protocol_type: 0,
            idx: 0,
            count: 0,
        }
    }
}

/// One packet: header, payload and tail.
#[derive(Debug)]
pub struct CutePacket {
    header: CutePacketHeader,
    payload: Vec<u8>,
    tail: u32,
}

impl View for CutePacket {
    type V = PacketView;

    closed spec fn view(&self) -> PacketView {
        PacketView {
            delimiter: self.header.delimiter,
            protocol: self.header.protocol,
            length: self.header.length,
            compress_length: self.header.compress_length,
            protocol_type: self.header.protocol_type,
            idx: self.header.idx,
            count: self.header.count,
            payload: self.payload@,
            tail: self.tail,
        }
    }
}

/// The sum that a frame's tail has to hold.
fn header_sum(
    delimiter: u32,
    protocol: u32,
    length: u32,
    compress_length: u32,
    protocol_type: u32,
    idx: u16,
    count: u16,
) -> (sum: u32)
    ensures
        sum == checksum(delimiter, protocol, length, compress_length, protocol_type, idx, count),
{
    let sum: u64 = delimiter as u64 + protocol as u64 + length as u64 + compress_length as u64
        + protocol_type as u64 + idx as u64 + count as u64;
    (sum % 0x1_0000_0000) as u32
}

/// Builds the sealed packet that carries `payload` as chunk `idx` of `count`.
fn seal(payload: Vec<u8>, protocol: u32, protocol_type: CutePacketType, idx: u16, count: u16) -> (p:
    Box<CutePacket>)
    requires
        payload@.len() <= u32::MAX,
    ensures
        p@ == sealed_packet(payload@, protocol, protocol_type, idx, count),
{
    let length = payload.len() as u32;
    let number = protocol_type.number();
    Box::new(
        CutePacket {
            header: CutePacketHeader {
                delimiter: CUTE_DELIMITER,
                protocol,
                length,
                compress_length: 0,
                protocol_type: number,
                idx,
                count,
            },
            payload,
            tail: header_sum(CUTE_DELIMITER, protocol, length, 0, number, idx, count),
        },
    )
}

/// What the transport asks of a packet format.
///
/// The three spec functions say on which inputs the format's constructors
/// may be called; the format defines them.
pub trait CutePacketTrait: Sized + Send + Sync + 'static {
    /// `buf` holds at its head all the bytes of one frame of this format.
    spec fn frame_ready(buf: Seq<u8>) -> bool;

    /// The most payload bytes that one packet of this format carries.
    spec fn single_limit() -> nat;

    /// The most payload bytes that this format splits into packets.
    spec fn message_limit() -> nat;

    /// The size of the packet's header.
    fn get_header_size() -> usize;

    /// The size of the packet's tail.
    fn get_tail_size() -> usize;

    /// How a receiver recovers when the head of its buffer is no frame:
    /// 0 says to drop the whole buffer, another number says to drop that
    /// many bytes and to look again.
    fn get_drain_size() -> usize;

    /// Tests whether the buffer starts with a whole frame. After `ValidOK(n)`
    /// the first `n` bytes can be handed to `recv_create_packet`.
    fn is_valid(store_data: &Vec<u8>) -> (r: CutePacketValid)
        ensures
            r matches CutePacketValid::ValidOK(n) ==> n <= store_data@.len() && Self::frame_ready(
                store_data@.subrange(0, n as int),
            ),
    ;

    /// Reads the packet that the frame at the head of `store_data` spells.
    fn recv_create_packet(store_data: &[u8]) -> (p: Box<Self>)
        requires
            Self::frame_ready(store_data@),
    ;

    /// Splits `write_data` into packets, in order.
    fn chuck_create_packet(
        write_data: Vec<u8>,
        protocol: u32,
        protocol_type: CutePacketType,
    ) -> (packets: Vec<Box<Self>>)
        requires
            write_data@.len() <= Self::message_limit(),
    ;

    /// The one packet that carries `write_data`.
    fn send_create_packet(write_data: Vec<u8>, protocol: u32, protocol_type: CutePacketType) -> (p:
        Box<Self>)
        requires
            write_data@.len() <= Self::single_limit(),
    ;

    /// The packet that reports `err` to the peer, for a format that reports
    /// errors. A format that does not says `None`, which is the default.
    fn error_create_packet(err: CuteError) -> (p: Option<Box<Self>>)
        default_ensures
            p is None,
    {
        None
    }

    fn get_packet_protocol(&self) -> u32;

    fn get_packet_type(&self) -> CutePacketType;

    /// The packet's place among the chunks of its payload.
    fn get_chuck_idx(&self) -> usize;

    /// The number of chunks that the packet's payload was split into.
    fn get_chuck_size(&self) -> usize;

    fn get_payload(&self) -> Vec<u8>;

    /// The packet's bytes on the wire.
    fn serialize(&self) -> Vec<u8>;
}

/// The number of packets that a payload of `len` bytes is split into: one
/// for up to `MAX_PAYLOAD_SIZE` bytes, the empty payload included.
pub open spec fn chunk_count(len: nat) -> nat {
    if len <= MAX_PAYLOAD_SIZE {
        1
    } else {
        ((len + MAX_PAYLOAD_SIZE - 1) / (MAX_PAYLOAD_SIZE as int)) as nat
    }
}

/// The part of `data` that chunk `i` carries.
pub open spec fn chunk_payload(data: Seq<u8>, i: int) -> Seq<u8>
    recommends
        0 <= i < chunk_count(data.len()),
{
    let from = i * MAX_PAYLOAD_SIZE;
    let to = if from + MAX_PAYLOAD_SIZE <= data.len() {
        from + MAX_PAYLOAD_SIZE
    } else {
        data.len() as int
    };
    data.subrange(from, to)
}

/// Chunk `i` of the packets that `data` is split into.
pub open spec fn chunk_packet(
    data: Seq<u8>,
    protocol: u32,
    protocol_type: CutePacketType,
    i: int,
) -> PacketView
    recommends
        0 <= i < chunk_count(data.len()),
{
    sealed_packet(
        chunk_payload(data, i),
        protocol,
        protocol_type,
        i as u16,
        chunk_count(data.len()) as u16,
    )
}

/// The packets that a payload is split into, in order.
pub open spec fn chunk_packets(
    data: Seq<u8>,
    protocol: u32,
    protocol_type: CutePacketType,
) -> Seq<PacketView> {
    Seq::new(chunk_count(data.len()), |i: int| chunk_packet(data, protocol, protocol_type, i))
}

/// The payloads of `packets`, one behind the other.
pub open spec fn joined_payloads(packets: Seq<PacketView>) -> Seq<u8>
    decreases packets.len(),
{
    if packets.len() == 0 {
        Seq::empty()
    } else {
        joined_payloads(packets.drop_last()) + packets.last().payload
    }
}

/// What a sequence of packets is in contracts.
pub open spec fn packet_views(packets: Seq<Box<CutePacket>>) -> Seq<PacketView> {
    Seq::new(packets.len(), |i: int| packets[i]@)
}

/// The chunks but the last are full, the last is not empty, and a payload
/// of up to `MAX_MESSAGE_SIZE` bytes makes at most `MAX_CHUNKS` of them.
pub proof fn lemma_chunk_count_bounds(len: nat)
    ensures
        chunk_count(len) >= 1,
        len > 0 ==> (chunk_count(len) - 1) * MAX_PAYLOAD_SIZE < len,
        len <= chunk_count(len) * MAX_PAYLOAD_SIZE,
        len <= MAX_MESSAGE_SIZE ==> chunk_count(len) <= MAX_CHUNKS,
{
    if len > 65508 {
        let q = (len + 65507) / 65508;
        assert(65508 * q <= len + 65507 < 65508 * q + 65508);
    }
}

/// Every packet that a payload is split into is sealed.
pub proof fn lemma_chunk_is_sealed(
    data: Seq<u8>,
    protocol: u32,
    protocol_type: CutePacketType,
    i: int,
)
    requires
        0 <= i < chunk_count(data.len()),
    ensures
        chunk_packet(data, protocol, protocol_type, i).sealed(),
        chunk_packet(data, protocol, protocol_type, i).payload.len() <= MAX_PAYLOAD_SIZE,
{
    lemma_chunk_count_bounds(data.len());
    assert(MAX_PAYLOAD_SIZE == 65508);
    assert(0 <= i * 65508 <= data.len());
}

/// The first `k` chunks of a payload, joined, are its first bytes.
proof fn lemma_join_prefix(
    data: Seq<u8>,
    protocol: u32,
    protocol_type: CutePacketType,
    k: nat,
)
    requires
        k <= chunk_count(data.len()),
    ensures
        joined_payloads(chunk_packets(data, protocol, protocol_type).take(k as int))
            == data.subrange(
            0,
            if k * MAX_PAYLOAD_SIZE <= data.len() {
                (k * MAX_PAYLOAD_SIZE) as int
            } else {
                data.len() as int
            },
        ),
    decreases k,
{
    let packets = chunk_packets(data, protocol, protocol_type);
    lemma_chunk_count_bounds(data.len());
    assert(MAX_PAYLOAD_SIZE == 65508);
    if k == 0 {
        assert(packets.take(0).len() == 0);
        assert(data.subrange(0, 0) =~= Seq::<u8>::empty());
    } else {
        lemma_join_prefix(data, protocol, protocol_type, (k - 1) as nat);
        let pre = packets.take(k as int);
        assert(pre.drop_last() =~= packets.take(k - 1));
        assert(pre.last() == chunk_packet(data, protocol, protocol_type, k - 1));
        let from: int = (k - 1) * 65508;
        let to: int = if k * 65508 <= data.len() {
            (k * 65508) as int
        } else {
            data.len() as int
        };
        assert(from <= data.len());
        assert(chunk_payload(data, k - 1) == data.subrange(from, to));
        assert(data.subrange(0, from) + data.subrange(from, to) =~= data.subrange(0, to));
    }
}

/// Splitting, then joining: the payloads of the packets that a payload is
/// split into, taken in the order of their indices and put one behind the
/// other, are the payload, whatever its length.
pub proof fn lemma_split_then_join(data: Seq<u8>, protocol: u32, protocol_type: CutePacketType)
    ensures
        joined_payloads(chunk_packets(data, protocol, protocol_type)) == data,
{
    let packets = chunk_packets(data, protocol, protocol_type);
    lemma_chunk_count_bounds(data.len());
    lemma_join_prefix(data, protocol, protocol_type, packets.len());
    assert(packets.take(packets.len() as int) =~= packets);
    assert(data.subrange(0, data.len() as int) =~= data);
}

impl Default for CutePacket {
    /// A zero header, a payload of `MAX_PAYLOAD_SIZE` zero bytes, a zero tail.
    fn default() -> (p: Self)
        ensures
            p@ == (PacketView {
                delimiter: 0,
                protocol: 0,
                length: 0,
                compress_length: 0,
                protocol_type: 0,
                idx: 0,
                count: 0,
                payload: Seq::new(MAX_PAYLOAD_SIZE as nat, |i: int| 0u8),
                tail: 0,
            }),
    {
        let mut payload: Vec<u8> = Vec::new();
        let mut i: usize = 0;
        while i < MAX_PAYLOAD_SIZE
            invariant
                i <= MAX_PAYLOAD_SIZE,
                payload@ == Seq::new(i as nat, |j: int| 0u8),
            decreases MAX_PAYLOAD_SIZE - i,
        {
            payload.push(0);
            i = i + 1;
            assert(payload@ =~= Seq::new(i as nat, |j: int| 0u8));
        }
        CutePacket { header: CutePacketHeader::default(), payload, tail: 0 }
    }
}

impl CutePacketTrait for CutePacket {
    open spec fn frame_ready(buf: Seq<u8>) -> bool {
        holds_frame(buf)
    }

    open spec fn single_limit() -> nat {
        MAX_PAYLOAD_SIZE as nat
    }

    open spec fn message_limit() -> nat {
        MAX_MESSAGE_SIZE as nat
    }

    fn get_header_size() -> (n: usize)
        ensures
            n == HEADER_SIZE,
    {
        HEADER_SIZE
    }

    fn get_tail_size() -> (n: usize)
        ensures
            n == TAIL_SIZE,
    {
        TAIL_SIZE
    }

    /// 0: a receiver drops its whole buffer when the head is no frame.
    fn get_drain_size() -> (n: usize)
        ensures
            n == 0,
    {
        0
    }

    /// `DataShort` as long as the buffer does not hold the header and the
    /// bytes that the header asks for; then `ValidFailed` for a wrong
    /// delimiter or a wrong tail, and `ValidOK` with the frame's size
    /// otherwise.
    fn is_valid(store_data: &Vec<u8>) -> (r: CutePacketValid)
        ensures
            match frame_check(store_data@) {
                FrameCheck::Short => r is DataShort,
                FrameCheck::Complete { len } => r == CutePacketValid::ValidOK(len as usize),
                FrameCheck::BadDelimiter => r matches CutePacketValid::ValidFailed(e) && e.code
                    == CuteErrorCode::Internal && e.message@
                    == "Packet delimiter do not match."@,
                FrameCheck::BadChecksum => r matches CutePacketValid::ValidFailed(e) && e.code
                    == CuteErrorCode::Internal && e.message@ == "Packet valid failed."@,
            },
    {
        if store_data.len() < HEADER_SIZE {
            return CutePacketValid::DataShort;
        }
        let bytes = store_data.as_slice();
        let data_delimiter = read_u32(bytes, 0);
        let data_protocol = read_u32(bytes, 4);
        let data_len = read_u32(bytes, 8);
        let data_comp_len = read_u32(bytes, 12);
        let proc_type = read_u32(bytes, 16);
        let idx = read_u16(bytes, 20);
        let count = read_u16(bytes, 22);
        let have: u64 = store_data.len() as u64;
        let need: u64 = HEADER_SIZE as u64 + data_len as u64 + TAIL_SIZE as u64;
        if need > have {
            return CutePacketValid::DataShort;
        }
        let tail = read_u32(bytes, HEADER_SIZE + data_len as usize);
        if data_delimiter != CUTE_DELIMITER {
            CutePacketValid::ValidFailed(CuteError::internal("Packet delimiter do not match."))
        } else if tail == header_sum(
            data_delimiter,
            data_protocol,
            data_len,
            data_comp_len,
            proc_type,
            idx,
            count,
        ) {
            proof {
                assert(store_data@.subrange(0, need as int).len() == need);
                assert(u32_at(store_data@.subrange(0, need as int), 8) == u32_at(store_data@, 8));
            }
            CutePacketValid::ValidOK(HEADER_SIZE + data_len as usize + TAIL_SIZE)
        } else {
            CutePacketValid::ValidFailed(CuteError::internal("Packet valid failed."))
        }
    }

    /// The packet that the frame at the head of `store_data` spells, field
    /// by field; bytes behind the frame are not read.
    fn recv_create_packet(store_data: &[u8]) -> (p: Box<Self>)
        ensures
            p@ == parse_frame(store_data@),
    {
        let have = store_data.len();
        assert(holds_frame(store_data@));
        let data_delimiter = read_u32(store_data, 0);
        let data_protocol = read_u32(store_data, 4);
        let data_len = read_u32(store_data, 8);
        let data_comp_len = read_u32(store_data, 12);
        let proc_type = read_u32(store_data, 16);
        let idx = read_u16(store_data, 20);
        let count = read_u16(store_data, 22);
        let end: usize = HEADER_SIZE + data_len as usize;
        let tail = read_u32(store_data, end);
        Box::new(
            CutePacket {
                header: CutePacketHeader {
                    delimiter: data_delimiter,
                    protocol: data_protocol,
                    length: data_len,
                    compress_length: data_comp_len,
                    protocol_type: proc_type,
                    idx,
                    count,
                },
                payload: copy_range(store_data, HEADER_SIZE, end),
                tail,
            },
        )
    }

    /// One packet with index 0 and count 1 for a payload of up to
    /// `MAX_PAYLOAD_SIZE` bytes; for a longer one, packets of
    /// `MAX_PAYLOAD_SIZE` bytes and a last one with the rest, with rising
    /// indices and their number as the count. Every packet is sealed, and
    /// the payloads in order make up `write_data`.
    fn chuck_create_packet(
        write_data: Vec<u8>,
        protocol: u32,
        protocol_type: CutePacketType,
    ) -> (packets: Vec<Box<Self>>)
        ensures
            packet_views(packets@) == chunk_packets(write_data@, protocol, protocol_type),
            joined_payloads(packet_views(packets@)) == write_data@,
    {
        let mut result: Vec<Box<CutePacket>> = Vec::new();
        let total = write_data.len();
        proof {
            lemma_split_then_join(write_data@, protocol, protocol_type);
        }
        if total <= MAX_PAYLOAD_SIZE {
            proof {
                assert(chunk_payload(write_data@, 0) =~= write_data@);
            }
            let ghost data = write_data@;
            result.push(seal(write_data, protocol, protocol_type, 0, 1));
            assert(packet_views(result@) =~= chunk_packets(data, protocol, protocol_type));
            return result;
        }
        let chuck_size: usize = (total + (MAX_PAYLOAD_SIZE - 1)) / MAX_PAYLOAD_SIZE;
        proof {
            lemma_chunk_count_bounds(total as nat);
        }
        let mut idx: usize = 0;
        while idx < chuck_size
            invariant
                total == write_data@.len(),
                MAX_PAYLOAD_SIZE < total <= MAX_MESSAGE_SIZE,
                chuck_size == chunk_count(total as nat),
                chuck_size <= MAX_CHUNKS,
                (chuck_size - 1) * 65508 < total,
                idx <= chuck_size,
                result@.len() == idx,
                forall|i: int|
                    0 <= i < idx ==> (#[trigger] result@[i])@ == chunk_packet(
                        write_data@,
                        protocol,
                        protocol_type,
                        i,
                    ),
            decreases chuck_size - idx,
        {
            assert(MAX_PAYLOAD_SIZE == 65508);
            assert(idx * 65508 <= (chuck_size - 1) * 65508);
            let from: usize = idx * MAX_PAYLOAD_SIZE;
            let to: usize = if total - from >= MAX_PAYLOAD_SIZE {
                from + MAX_PAYLOAD_SIZE
            } else {
                total
            };
            let item = copy_range(write_data.as_slice(), from, to);
            result.push(seal(item, protocol, protocol_type, idx as u16, chuck_size as u16));
            idx = idx + 1;
        }
        assert(packet_views(result@) =~= chunk_packets(write_data@, protocol, protocol_type));
        result
    }

    /// The sealed packet with index 0 and count 1 that carries `write_data`.
    fn send_create_packet(write_data: Vec<u8>, protocol: u32, protocol_type: CutePacketType) -> (p:
        Box<Self>)
        ensures
            p@ == sealed_packet(write_data@, protocol, protocol_type, 0, 1),
    {
        seal(write_data, protocol, protocol_type, 0, 1)
    }

    fn get_packet_protocol(&self) -> (protocol: u32)
        ensures
            protocol == self@.protocol,
    {
        self.header.protocol
    }

    /// The type that the header's number stands for; `Empty` where it
    /// stands for none.
    fn get_packet_type(&self) -> (t: CutePacketType)
        ensures
            t == type_of_number(self@.protocol_type),
    {
        CutePacketType::from_number(self.header.protocol_type)
    }

    fn get_chuck_idx(&self) -> (idx: usize)
        ensures
            idx == self@.idx,
    {
        self.header.idx as usize
    }

    fn get_chuck_size(&self) -> (count: usize)
        ensures
            count == self@.count,
    {
        self.header.count as usize
    }

    /// A copy of the payload.
    fn get_payload(&self) -> (payload: Vec<u8>)
        ensures
            payload@ == self@.payload,
    {
        slice_to_vec(self.payload.as_slice())
    }

    /// Header, payload and tail, as they go over the wire.
    fn serialize(&self) -> (bytes: Vec<u8>)
        ensures
            bytes@ == self@.bytes(),
    {
        let mut out: Vec<u8> = Vec::new();
        write_u32(&mut out, self.header.delimiter);
        write_u32(&mut out, self.header.protocol);
        write_u32(&mut out, self.header.length);
        write_u32(&mut out, self.header.compress_length);
        write_u32(&mut out, self.header.protocol_type);
        write_u16(&mut out, self.header.idx);
        write_u16(&mut out, self.header.count);
        write_all(&mut out, self.payload.as_slice());
        write_u32(&mut out, self.tail);
        proof {
            reveal(PacketView::bytes);
            assert(out@ =~= self@.bytes());
        }
        out
    }
}

} // verus!
