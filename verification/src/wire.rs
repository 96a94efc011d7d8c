//! The layout of a frame on the wire, and what a receiver reads from it.
//!
//! A frame is a header of 24 bytes, the payload, and a tail of 4 bytes. All
//! integers are little-endian:
//!
//! | offset | size | field |
//! |---|---|---|
//! | 0 | 4 | delimiter |
//! | 4 | 4 | protocol key |
//! | 8 | 4 | payload length N |
//! | 12 | 4 | compressed length |
//! | 16 | 4 | packet type |
//! | 20 | 2 | chunk index |
//! | 22 | 2 | chunk count |
//! | 24 | N | payload |
//! | 24+N | 4 | tail: the wrapping sum of the seven header fields |

use vstd::prelude::*;
use crate::bytes::{
    lemma_u16_at_its_bytes,
    lemma_u32_at_its_bytes,
    u16_at,
    u16_bytes,
    u32_at,
    u32_bytes,
};
use crate::packet::{type_number, CutePacketType, CUTE_DELIMITER, HEADER_SIZE, TAIL_SIZE};

verus! {

/// The wrapping sum of the seven header fields.
pub open spec fn checksum(
    delimiter: u32,
    protocol: u32,
    length: u32,
    compress_length: u32,
    protocol_type: u32,
    idx: u16,
    count: u16,
) -> u32 {
    ((delimiter + protocol + length + compress_length + protocol_type + idx + count)
        % 0x1_0000_0000) as u32
}

/// A packet as contracts see it: the nine fields of a frame.
pub struct PacketView {
    pub delimiter: u32,
    pub protocol: u32,
    pub length: u32,
    pub compress_length: u32,
    pub protocol_type: u32,
    pub idx: u16,
    pub count: u16,
    pub payload: Seq<u8>,
    pub tail: u32,
}

impl PacketView {
    /// The wrapping sum of this packet's header fields.
    pub open spec fn checksum(self) -> u32 {
        checksum(
            self.delimiter,
            self.protocol,
            self.length,
            self.compress_length,
            self.protocol_type,
            self.idx,
            self.count,
        )
    }

    /// The packet is one that a receiver accepts: it starts with the
    /// delimiter, states the length of its payload, and its tail is the sum
    /// of its header.
    pub open spec fn sealed(self) -> bool {
        &&& self.delimiter == CUTE_DELIMITER
        &&& self.length == self.payload.len()
        &&& self.tail == self.checksum()
    }

    /// The bytes of the header.
    pub open spec fn header_bytes(self) -> Seq<u8> {
        u32_bytes(self.delimiter) + u32_bytes(self.protocol) + u32_bytes(self.length) + u32_bytes(
            self.compress_length,
        ) + u32_bytes(self.protocol_type) + u16_bytes(self.idx) + u16_bytes(self.count)
    }

    /// The bytes of the packet on the wire.
    #[verifier::opaque]
    pub open spec fn bytes(self) -> Seq<u8> {
        self.header_bytes() + self.payload + u32_bytes(self.tail)
    }
}

/// The packet that carries `payload` as chunk `idx` of `count`, sealed.
pub open spec fn sealed_packet(
    payload: Seq<u8>,
    protocol: u32,
    protocol_type: CutePacketType,
    idx: u16,
    count: u16,
) -> PacketView {
    PacketView {
        delimiter: CUTE_DELIMITER,
        protocol,
        length: payload.len() as u32,
        compress_length: 0,
        protocol_type: type_number(protocol_type),
        idx,
        count,
        payload,
        tail: checksum(
            CUTE_DELIMITER,
            protocol,
            payload.len() as u32,
            0,
            type_number(protocol_type),
            idx,
            count,
        ),
    }
}

/// The number of bytes that the frame at the head of `buf` occupies,
/// by the length that its header states.
pub open spec fn frame_len(buf: Seq<u8>) -> int
    recommends
        buf.len() >= HEADER_SIZE,
{
    HEADER_SIZE + u32_at(buf, 8) + TAIL_SIZE
}

/// `buf` holds at its head all the bytes of one frame.
pub open spec fn holds_frame(buf: Seq<u8>) -> bool {
    buf.len() >= HEADER_SIZE && buf.len() >= frame_len(buf)
}

/// The packet that the frame at the head of `buf` spells.
pub open spec fn parse_frame(buf: Seq<u8>) -> PacketView
    recommends
        holds_frame(buf),
{
    let n = u32_at(buf, 8) as int;
    PacketView {
        delimiter: u32_at(buf, 0),
        protocol: u32_at(buf, 4),
        length: u32_at(buf, 8),
        compress_length: u32_at(buf, 12),
        protocol_type: u32_at(buf, 16),
        idx: u16_at(buf, 20),
        count: u16_at(buf, 22),
        payload: buf.subrange(HEADER_SIZE as int, HEADER_SIZE + n),
        tail: u32_at(buf, HEADER_SIZE + n),
    }
}

/// What the head of a receive buffer holds.
pub enum FrameCheck {
    /// Not yet all the bytes of a frame.
    Short,
    /// A frame of `len` bytes whose delimiter and tail are right.
    Complete { len: nat },
    /// All the bytes that the header asks for, under a wrong delimiter.
    BadDelimiter,
    /// All the bytes that the header asks for, with a tail that is not the
    /// sum of the header.
    BadChecksum,
}

/// Tests the head of a receive buffer. The length is looked at first: as
/// long as the bytes that the header asks for are not all there, nothing
/// else is judged.
pub open spec fn frame_check(buf: Seq<u8>) -> FrameCheck {
    if !holds_frame(buf) {
        FrameCheck::Short
    } else if parse_frame(buf).delimiter != CUTE_DELIMITER {
        FrameCheck::BadDelimiter
    } else if parse_frame(buf).tail != parse_frame(buf).checksum() {
        FrameCheck::BadChecksum
    } else {
        FrameCheck::Complete { len: frame_len(buf) as nat }
    }
}

/// A sealed packet's bytes, whatever follows them, are found to be one
/// complete frame, as long as the frame is the packet's bytes and no more;
/// and reading the frame gives the packet again.
pub proof fn lemma_sealed_bytes_read_back(p: PacketView, rest: Seq<u8>)
    requires
        p.sealed(),
    ensures
        p.bytes().len() == HEADER_SIZE + p.payload.len() + TAIL_SIZE,
        frame_check(p.bytes() + rest) == (FrameCheck::Complete { len: p.bytes().len() }),
        parse_frame(p.bytes() + rest) == p,
{
    lemma_bytes_read_back(p, rest);
}

/// The header's bytes are 24, and each field is read at its offset,
/// whatever follows the header.
proof fn lemma_header_read_back(p: PacketView, rest: Seq<u8>)
    ensures
        p.header_bytes().len() == HEADER_SIZE,
        u32_at(p.header_bytes() + rest, 0) == p.delimiter,
        u32_at(p.header_bytes() + rest, 4) == p.protocol,
        u32_at(p.header_bytes() + rest, 8) == p.length,
        u32_at(p.header_bytes() + rest, 12) == p.compress_length,
        u32_at(p.header_bytes() + rest, 16) == p.protocol_type,
        u16_at(p.header_bytes() + rest, 20) == p.idx,
        u16_at(p.header_bytes() + rest, 22) == p.count,
{
    let buf = p.header_bytes() + rest;
    let h = p.header_bytes();
    assert(h.len() == 24);
    assert forall|i: int| 0 <= i < 24 implies buf[i] == h[i] by {}
    assert(h[0] == u32_bytes(p.delimiter)[0] && h[1] == u32_bytes(p.delimiter)[1] && h[2]
        == u32_bytes(p.delimiter)[2] && h[3] == u32_bytes(p.delimiter)[3]);
    lemma_u32_at_its_bytes(buf, 0, p.delimiter);
    assert(h[4] == u32_bytes(p.protocol)[0] && h[5] == u32_bytes(p.protocol)[1] && h[6]
        == u32_bytes(p.protocol)[2] && h[7] == u32_bytes(p.protocol)[3]);
    lemma_u32_at_its_bytes(buf, 4, p.protocol);
    assert(h[8] == u32_bytes(p.length)[0] && h[9] == u32_bytes(p.length)[1] && h[10]
        == u32_bytes(p.length)[2] && h[11] == u32_bytes(p.length)[3]);
    lemma_u32_at_its_bytes(buf, 8, p.length);
    assert(h[12] == u32_bytes(p.compress_length)[0] && h[13] == u32_bytes(p.compress_length)[1]
        && h[14] == u32_bytes(p.compress_length)[2] && h[15] == u32_bytes(p.compress_length)[3]);
    lemma_u32_at_its_bytes(buf, 12, p.compress_length);
    assert(h[16] == u32_bytes(p.protocol_type)[0] && h[17] == u32_bytes(p.protocol_type)[1]
        && h[18] == u32_bytes(p.protocol_type)[2] && h[19] == u32_bytes(p.protocol_type)[3]);
    lemma_u32_at_its_bytes(buf, 16, p.protocol_type);
    assert(h[20] == u16_bytes(p.idx)[0] && h[21] == u16_bytes(p.idx)[1]);
    lemma_u16_at_its_bytes(buf, 20, p.idx);
    assert(h[22] == u16_bytes(p.count)[0] && h[23] == u16_bytes(p.count)[1]);
    lemma_u16_at_its_bytes(buf, 22, p.count);
}

/// The bytes of a packet that states the length of its payload spell that
/// packet, whatever follows them.
proof fn lemma_bytes_read_back(p: PacketView, rest: Seq<u8>)
    requires
        p.length == p.payload.len(),
    ensures
        p.bytes().len() == HEADER_SIZE + p.payload.len() + TAIL_SIZE,
        holds_frame(p.bytes() + rest),
        frame_len(p.bytes() + rest) == p.bytes().len(),
        parse_frame(p.bytes() + rest) == p,
{
    let buf = p.bytes() + rest;
    let n = p.payload.len() as int;
    let t = u32_bytes(p.tail);
    reveal(PacketView::bytes);
    lemma_header_read_back(p, p.payload + t + rest);
    assert(buf =~= p.header_bytes() + (p.payload + t + rest));
    assert(buf.subrange(HEADER_SIZE as int, HEADER_SIZE + n) =~= p.payload);
    assert(buf[24 + n] == t[0] && buf[24 + n + 1] == t[1] && buf[24 + n + 2] == t[2] && buf[24 + n
        + 3] == t[3]);
    lemma_u32_at_its_bytes(buf, 24 + n, p.tail);
}

/// A frame whose tail is not the sum of its header is never taken for a
/// complete one: with the right delimiter it is found to have a bad
/// checksum, whatever follows it.
pub proof fn lemma_corrupt_tail_is_rejected(p: PacketView, rest: Seq<u8>)
    requires
        p.delimiter == CUTE_DELIMITER,
        p.length == p.payload.len(),
        p.tail != p.checksum(),
    ensures
        frame_check(p.bytes() + rest) == FrameCheck::BadChecksum,
{
    lemma_bytes_read_back(p, rest);
}

/// A buffer shorter than a header is short, never bad.
pub proof fn lemma_less_than_header_is_short(buf: Seq<u8>)
    requires
        buf.len() < HEADER_SIZE,
    ensures
        frame_check(buf) == FrameCheck::Short,
{
}

} // verus!
