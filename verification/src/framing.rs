//! Between payloads and the byte stream: a writer turns a payload into the
//! bytes of its frames, a reader cuts the frames out of what has arrived.

use vstd::prelude::*;
use crate::bytes::{lemma_u16_at_in_subrange, lemma_u32_at_in_subrange, u32_at, write_all};
use crate::packet::{
    chunk_packets,
    packet_views,
    CutePacket,
    CutePacketTrait,
    CutePacketType,
    CutePacketValid,
    MAX_MESSAGE_SIZE,
};
use crate::wire::{
    frame_check,
    frame_len,
    holds_frame,
    lemma_sealed_bytes_read_back,
    parse_frame,
    FrameCheck,
    PacketView,
};

verus! {

/// The bytes of `packets` on the wire, one frame behind the other.
pub open spec fn wire_bytes(packets: Seq<PacketView>) -> Seq<u8>
    decreases packets.len(),
{
    if packets.len() == 0 {
        Seq::empty()
    } else {
        wire_bytes(packets.drop_last()) + packets.last().bytes()
    }
}

/// The bytes of a sequence of packets start with the first packet's bytes.
pub proof fn lemma_wire_bytes_from_the_front(packets: Seq<PacketView>)
    requires
        packets.len() > 0,
    ensures
        wire_bytes(packets) == packets[0].bytes() + wire_bytes(packets.skip(1)),
    decreases packets.len(),
{
    if packets.len() == 1 {
        assert(packets.drop_last() =~= Seq::<PacketView>::empty());
        assert(packets.skip(1) =~= Seq::<PacketView>::empty());
        assert(wire_bytes(packets) =~= packets[0].bytes() + wire_bytes(packets.skip(1)));
    } else {
        let front = packets.drop_last();
        lemma_wire_bytes_from_the_front(front);
        assert(front.skip(1) =~= packets.skip(1).drop_last());
        assert(wire_bytes(packets) =~= packets[0].bytes() + wire_bytes(packets.skip(1)));
    }
}

/// Every packet of `packets` is sealed.
pub open spec fn all_sealed(packets: Seq<PacketView>) -> bool {
    forall|i: int| 0 <= i < packets.len() ==> (#[trigger] packets[i]).sealed()
}

/// How many of the frames of `packets` lie wholly within the first `c`
/// bytes of their stream.
pub open spec fn whole_frames(packets: Seq<PacketView>, c: int) -> nat
    decreases packets.len(),
{
    if packets.len() == 0 || c < packets[0].bytes().len() {
        0
    } else {
        1 + whole_frames(packets.skip(1), c - packets[0].bytes().len())
    }
}

/// What is left of a buffer whose head is no frame: with a drain size of 0,
/// or one that reaches the buffer's end, nothing; else the buffer without
/// its first `drain_size` bytes.
pub open spec fn after_drain(buf: Seq<u8>, drain_size: nat) -> Seq<u8> {
    if drain_size == 0 || drain_size >= buf.len() {
        Seq::empty()
    } else {
        buf.skip(drain_size as int)
    }
}

/// The frames that a reader cuts out of `buf`, and what it leaves in the
/// buffer. It takes frames as long as whole ones stand at the head; where
/// the head is no frame it drains and looks again; it stops where the head
/// is short.
#[verifier::opaque]
pub open spec fn scan(buf: Seq<u8>, drain_size: nat) -> (Seq<PacketView>, Seq<u8>)
    decreases buf.len(),
{
    match frame_check(buf) {
        FrameCheck::Short => (Seq::empty(), buf),
        FrameCheck::Complete { len } => {
            let (more, rest) = scan(buf.skip(len as int), drain_size);
            (seq![parse_frame(buf)] + more, rest)
        },
        _ => scan(after_drain(buf, drain_size), drain_size),
    }
}

/// A frame occupies at least a header and a tail, and no more than the
/// buffer that holds it.
proof fn lemma_complete_len(buf: Seq<u8>)
    ensures
        frame_check(buf) matches FrameCheck::Complete { len } ==> 28 <= len <= buf.len(),
        !(frame_check(buf) is Short) ==> buf.len() >= 28,
{
}

/// Where a sealed packet's bytes stand at the head, the reader takes that
/// packet and goes on behind it.
proof fn lemma_scan_takes_sealed_head(p: PacketView, rest: Seq<u8>, drain_size: nat)
    requires
        p.sealed(),
    ensures
        scan(p.bytes() + rest, drain_size) == (
            seq![p] + scan(rest, drain_size).0,
            scan(rest, drain_size).1,
        ),
{
    let buf = p.bytes() + rest;
    reveal(scan);
    lemma_sealed_bytes_read_back(p, rest);
    assert(buf.skip(p.bytes().len() as int) =~= rest);
}

/// The frames of sealed packets are cut out again as those packets, and
/// nothing is left over.
pub proof fn lemma_written_frames_scan_back(packets: Seq<PacketView>, drain_size: nat)
    requires
        all_sealed(packets),
    ensures
        scan(wire_bytes(packets), drain_size) == (packets, Seq::<u8>::empty()),
    decreases packets.len(),
{
    if packets.len() == 0 {
        assert(scan(Seq::<u8>::empty(), drain_size) == (
            Seq::<PacketView>::empty(),
            Seq::<u8>::empty(),
        )) by {
            reveal(scan);
        }
    } else {
        let head = packets[0];
        let tail = packets.skip(1);
        assert(head.sealed());
        assert forall|i: int| 0 <= i < tail.len() implies (#[trigger] tail[i]).sealed() by {
            assert(tail[i] == packets[i + 1]);
        }
        lemma_written_frames_scan_back(tail, drain_size);
        lemma_wire_bytes_from_the_front(packets);
        lemma_scan_takes_sealed_head(head, wire_bytes(tail), drain_size);
        assert(seq![head] + tail =~= packets);
    }
}

/// A beginning of a sealed packet's bytes that is shorter than the frame is
/// found short, never bad.
proof fn lemma_cut_frame_is_short(p: PacketView, rest: Seq<u8>, c: int)
    requires
        p.sealed(),
        0 <= c < p.bytes().len(),
    ensures
        frame_check((p.bytes() + rest).take(c)) == FrameCheck::Short,
{
    let buf = p.bytes() + rest;
    lemma_sealed_bytes_read_back(p, rest);
    if c >= 24 {
        assert(buf.take(c) =~= buf.subrange(0, c));
        lemma_u32_at_in_subrange(buf, 0, c, 8);
        assert(u32_at(buf, 8) == p.length);
        assert(frame_len(buf.take(c)) == p.bytes().len());
    }
}

/// Cutting behind a sealed packet's frame: the reader takes the packet and
/// makes of the rest what it makes of the rest alone.
proof fn lemma_scan_of_head_and_more(p: PacketView, rest: Seq<u8>, drain_size: nat, c: int)
    requires
        p.sealed(),
        p.bytes().len() <= c <= p.bytes().len() + rest.len(),
    ensures
        scan((p.bytes() + rest).take(c), drain_size) == (
            seq![p] + scan(rest.take(c - p.bytes().len()), drain_size).0,
            scan(rest.take(c - p.bytes().len()), drain_size).1,
        ),
        (p.bytes() + rest).skip(c) == rest.skip(c - p.bytes().len()),
{
    let len = p.bytes().len() as int;
    lemma_scan_takes_sealed_head(p, rest.take(c - len), drain_size);
    assert((p.bytes() + rest).take(c) =~= p.bytes() + rest.take(c - len));
    assert((p.bytes() + rest).skip(c) =~= rest.skip(c - len));
}

/// Cutting within a sealed packet's frame: the reader takes nothing and
/// leaves what it was given.
proof fn lemma_scan_of_less_than_head(p: PacketView, rest: Seq<u8>, drain_size: nat, c: int)
    requires
        p.sealed(),
        0 <= c < p.bytes().len(),
    ensures
        scan((p.bytes() + rest).take(c), drain_size) == (
            Seq::<PacketView>::empty(),
            (p.bytes() + rest).take(c),
        ),
        (p.bytes() + rest).take(c) + (p.bytes() + rest).skip(c) == p.bytes() + rest,
        (p.bytes() + rest).take(c).len() == c,
{
    let buf = p.bytes() + rest;
    lemma_cut_frame_is_short(p, rest, c);
    reveal(scan);
    assert(buf.take(c) + buf.skip(c) =~= buf);
}

/// The reader takes nothing from nothing.
proof fn lemma_scan_of_nothing(drain_size: nat)
    ensures
        scan(Seq::<u8>::empty(), drain_size) == (Seq::<PacketView>::empty(), Seq::<u8>::empty()),
{
    reveal(scan);
}

/// What the reader makes of the first `c` bytes of the frames of sealed
/// packets: it takes the packets whose frames lie wholly within them, and
/// leaves the beginning of the next frame, which the bytes that follow
/// complete.
pub proof fn lemma_scan_of_a_beginning(packets: Seq<PacketView>, drain_size: nat, c: int)
    requires
        all_sealed(packets),
        0 <= c <= wire_bytes(packets).len(),
    ensures
        ({
            let buf = wire_bytes(packets);
            let j = whole_frames(packets, c);
            let (taken, left) = scan(buf.take(c), drain_size);
            &&& j <= packets.len()
            &&& taken == packets.take(j as int)
            &&& left + buf.skip(c) == wire_bytes(packets.skip(j as int))
            &&& j < packets.len() ==> left.len() < packets[j as int].bytes().len()
        }),
    decreases packets.len(),
{
    let buf = wire_bytes(packets);
    if packets.len() == 0 {
        lemma_scan_of_nothing(drain_size);
        assert(buf.take(c) =~= Seq::<u8>::empty());
        assert(packets.take(0) =~= Seq::<PacketView>::empty());
        assert(packets.skip(0) =~= packets);
        assert(Seq::<u8>::empty() + buf.skip(c) =~= buf);
    } else {
        let head = packets[0];
        let tail = packets.skip(1);
        let rest = wire_bytes(tail);
        let len = head.bytes().len() as int;
        assert(head.sealed());
        lemma_wire_bytes_from_the_front(packets);
        if c < len {
            lemma_scan_of_less_than_head(head, rest, drain_size, c);
            assert(packets.take(0) =~= Seq::<PacketView>::empty());
            assert(packets.skip(0) =~= packets);
        } else {
            assert(all_sealed(tail)) by {
                assert forall|i: int| 0 <= i < tail.len() implies (#[trigger] tail[i]).sealed() by {
                    assert(tail[i] == packets[i + 1]);
                }
            }
            lemma_scan_of_a_beginning(tail, drain_size, c - len);
            let j = whole_frames(tail, c - len) as int;
            lemma_scan_of_head_and_more(head, rest, drain_size, c);
            assert(seq![head] + tail.take(j) =~= packets.take(j + 1));
            assert(tail.skip(j) =~= packets.skip(j + 1));
            if j < tail.len() {
                assert(tail[j] == packets[j + 1]);
            }
        }
    }
}

/// The bytes that carry `payload` to the peer: the frames of the packets
/// that it is split into, one behind the other.
pub fn encode_message(payload: Vec<u8>, protocol: u32, protocol_type: CutePacketType) -> (out: Vec<
    u8,
>)
    requires
        payload@.len() <= MAX_MESSAGE_SIZE,
    ensures
        out@ == wire_bytes(chunk_packets(payload@, protocol, protocol_type)),
{
    let packets = CutePacket::chuck_create_packet(payload, protocol, protocol_type);
    let ghost views = packet_views(packets@);
    let mut out: Vec<u8> = Vec::new();
    let mut i: usize = 0;
    proof {
        assert(views.take(0) =~= Seq::<PacketView>::empty());
    }
    while i < packets.len()
        invariant
            i <= packets@.len(),
            views == packet_views(packets@),
            out@ == wire_bytes(views.take(i as int)),
        decreases packets@.len() - i,
    {
        let bytes = packets[i].serialize();
        write_all(&mut out, bytes.as_slice());
        proof {
            assert(views.take(i + 1).drop_last() =~= views.take(i as int));
            assert(views.take(i + 1).last() == packets@[i as int]@);
        }
        i = i + 1;
    }
    proof {
        assert(views.take(i as int) =~= views);
    }
    out
}

/// Cuts the frames out of `buffer`: takes whole frames from its head as
/// long as there are any, drains where the head is no frame, and leaves what
/// is short of a frame in the buffer.
pub fn drain_frames(buffer: &mut Vec<u8>, drain_size: usize) -> (frames: Vec<Box<CutePacket>>)
    ensures
        (packet_views(frames@), final(buffer)@) == scan(old(buffer)@, drain_size as nat),
{
    let mut frames: Vec<Box<CutePacket>> = Vec::new();
    proof {
        assert(packet_views(frames@) =~= Seq::<PacketView>::empty());
    }
    loop
        invariant
            scan(old(buffer)@, drain_size as nat) == (
                packet_views(frames@) + scan(buffer@, drain_size as nat).0,
                scan(buffer@, drain_size as nat).1,
            ),
        ensures
            (packet_views(frames@), buffer@) == scan(old(buffer)@, drain_size as nat),
        decreases buffer@.len(),
    {
        let ghost before = buffer@;
        let ghost found = packet_views(frames@);
        proof {
            reveal(scan);
            lemma_complete_len(before);
        }
        match CutePacket::is_valid(buffer) {
            CutePacketValid::ValidOK(n) => {
                let rest = buffer.split_off(n);
                let packet = CutePacket::recv_create_packet(buffer.as_slice());
                proof {
                    assert(parse_frame(before.subrange(0, n as int)) == parse_frame(before)) by {
                        lemma_frame_reads_its_bytes_only(before, n as int);
                    }
                    assert(rest@ =~= before.skip(n as int));
                }
                frames.push(packet);
                *buffer = rest;
                proof {
                    let more = scan(buffer@, drain_size as nat).0;
                    assert(packet_views(frames@) =~= found + seq![parse_frame(before)]);
                    assert(packet_views(frames@) + more =~= found + (seq![parse_frame(before)]
                        + more));
                }
            },
            CutePacketValid::DataShort => {
                proof {
                    assert(packet_views(frames@) + Seq::<PacketView>::empty() =~= packet_views(
                        frames@,
                    ));
                }
                break ;
            },
            CutePacketValid::ValidFailed(_) => {
                if drain_size == 0 || drain_size >= buffer.len() {
                    buffer.clear();
                } else {
                    let rest = buffer.split_off(drain_size);
                    proof {
                        assert(rest@ =~= before.skip(drain_size as int));
                    }
                    *buffer = rest;
                }
            },
        }
    }
    frames
}

/// A frame is read from its own bytes: what stands behind them does not
/// matter.
proof fn lemma_frame_reads_its_bytes_only(buf: Seq<u8>, n: int)
    requires
        holds_frame(buf),
        n == frame_len(buf),
    ensures
        parse_frame(buf.subrange(0, n)) == parse_frame(buf),
{
    let head = buf.subrange(0, n);
    let len = u32_at(buf, 8) as int;
    lemma_u32_at_in_subrange(buf, 0, n, 0);
    lemma_u32_at_in_subrange(buf, 0, n, 4);
    lemma_u32_at_in_subrange(buf, 0, n, 8);
    lemma_u32_at_in_subrange(buf, 0, n, 12);
    lemma_u32_at_in_subrange(buf, 0, n, 16);
    lemma_u16_at_in_subrange(buf, 0, n, 20);
    lemma_u16_at_in_subrange(buf, 0, n, 22);
    lemma_u32_at_in_subrange(buf, 0, n, 24 + len);
    assert(head.subrange(24, 24 + len) =~= buf.subrange(24, 24 + len));
}

} // verus!
