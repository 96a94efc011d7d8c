//! The receiving end of a connection: bytes go in, whole messages come out.
//!
//! An `Inbox` keeps the bytes that have arrived and are not yet cut into
//! frames, and the unfinished payloads of the frames that were. Both sides
//! of a connection have one.

use vstd::prelude::*;
use crate::bytes::write_all;
use crate::framing::{
    all_sealed,
    drain_frames,
    lemma_scan_of_a_beginning,
    lemma_wire_bytes_from_the_front,
    lemma_written_frames_scan_back,
    scan,
    whole_frames,
    wire_bytes,
};
use crate::packet::{
    chunk_packets,
    lemma_split_then_join,
    packet_views,
    type_number,
    type_of_number,
    CutePacketTrait,
    CutePacketType,
    MAX_MESSAGE_SIZE,
};
use crate::wire::PacketView;
use crate::reassembly::{
    accept_spec,
    after_packets,
    arrived,
    chunks_of_one_payload,
    each_index_once,
    handed_out,
    lemma_chunks_in_any_order,
    lemma_split_gives_chunks_of_one_payload,
    Reassembly,
    Slots,
};

verus! {

/// A whole message, as it was handed to the sender's side.
#[derive(Debug)]
pub struct Message {
    pub kind: CutePacketType,
    pub protocol: u32,
    pub payload: Vec<u8>,
}

/// A `Message` as contracts see it.
pub struct MessageView {
    pub kind: CutePacketType,
    pub protocol: u32,
    pub payload: Seq<u8>,
}

impl View for Message {
    type V = MessageView;

    open spec fn view(&self) -> MessageView {
        MessageView { kind: self.kind, protocol: self.protocol, payload: self.payload@ }
    }
}

/// What a sequence of messages is in contracts.
pub open spec fn message_views(messages: Seq<Message>) -> Seq<MessageView> {
    Seq::new(messages.len(), |i: int| messages[i]@)
}

/// The state of an inbox as contracts see it.
pub struct InboxView {
    /// The bytes that have arrived and are not yet cut into frames.
    pub buffer: Seq<u8>,
    /// How many bytes leave the buffer when its head is no frame; 0 for all.
    pub drain_size: nat,
    /// The unfinished payloads, by protocol key.
    pub partials: Map<u32, Slots>,
}

impl InboxView {
    /// The state after one packet has come in, and the message that it
    /// completes, if it completes one: the message has the type and the
    /// protocol key of the packet that completes it.
    pub open spec fn take_packet(self, p: PacketView) -> (InboxView, Seq<MessageView>) {
        let (partials, done) = accept_spec(
            self.partials,
            p.protocol,
            p.idx as nat,
            p.count as nat,
            p.payload,
        );
        (
            InboxView { partials, ..self },
            match done {
                Some(payload) => seq![
                    MessageView {
                        kind: type_of_number(p.protocol_type),
                        protocol: p.protocol,
                        payload,
                    },
                ],
                None => Seq::empty(),
            },
        )
    }

    /// The state after `packets` have come in, one after the other, and the
    /// messages that they complete, in order.
    #[verifier::opaque]
    pub open spec fn take_packets(self, packets: Seq<PacketView>) -> (InboxView, Seq<MessageView>)
        decreases packets.len(),
    {
        if packets.len() == 0 {
            (self, Seq::empty())
        } else {
            let (before, messages) = self.take_packets(packets.drop_last());
            let (after, more) = before.take_packet(packets.last());
            (after, messages + more)
        }
    }

    /// The state after `bytes` have arrived, and the messages that they
    /// complete: the bytes join the buffer, the frames are cut out of it, and
    /// their packets come in one after the other.
    pub open spec fn receive(self, bytes: Seq<u8>) -> (InboxView, Seq<MessageView>) {
        let (packets, rest) = scan(self.buffer + bytes, self.drain_size);
        (InboxView { buffer: rest, ..self }).take_packets(packets)
    }

    /// The state after `pieces` have arrived, one after the other, and the
    /// messages that they complete, in order.
    pub open spec fn receive_all(self, pieces: Seq<Seq<u8>>) -> (InboxView, Seq<MessageView>)
        decreases pieces.len(),
    {
        if pieces.len() == 0 {
            (self, Seq::empty())
        } else {
            let (next, first) = self.receive(pieces[0]);
            let (last, more) = next.receive_all(pieces.skip(1));
            (last, first + more)
        }
    }
}

/// The bytes of `pieces`, one piece behind the other.
pub open spec fn pieces_joined(pieces: Seq<Seq<u8>>) -> Seq<u8>
    decreases pieces.len(),
{
    if pieces.len() == 0 {
        Seq::empty()
    } else {
        pieces[0] + pieces_joined(pieces.skip(1))
    }
}

/// The receiving end of a connection.
pub struct Inbox {
    buffer: Vec<u8>,
    drain_size: usize,
    partials: Reassembly,
}

impl View for Inbox {
    type V = InboxView;

    closed spec fn view(&self) -> InboxView {
        InboxView {
            buffer: self.buffer@,
            drain_size: self.drain_size as nat,
            partials: self.partials@,
        }
    }
}

impl Inbox {
    /// An inbox that has received nothing, for a packet format with the
    /// drain size `drain_size`.
    pub fn new(drain_size: usize) -> (inbox: Self)
        ensures
            inbox@ == (InboxView {
                buffer: Seq::empty(),
                drain_size: drain_size as nat,
                partials: Map::empty(),
            }),
    {
        Inbox { buffer: Vec::new(), drain_size, partials: Reassembly::new() }
    }

    /// Drops the buffered bytes and the unfinished payloads.
    pub fn clear(&mut self)
        ensures
            final(self)@ == (InboxView {
                buffer: Seq::empty(),
                partials: Map::empty(),
                ..old(self)@
            }),
    {
        self.buffer.clear();
        self.partials.clear();
    }

    /// Takes the bytes that have arrived and hands out the messages that
    /// they complete, in order.
    pub fn receive(&mut self, bytes: &[u8]) -> (messages: Vec<Message>)
        ensures
            (final(self)@, message_views(messages@)) == old(self)@.receive(bytes@),
    {
        write_all(&mut self.buffer, bytes);
        let frames = drain_frames(&mut self.buffer, self.drain_size);
        let ghost packets = packet_views(frames@);
        let ghost start = self@;
        let mut messages: Vec<Message> = Vec::new();
        let mut i: usize = 0;
        proof {
            reveal(InboxView::take_packets);
            assert(packets.take(0) =~= Seq::<PacketView>::empty());
            assert(message_views(messages@) =~= Seq::<MessageView>::empty());
        }
        while i < frames.len()
            invariant
                i <= frames@.len(),
                packets == packet_views(frames@),
                (self@, message_views(messages@)) == start.take_packets(packets.take(i as int)),
            decreases frames@.len() - i,
        {
            let packet = &frames[i];
            let ghost seen = message_views(messages@);
            proof {
                reveal(InboxView::take_packets);
                assert(packets.take(i + 1).drop_last() =~= packets.take(i as int));
                assert(packets.take(i + 1).last() == packet@);
            }
            let done = self.partials.accept(
                packet.get_packet_protocol(),
                packet.get_chuck_idx(),
                packet.get_chuck_size(),
                packet.get_payload(),
            );
            match done {
                Some(payload) => {
                    let message = Message {
                        kind: packet.get_packet_type(),
                        protocol: packet.get_packet_protocol(),
                        payload,
                    };
                    let ghost view = message@;
                    messages.push(message);
                    assert(message_views(messages@) =~= seen + seq![view]);
                },
                None => {
                    assert(message_views(messages@) =~= seen + Seq::<MessageView>::empty());
                },
            }
            i = i + 1;
        }
        proof {
            assert(packets.take(i as int) =~= packets);
        }
        messages
    }
}

/// The indices `0..count` in rising order.
spec fn rising(count: nat) -> Seq<int> {
    Seq::new(count, |i: int| i)
}

/// The packets of one payload, coming in in the order of their indices:
/// before the last, no message, and the unfinished payloads as the arrival
/// leaves them.
proof fn lemma_take_chunks_before_the_last(
    inbox: InboxView,
    packets: Seq<PacketView>,
    protocol: u32,
    k: nat,
)
    requires
        chunks_of_one_payload(packets, protocol),
        !inbox.partials.contains_key(protocol),
        k < packets.len(),
    ensures
        inbox.take_packets(packets.take(k as int)) == (
            InboxView {
                partials: after_packets(inbox.partials, packets, rising(packets.len()), k),
                ..inbox
            },
            Seq::<MessageView>::empty(),
        ),
    decreases k,
{
    let order = rising(packets.len());
    reveal(InboxView::take_packets);
    if k == 0 {
        assert(packets.take(0) =~= Seq::<PacketView>::empty());
    } else {
        lemma_take_chunks_before_the_last(inbox, packets, protocol, (k - 1) as nat);
        lemma_rising_names_each_once(packets.len());
        lemma_chunks_in_any_order(inbox.partials, packets, protocol, order);
        let front = packets.take(k as int);
        assert(front.drop_last() =~= packets.take(k - 1));
        assert(front.last() == packets[k - 1]);
        assert(order[k - 1] == k - 1);
        assert(handed_out(inbox.partials, packets, order, (k - 1) as nat) is None);
        assert(Seq::<MessageView>::empty() + Seq::<MessageView>::empty() =~= Seq::<
            MessageView,
        >::empty());
    }
}

/// The rising order names each index once.
proof fn lemma_rising_names_each_once(count: nat)
    ensures
        each_index_once(rising(count), count),
{
    let order = rising(count);
    assert forall|x: int| 0 <= x < count implies #[trigger] arrived(order, count, x) by {
        assert(order[x] == x);
    }
}

/// The packets of one payload, coming in in the order of their indices at
/// an inbox that holds nothing under their protocol key, complete one
/// message: the payloads joined, under the key and the type of the last
/// packet. The unfinished payloads are then as they were.
proof fn lemma_take_chunks(inbox: InboxView, packets: Seq<PacketView>, protocol: u32)
    requires
        chunks_of_one_payload(packets, protocol),
        !inbox.partials.contains_key(protocol),
    ensures
        inbox.take_packets(packets) == (
            inbox,
            seq![
                MessageView {
                    kind: type_of_number(packets.last().protocol_type),
                    protocol,
                    payload: crate::packet::joined_payloads(packets),
                },
            ],
        ),
{
    let n = packets.len();
    let order = rising(n);
    reveal(InboxView::take_packets);
    lemma_rising_names_each_once(n);
    lemma_chunks_in_any_order(inbox.partials, packets, protocol, order);
    lemma_take_chunks_before_the_last(inbox, packets, protocol, (n - 1) as nat);
    assert(packets.drop_last() =~= packets.take(n - 1));
    assert(order[n - 1] == n - 1);
    let last = packets.last();
    assert(last == packets[n - 1]);
    assert(last.protocol == protocol);
    let (before, messages) = inbox.take_packets(packets.drop_last());
    let (after, more) = before.take_packet(last);
    assert(after.partials == inbox.partials);
    assert(after == inbox);
    assert(messages + more =~= more);
}

/// What one side writes, the other side reads: the bytes that carry a
/// payload of up to `MAX_MESSAGE_SIZE` bytes, arriving at an inbox with an
/// empty buffer and nothing unfinished under the protocol key, complete
/// exactly one message, which has the payload, the key and the type that
/// were written. The inbox is afterwards as it was before.
pub proof fn lemma_written_message_arrives_whole(
    inbox: InboxView,
    data: Seq<u8>,
    protocol: u32,
    kind: CutePacketType,
)
    requires
        inbox.buffer.len() == 0,
        !inbox.partials.contains_key(protocol),
        data.len() <= MAX_MESSAGE_SIZE,
    ensures
        inbox.receive(wire_bytes(chunk_packets(data, protocol, kind))) == (
            inbox,
            seq![MessageView { kind, protocol, payload: data }],
        ),
{
    let packets = chunk_packets(data, protocol, kind);
    let bytes = wire_bytes(packets);
    assert(scan(inbox.buffer + bytes, inbox.drain_size) == (packets, Seq::<u8>::empty())) by {
        assert forall|i: int| 0 <= i < packets.len() implies (#[trigger] packets[i]).sealed() by {
            crate::packet::lemma_chunk_is_sealed(data, protocol, kind, i);
        }
        lemma_written_frames_scan_back(packets, inbox.drain_size);
        assert(inbox.buffer + bytes =~= bytes);
    }
    assert((InboxView { buffer: Seq::empty(), ..inbox }) == inbox) by {
        assert(inbox.buffer =~= Seq::<u8>::empty());
    }
    assert(inbox.take_packets(packets) == (
        inbox,
        seq![MessageView { kind, protocol, payload: data }],
    )) by {
        lemma_split_gives_chunks_of_one_payload(data, protocol, kind);
        lemma_split_then_join(data, protocol, kind);
        lemma_take_chunks(inbox, packets, protocol);
        assert(packets.last() == crate::packet::chunk_packet(
            data,
            protocol,
            kind,
            packets.len() - 1,
        ));
        assert(type_of_number(type_number(kind)) == kind);
    }
}

/// Packets coming in change the unfinished payloads only, and what they
/// complete does not depend on the buffer.
proof fn lemma_take_packets_ignores_the_buffer(
    inbox: InboxView,
    packets: Seq<PacketView>,
    buffer: Seq<u8>,
)
    ensures
        (InboxView { buffer, ..inbox }).take_packets(packets) == (
            InboxView { buffer, ..inbox.take_packets(packets).0 },
            inbox.take_packets(packets).1,
        ),
        inbox.take_packets(packets).0.buffer == inbox.buffer,
        inbox.take_packets(packets).0.drain_size == inbox.drain_size,
    decreases packets.len(),
{
    reveal(InboxView::take_packets);
    if packets.len() > 0 {
        lemma_take_packets_ignores_the_buffer(inbox, packets.drop_last(), buffer);
    }
}

/// Packets coming in one after the other: first some, then the others.
proof fn lemma_take_packets_in_two(inbox: InboxView, a: Seq<PacketView>, b: Seq<PacketView>)
    ensures
        inbox.take_packets(a + b) == ({
            let (mid, first) = inbox.take_packets(a);
            let (end, more) = mid.take_packets(b);
            (end, first + more)
        }),
    decreases b.len(),
{
    let (mid, first) = inbox.take_packets(a);
    reveal(InboxView::take_packets);
    if b.len() == 0 {
        assert(a + b =~= a);
        assert(first + Seq::<MessageView>::empty() =~= first);
    } else {
        lemma_take_packets_in_two(inbox, a, b.drop_last());
        assert((a + b).drop_last() =~= a + b.drop_last());
        assert((a + b).last() == b.last());
        let (before, more) = mid.take_packets(b.drop_last());
        let (end, last) = before.take_packet(b.last());
        assert((first + more) + last =~= first + (more + last));
    }
}

/// The packets behind the first `j` of sealed packets are sealed.
proof fn lemma_later_packets_are_sealed(packets: Seq<PacketView>, j: int)
    requires
        all_sealed(packets),
        0 <= j <= packets.len(),
    ensures
        all_sealed(packets.skip(j)),
        j < packets.len() ==> packets.skip(j)[0] == packets[j],
{
    let later = packets.skip(j);
    assert forall|i: int| 0 <= i < later.len() implies (#[trigger] later[i]).sealed() by {
        assert(later[i] == packets[i + j]);
    }
}

/// The first piece of a stream of frames of sealed packets: it brings what
/// the packets bring whose frames it completes, and leaves in the buffer the
/// beginning of the next frame.
proof fn lemma_first_piece(
    inbox: InboxView,
    packets: Seq<PacketView>,
    first: Seq<u8>,
    others: Seq<u8>,
)
    requires
        all_sealed(packets),
        inbox.buffer + first + others == wire_bytes(packets),
    ensures
        ({
            let j = whole_frames(packets, (inbox.buffer.len() + first.len()) as int);
            let emptied = InboxView { buffer: Seq::empty(), ..inbox };
            let (next, brought) = inbox.receive(first);
            &&& j <= packets.len()
            &&& emptied.take_packets(packets.take(j as int)) == (
                InboxView { buffer: Seq::empty(), ..next },
                brought,
            )
            &&& next.buffer + others == wire_bytes(packets.skip(j as int))
            &&& j < packets.len() ==> next.buffer.len() < packets[j as int].bytes().len()
        }),
{
    let stream = wire_bytes(packets);
    let c = (inbox.buffer.len() + first.len()) as int;
    let emptied = InboxView { buffer: Seq::empty(), ..inbox };
    assert(stream.take(c) =~= inbox.buffer + first);
    assert(stream.skip(c) =~= others);
    lemma_scan_of_a_beginning(packets, inbox.drain_size, c);
    let (taken, left) = scan(inbox.buffer + first, inbox.drain_size);
    lemma_take_packets_ignores_the_buffer(emptied, taken, left);
    assert((InboxView { buffer: left, ..inbox }) == (InboxView { buffer: left, ..emptied }));
    let (mid, early) = emptied.take_packets(taken);
    let (next, brought) = inbox.receive(first);
    assert(mid.buffer =~= Seq::<u8>::empty());
    assert(mid == (InboxView { buffer: Seq::empty(), ..next }));
}

/// No pieces bring nothing.
proof fn lemma_no_pieces(inbox: InboxView, packets: Seq<PacketView>)
    requires
        inbox.buffer == wire_bytes(packets),
        packets.len() > 0 ==> inbox.buffer.len() < packets[0].bytes().len(),
    ensures
        (InboxView { buffer: Seq::empty(), ..inbox }).take_packets(packets) == (
            inbox,
            Seq::<MessageView>::empty(),
        ),
{
    if packets.len() > 0 {
        lemma_wire_bytes_from_the_front(packets);
    }
    assert(inbox.buffer =~= Seq::<u8>::empty());
    assert(packets =~= Seq::<PacketView>::empty());
    reveal(InboxView::take_packets);
}

/// The first piece and then the others bring what the packets bring, where
/// the others bring what the later packets bring.
proof fn lemma_first_piece_and_the_others(
    inbox: InboxView,
    packets: Seq<PacketView>,
    j: int,
    next: InboxView,
    brought: Seq<MessageView>,
    last: InboxView,
    more: Seq<MessageView>,
)
    requires
        0 <= j <= packets.len(),
        (InboxView { buffer: Seq::empty(), ..inbox }).take_packets(packets.take(j)) == (
            InboxView { buffer: Seq::empty(), ..next },
            brought,
        ),
        (InboxView { buffer: Seq::empty(), ..next }).take_packets(packets.skip(j)) == (last, more),
    ensures
        (InboxView { buffer: Seq::empty(), ..inbox }).take_packets(packets) == (
            last,
            brought + more,
        ),
{
    let emptied = InboxView { buffer: Seq::empty(), ..inbox };
    lemma_take_packets_in_two(emptied, packets.take(j), packets.skip(j));
    assert(packets.take(j) + packets.skip(j) =~= packets);
}

/// However the byte stream is cut into pieces on its way, the frames of
/// sealed packets bring what the packets bring: the pieces, arriving one
/// after the other at an inbox that holds less than the first frame of what
/// is still to come, complete the same messages in the same order as the
/// packets themselves, and leave the buffer empty.
pub proof fn lemma_cuts_do_not_matter(
    inbox: InboxView,
    packets: Seq<PacketView>,
    pieces: Seq<Seq<u8>>,
)
    requires
        all_sealed(packets),
        inbox.buffer + pieces_joined(pieces) == wire_bytes(packets),
        packets.len() > 0 ==> inbox.buffer.len() < packets[0].bytes().len(),
    ensures
        inbox.receive_all(pieces) == (InboxView { buffer: Seq::empty(), ..inbox }).take_packets(
            packets,
        ),
    decreases pieces.len(),
{
    if pieces.len() == 0 {
        assert(inbox.buffer + Seq::<u8>::empty() =~= inbox.buffer);
        lemma_no_pieces(inbox, packets);
    } else {
        let first = pieces[0];
        let others = pieces_joined(pieces.skip(1));
        assert(inbox.buffer + first + others =~= inbox.buffer + pieces_joined(pieces));
        lemma_first_piece(inbox, packets, first, others);
        let j = whole_frames(packets, (inbox.buffer.len() + first.len()) as int) as int;
        let (next, brought) = inbox.receive(first);
        lemma_later_packets_are_sealed(packets, j);
        lemma_cuts_do_not_matter(next, packets.skip(j), pieces.skip(1));
        let (last, more) = next.receive_all(pieces.skip(1));
        lemma_first_piece_and_the_others(inbox, packets, j, next, brought, last, more);
    }
}

/// However the bytes that carry a payload are cut into pieces on their
/// way, the message arrives whole: at an inbox with an empty buffer and
/// nothing unfinished under the protocol key the pieces complete exactly one
/// message, which has the payload, the key and the type that were written,
/// and the inbox is afterwards as it was before.
pub proof fn lemma_written_message_arrives_whole_in_pieces(
    inbox: InboxView,
    data: Seq<u8>,
    protocol: u32,
    kind: CutePacketType,
    pieces: Seq<Seq<u8>>,
)
    requires
        inbox.buffer.len() == 0,
        !inbox.partials.contains_key(protocol),
        data.len() <= MAX_MESSAGE_SIZE,
        pieces_joined(pieces) == wire_bytes(chunk_packets(data, protocol, kind)),
    ensures
        inbox.receive_all(pieces) == (inbox, seq![MessageView { kind, protocol, payload: data }]),
{
    let packets = chunk_packets(data, protocol, kind);
    assert(all_sealed(packets)) by {
        assert forall|i: int| 0 <= i < packets.len() implies (#[trigger] packets[i]).sealed() by {
            crate::packet::lemma_chunk_is_sealed(data, protocol, kind, i);
        }
    }
    assert(inbox.buffer + pieces_joined(pieces) =~= wire_bytes(packets));
    assert((InboxView { buffer: Seq::empty(), ..inbox }) == inbox) by {
        assert(inbox.buffer =~= Seq::<u8>::empty());
    }
    if packets.len() > 0 {
        crate::packet::lemma_chunk_is_sealed(data, protocol, kind, 0);
        crate::wire::lemma_sealed_bytes_read_back(packets[0], Seq::<u8>::empty());
    }
    lemma_cuts_do_not_matter(inbox, packets, pieces);
    assert(inbox.take_packets(packets) == (
        inbox,
        seq![MessageView { kind, protocol, payload: data }],
    )) by {
        lemma_split_gives_chunks_of_one_payload(data, protocol, kind);
        lemma_split_then_join(data, protocol, kind);
        lemma_take_chunks(inbox, packets, protocol);
        assert(packets.last() == crate::packet::chunk_packet(
            data,
            protocol,
            kind,
            packets.len() - 1,
        ));
        assert(type_of_number(type_number(kind)) == kind);
    }
}

} // verus!
