//! The client's side of a connection, without the socket.
//!
//! A `ClientSession` builds the bytes of the requests, is fed the bytes
//! that arrive from the server, and says what they bring: the answer to a
//! unary call, an item of a stream, the closing of streams. It keeps the
//! receive buffer, the unfinished payloads, the set of protocol keys that
//! have a stream, and the answers that no caller has taken yet.

use std::collections::HashMap;
use std::collections::HashSet;
use vstd::prelude::*;
use crate::errors::{CuteError, CuteErrorCode};
use crate::framing::{encode_message, wire_bytes};
use crate::inbox::{
    lemma_written_message_arrives_whole,
    lemma_written_message_arrives_whole_in_pieces,
    message_views,
    pieces_joined,
    Inbox,
    InboxView,
    MessageView,
};
use crate::packet::{chunk_packets, CutePacket, CutePacketTrait, CutePacketType, MAX_MESSAGE_SIZE};
use crate::reassembly::payload_view;

verus! {

/// The protocol key under which `StreamAllClose` is sent.
pub const ALL_STREAMS_KEY: u32 = 0x0FFF_FFFF;

/// What has come in from the server.
#[derive(Debug)]
pub enum ClientEvent {
    /// The answer to a unary call under `protocol` is there to be taken.
    Reply { protocol: u32 },
    /// The stream of `protocol` has brought `payload`.
    Item { protocol: u32, payload: Vec<u8> },
    /// The server has closed the stream of `protocol`.
    StreamClosed { protocol: u32 },
    /// The server has closed every stream.
    AllStreamsClosed,
}

/// A `ClientEvent` as contracts see it.
pub enum EventView {
    Reply { protocol: u32 },
    Item { protocol: u32, payload: Seq<u8> },
    StreamClosed { protocol: u32 },
    AllStreamsClosed,
}

impl View for ClientEvent {
    type V = EventView;

    open spec fn view(&self) -> EventView {
        match *self {
            ClientEvent::Reply { protocol } => EventView::Reply { protocol },
            ClientEvent::Item { protocol, payload } => EventView::Item {
                protocol,
                payload: payload@,
            },
            ClientEvent::StreamClosed { protocol } => EventView::StreamClosed { protocol },
            ClientEvent::AllStreamsClosed => EventView::AllStreamsClosed,
        }
    }
}

/// What a sequence of events is in contracts.
pub open spec fn event_views(events: Seq<ClientEvent>) -> Seq<EventView> {
    Seq::new(events.len(), |i: int| events[i]@)
}

/// The payload of a request: the caller's parameter, or four zero bytes
/// where there is none.
pub open spec fn request_payload(parameter: Option<Seq<u8>>) -> Seq<u8> {
    match parameter {
        Some(bytes) => bytes,
        None => seq![0u8, 0u8, 0u8, 0u8],
    }
}

/// The parameter is too long to be split into frames.
pub open spec fn too_long(parameter: Option<Seq<u8>>) -> bool {
    parameter matches Some(bytes) && bytes.len() > MAX_MESSAGE_SIZE
}

/// The bytes of a request of type `kind` under `protocol`: the frames of
/// the message that carries the parameter.
pub open spec fn request_bytes(
    protocol: u32,
    parameter: Option<Seq<u8>>,
    kind: CutePacketType,
) -> Seq<u8> {
    wire_bytes(chunk_packets(request_payload(parameter), protocol, kind))
}

/// The state of a client's connection as contracts see it.
pub struct SessionView {
    /// The receiving end: buffered bytes and unfinished payloads.
    pub inbox: InboxView,
    /// The protocol keys that have a stream.
    pub streams: Set<u32>,
    /// The answers to unary calls that no caller has taken yet.
    pub replies: Map<u32, Seq<u8>>,
}

impl SessionView {
    /// The state after a whole message of type `kind` under `protocol` has
    /// come in, and what it brings.
    ///
    /// A `Unary` message is the answer to a call: it is kept until a caller
    /// takes it, unless an answer under its key is still waiting, in which
    /// case it is dropped. A `Streaming` message is an item of the key's
    /// stream, and is dropped where the key has none. `StreamClose` and
    /// `StreamAllClose` end the key's stream and every stream.
    pub open spec fn dispatch(self, kind: CutePacketType, protocol: u32, payload: Seq<u8>) -> (
        SessionView,
        Seq<EventView>,
    ) {
        match kind {
            CutePacketType::Empty => (self, Seq::empty()),
            CutePacketType::Unary => if self.replies.contains_key(protocol) {
                (self, Seq::empty())
            } else {
                (
                    SessionView { replies: self.replies.insert(protocol, payload), ..self },
                    seq![EventView::Reply { protocol }],
                )
            },
            CutePacketType::Streaming => if self.streams.contains(protocol) {
                (self, seq![EventView::Item { protocol, payload }])
            } else {
                (self, Seq::empty())
            },
            CutePacketType::StreamClose => if self.streams.contains(protocol) {
                (
                    SessionView { streams: self.streams.remove(protocol), ..self },
                    seq![EventView::StreamClosed { protocol }],
                )
            } else {
                (self, Seq::empty())
            },
            CutePacketType::StreamAllClose => (
                SessionView { streams: Set::empty(), ..self },
                seq![EventView::AllStreamsClosed],
            ),
        }
    }

    /// The state after `messages` have come in, one after the other, and
    /// all that they bring, in order.
    pub open spec fn dispatch_all(self, messages: Seq<MessageView>) -> (
        SessionView,
        Seq<EventView>,
    )
        decreases messages.len(),
    {
        if messages.len() == 0 {
            (self, Seq::empty())
        } else {
            let (before, events) = self.dispatch_all(messages.drop_last());
            let m = messages.last();
            let (after, more) = before.dispatch(m.kind, m.protocol, m.payload);
            (after, events + more)
        }
    }

    /// The state after `bytes` have arrived, and all that they bring: the
    /// inbox takes the bytes, and the messages that they complete are
    /// dispatched one after the other.
    pub open spec fn receive(self, bytes: Seq<u8>) -> (SessionView, Seq<EventView>) {
        let (inbox, messages) = self.inbox.receive(bytes);
        (SessionView { inbox, ..self }).dispatch_all(messages)
    }

    /// The state after `pieces` have arrived, one after the other, and
    /// all that they bring, in order.
    pub open spec fn receive_all(self, pieces: Seq<Seq<u8>>) -> (SessionView, Seq<EventView>)
        decreases pieces.len(),
    {
        if pieces.len() == 0 {
            (self, Seq::empty())
        } else {
            let (next, first) = self.receive(pieces[0]);
            let (last, more) = next.receive_all(pieces.skip(1));
            (last, first + more)
        }
    }
}

/// The client's side of a connection.
pub struct ClientSession {
    inbox: Inbox,
    streams: HashSet<u32>,
    replies: HashMap<u32, Vec<u8>>,
}

impl View for ClientSession {
    type V = SessionView;

    closed spec fn view(&self) -> SessionView {
        SessionView {
            inbox: self.inbox@,
            streams: self.streams@,
            replies: Map::new(
                |k: u32| self.replies@.contains_key(k),
                |k: u32| self.replies@[k]@,
            ),
        }
    }
}

/// The bytes of a request of type `kind` under `protocol`, or the error
/// for a parameter that is too long.
fn request(protocol: u32, parameter: Option<Vec<u8>>, kind: CutePacketType) -> (r: Result<
    Vec<u8>,
    CuteError,
>)
    ensures
        too_long(payload_view(parameter)) ==> {
            &&& r matches Err(e)
            &&& e.code == CuteErrorCode::SerializeInvalid
            &&& e.message@ == "the payload is too long for the wire"@
        },
        !too_long(payload_view(parameter)) ==> {
            &&& r matches Ok(out)
            &&& out@ == request_bytes(protocol, payload_view(parameter), kind)
        },
{
    let payload = match parameter {
        Some(bytes) => bytes,
        None => four_zeros(),
    };
    if payload.len() > MAX_MESSAGE_SIZE {
        return Err(CuteError::serialize_invalid("the payload is too long for the wire"));
    }
    Ok(encode_message(payload, protocol, kind))
}

/// The payload of a request without parameter.
fn four_zeros() -> (zeros: Vec<u8>)
    ensures
        zeros@ == request_payload(None),
{
    let mut zeros: Vec<u8> = Vec::new();
    zeros.push(0);
    zeros.push(0);
    zeros.push(0);
    zeros.push(0);
    assert(zeros@ =~= seq![0u8, 0u8, 0u8, 0u8]);
    zeros
}

/// The bytes of a request without parameter.
fn control(protocol: u32, kind: CutePacketType) -> (out: Vec<u8>)
    ensures
        out@ == request_bytes(protocol, None, kind),
{
    encode_message(four_zeros(), protocol, kind)
}

impl ClientSession {
    /// The state of a connection that has just been made: nothing received,
    /// no stream, no answer waiting, and the drain size of the packet format.
    pub fn new() -> (session: Self)
        ensures
            session@ == (SessionView {
                inbox: InboxView {
                    buffer: Seq::empty(),
                    drain_size: 0,
                    partials: Map::empty(),
                },
                streams: Set::empty(),
                replies: Map::empty(),
            }),
    {
        ClientSession::with_drain_size(CutePacket::get_drain_size())
    }

    /// As `new`, for a packet format with the drain size `drain_size`.
    pub fn with_drain_size(drain_size: usize) -> (session: Self)
        ensures
            session@ == (SessionView {
                inbox: InboxView {
                    buffer: Seq::empty(),
                    drain_size: drain_size as nat,
                    partials: Map::empty(),
                },
                streams: Set::empty(),
                replies: Map::empty(),
            }),
    {
        let session = ClientSession {
            inbox: Inbox::new(drain_size),
            streams: HashSet::new(),
            replies: HashMap::new(),
        };
        assert(session@.replies =~= Map::<u32, Seq<u8>>::empty());
        session
    }

    /// Whether `protocol` has a stream.
    pub fn has_stream(&self, protocol: u32) -> (registered: bool)
        ensures
            registered == self@.streams.contains(protocol),
    {
        broadcast use vstd::std_specs::hash::group_hash_axioms;

        self.streams.contains(&protocol)
    }

    /// The bytes of a unary call under `protocol`: the frames of a `Unary`
    /// message with the parameter, or with four zero bytes where there is
    /// none. A parameter that is too long to be split into frames is
    /// refused.
    pub fn client_unary(&self, protocol: u32, parameter: Option<Vec<u8>>) -> (r: Result<
        Vec<u8>,
        CuteError,
    >)
        ensures
            too_long(payload_view(parameter)) ==> {
                &&& r matches Err(e)
                &&& e.code == CuteErrorCode::SerializeInvalid
                &&& e.message@ == "the payload is too long for the wire"@
            },
            !too_long(payload_view(parameter)) ==> {
                &&& r matches Ok(out)
                &&& out@ == request_bytes(
                    protocol,
                    payload_view(parameter),
                    CutePacketType::Unary,
                )
            },
    {
        request(protocol, parameter, CutePacketType::Unary)
    }

    /// Starts a stream under `protocol`: the key is noted as having a
    /// stream before anything is sent, and the bytes of the request are
    /// handed out. A key that has a stream already is refused, and so is a
    /// parameter that is too long to be split into frames; nothing changes
    /// then.
    pub fn client_stream(&mut self, protocol: u32, parameter: Option<Vec<u8>>) -> (r: Result<
        Vec<u8>,
        CuteError,
    >)
        ensures
            old(self)@.streams.contains(protocol) ==> {
                &&& r matches Err(e)
                &&& e.code == CuteErrorCode::Internal
                &&& e.message@ == "terminate and run that stream first!!!"@
                &&& final(self)@ == old(self)@
            },
            !old(self)@.streams.contains(protocol) && too_long(payload_view(parameter)) ==> {
                &&& r matches Err(e)
                &&& e.code == CuteErrorCode::SerializeInvalid
                &&& e.message@ == "the payload is too long for the wire"@
                &&& final(self)@ == old(self)@
            },
            !old(self)@.streams.contains(protocol) && !too_long(payload_view(parameter)) ==> {
                &&& r matches Ok(out)
                &&& out@ == request_bytes(
                    protocol,
                    payload_view(parameter),
                    CutePacketType::Streaming,
                )
                &&& final(self)@ == (SessionView {
                    streams: old(self)@.streams.insert(protocol),
                    ..old(self)@
                })
            },
    {
        broadcast use vstd::std_specs::hash::group_hash_axioms;

        if self.streams.contains(&protocol) {
            return Err(CuteError::internal("terminate and run that stream first!!!"));
        }
        let made = request(protocol, parameter, CutePacketType::Streaming);
        if made.is_ok() {
            self.streams.insert(protocol);
        }
        made
    }

    /// The bytes that ask the server to close the stream of `protocol`: one
    /// `StreamClose` frame with four zero bytes. The key keeps its stream
    /// here until the server's closing comes in.
    pub fn close_stream(&self, protocol: u32) -> (out: Vec<u8>)
        ensures
            out@ == request_bytes(protocol, None, CutePacketType::StreamClose),
    {
        control(protocol, CutePacketType::StreamClose)
    }

    /// The bytes that ask the server to close every stream: one
    /// `StreamAllClose` frame with four zero bytes under `ALL_STREAMS_KEY`.
    pub fn close_stream_all(&self) -> (out: Vec<u8>)
        ensures
            out@ == request_bytes(ALL_STREAMS_KEY, None, CutePacketType::StreamAllClose),
    {
        control(ALL_STREAMS_KEY, CutePacketType::StreamAllClose)
    }

    /// Takes the answer that waits under `protocol`, if one does.
    pub fn take_reply(&mut self, protocol: u32) -> (reply: Option<Vec<u8>>)
        ensures
            payload_view(reply) == if old(self)@.replies.contains_key(protocol) {
                Some(old(self)@.replies[protocol])
            } else {
                None
            },
            final(self)@ == (SessionView {
                replies: old(self)@.replies.remove(protocol),
                ..old(self)@
            }),
    {
        broadcast use vstd::std_specs::hash::group_hash_axioms;

        let reply = self.replies.remove(&protocol);
        assert(self@.replies =~= old(self)@.replies.remove(protocol));
        reply
    }

    /// Takes a whole message and says what it brings.
    fn dispatch(&mut self, kind: CutePacketType, protocol: u32, payload: Vec<u8>) -> (events: Vec<
        ClientEvent,
    >)
        ensures
            (final(self)@, event_views(events@)) == old(self)@.dispatch(kind, protocol, payload@),
    {
        broadcast use vstd::std_specs::hash::group_hash_axioms;

        let mut events: Vec<ClientEvent> = Vec::new();
        let ghost before = self@;
        let ghost given = payload@;
        match kind {
            CutePacketType::Empty => {},
            CutePacketType::Unary => {
                if !self.replies.contains_key(&protocol) {
                    self.replies.insert(protocol, payload);
                    events.push(ClientEvent::Reply { protocol });
                    assert(self@.replies =~= before.replies.insert(protocol, given));
                }
            },
            CutePacketType::Streaming => {
                if self.streams.contains(&protocol) {
                    events.push(ClientEvent::Item { protocol, payload });
                }
            },
            CutePacketType::StreamClose => {
                if self.streams.remove(&protocol) {
                    events.push(ClientEvent::StreamClosed { protocol });
                }
            },
            CutePacketType::StreamAllClose => {
                self.streams.clear();
                events.push(ClientEvent::AllStreamsClosed);
            },
        }
        assert(self@.replies =~= before.dispatch(kind, protocol, given).0.replies);
        assert(self@.streams =~= before.dispatch(kind, protocol, given).0.streams);
        assert(event_views(events@) =~= before.dispatch(kind, protocol, given).1);
        events
    }

    /// Takes the bytes that have arrived and says what they bring, in order.
    pub fn receive(&mut self, bytes: &[u8]) -> (events: Vec<ClientEvent>)
        ensures
            (final(self)@, event_views(events@)) == old(self)@.receive(bytes@),
    {
        let messages = self.inbox.receive(bytes);
        let ghost views = message_views(messages@);
        let ghost start = self@;
        let mut events: Vec<ClientEvent> = Vec::new();
        proof {
            assert(views.take(0) =~= Seq::<MessageView>::empty());
            assert(event_views(events@) =~= Seq::<EventView>::empty());
        }
        for message in iter: messages
            invariant
                message_views(iter.seq()) == views,
                (self@, event_views(events@)) == start.dispatch_all(views.take(iter.index())),
        {
            let ghost seen = event_views(events@);
            proof {
                assert(views.take(iter.index() + 1).drop_last() =~= views.take(iter.index()));
                assert(views.take(iter.index() + 1).last() == message@);
            }
            let mut more = self.dispatch(message.kind, message.protocol, message.payload);
            let ghost more_views = event_views(more@);
            events.append(&mut more);
            assert(event_views(events@) =~= seen + more_views);
        }
        proof {
            assert(views.take(views.len() as int) =~= views);
        }
        events
    }
}

/// An answer or an item that the server's side has written arrives as that
/// message: its bytes, coming in at a session whose buffer is empty and
/// that holds nothing unfinished under the protocol key, bring what the
/// message itself brings, and leave the inbox as it was.
pub proof fn lemma_written_message_is_dispatched(
    s: SessionView,
    data: Seq<u8>,
    protocol: u32,
    kind: CutePacketType,
)
    requires
        s.inbox.buffer.len() == 0,
        !s.inbox.partials.contains_key(protocol),
        data.len() <= MAX_MESSAGE_SIZE,
    ensures
        s.receive(wire_bytes(chunk_packets(data, protocol, kind))) == s.dispatch(
            kind,
            protocol,
            data,
        ),
{
    lemma_written_message_arrives_whole(s.inbox, data, protocol, kind);
    let m = MessageView { kind, protocol, payload: data };
    let messages = seq![m];
    assert(messages.drop_last() =~= Seq::<MessageView>::empty());
    assert(messages.last() == m);
    assert(s.dispatch_all(messages.drop_last()) == (s, Seq::<EventView>::empty()));
    assert(Seq::<EventView>::empty() + s.dispatch(kind, protocol, data).1 =~= s.dispatch(
        kind,
        protocol,
        data,
    ).1);
}

/// Dispatching leaves the inbox alone, and does not look at it.
proof fn lemma_dispatch_all_and_the_inbox(s: SessionView, messages: Seq<MessageView>, inbox: InboxView)
    ensures
        s.dispatch_all(messages).0.inbox == s.inbox,
        (SessionView { inbox, ..s }).dispatch_all(messages) == (
            SessionView { inbox, ..s.dispatch_all(messages).0 },
            s.dispatch_all(messages).1,
        ),
    decreases messages.len(),
{
    if messages.len() > 0 {
        lemma_dispatch_all_and_the_inbox(s, messages.drop_last(), inbox);
    }
}

/// Dispatching one after the other: first some messages, then the others.
proof fn lemma_dispatch_all_in_two(s: SessionView, a: Seq<MessageView>, b: Seq<MessageView>)
    ensures
        s.dispatch_all(a + b) == ({
            let (mid, first) = s.dispatch_all(a);
            let (end, more) = mid.dispatch_all(b);
            (end, first + more)
        }),
    decreases b.len(),
{
    let (mid, first) = s.dispatch_all(a);
    if b.len() == 0 {
        assert(a + b =~= a);
        assert(first + Seq::<EventView>::empty() =~= first);
    } else {
        lemma_dispatch_all_in_two(s, a, b.drop_last());
        assert((a + b).drop_last() =~= a + b.drop_last());
        assert((a + b).last() == b.last());
        let (before, more) = mid.dispatch_all(b.drop_last());
        let m = b.last();
        let (end, last) = before.dispatch(m.kind, m.protocol, m.payload);
        assert((first + more) + last =~= first + (more + last));
    }
}

/// Pieces arriving one after the other lead to what the messages lead to
/// that the inbox makes of them.
proof fn lemma_receive_all_by_the_inbox(s: SessionView, pieces: Seq<Seq<u8>>)
    ensures
        s.receive_all(pieces) == (SessionView {
            inbox: s.inbox.receive_all(pieces).0,
            ..s
        }).dispatch_all(s.inbox.receive_all(pieces).1),
    decreases pieces.len(),
{
    if pieces.len() == 0 {
        assert((SessionView { inbox: s.inbox, ..s }) == s);
    } else {
        let (inbox1, m1) = s.inbox.receive(pieces[0]);
        let (next, first) = s.receive(pieces[0]);
        lemma_dispatch_all_and_the_inbox(s, m1, inbox1);
        assert(next.inbox == inbox1);
        lemma_receive_all_by_the_inbox(next, pieces.skip(1));
        let (inbox2, m2) = inbox1.receive_all(pieces.skip(1));
        lemma_dispatch_all_and_the_inbox(s, m1, inbox2);
        lemma_dispatch_all_in_two(SessionView { inbox: inbox2, ..s }, m1, m2);
        assert((SessionView { inbox: inbox2, ..next }) == (SessionView {
            inbox: inbox2,
            ..s.dispatch_all(m1).0
        }));
    }
}

/// However the bytes of a written message are cut into pieces on their way,
/// they lead to what the message itself leads to: the pieces, arriving one
/// after the other where the buffer is empty and nothing is unfinished under
/// the protocol key, are dispatched as the message is, and leave the inbox as
/// it was.
pub proof fn lemma_written_message_is_dispatched_in_pieces(
    s: SessionView,
    data: Seq<u8>,
    protocol: u32,
    kind: CutePacketType,
    pieces: Seq<Seq<u8>>,
)
    requires
        s.inbox.buffer.len() == 0,
        !s.inbox.partials.contains_key(protocol),
        data.len() <= MAX_MESSAGE_SIZE,
        pieces_joined(pieces) == wire_bytes(chunk_packets(data, protocol, kind)),
    ensures
        s.receive_all(pieces) == s.dispatch(kind, protocol, data),
{
    lemma_written_message_arrives_whole_in_pieces(s.inbox, data, protocol, kind, pieces);
    lemma_receive_all_by_the_inbox(s, pieces);
    let m = MessageView { kind, protocol, payload: data };
    let messages = seq![m];
    assert((SessionView { inbox: s.inbox, ..s }) == s);
    assert(messages.drop_last() =~= Seq::<MessageView>::empty());
    assert(messages.last() == m);
    assert(s.dispatch_all(messages.drop_last()) == (s, Seq::<EventView>::empty()));
    assert(Seq::<EventView>::empty() + s.dispatch(kind, protocol, data).1 =~= s.dispatch(
        kind,
        protocol,
        data,
    ).1);
}

} // verus!
