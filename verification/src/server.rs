//! The server's side of one connection, without the socket.
//!
//! A `ServerPeer` is fed the bytes that arrive from one remote peer and
//! answers with what is to be done: run a task once, open a stream, cancel
//! one. The outcomes of that work are handed back to it, and it answers with
//! the bytes to write. It keeps the receive buffer, the unfinished payloads
//! and the table of live streams of its connection; two peers share nothing.

use tokio_stream::StreamMap;
use vstd::prelude::*;
use crate::errors::{CuteError, CuteErrorCode, ErrorView};
use crate::framing::{encode_message, wire_bytes};
use crate::inbox::{
    lemma_written_message_arrives_whole,
    lemma_written_message_arrives_whole_in_pieces,
    message_views,
    pieces_joined,
    Inbox,
    InboxView,
    MessageView,
};
use crate::packet::{chunk_packets, CutePacket, CutePacketTrait, CutePacketType, MAX_MESSAGE_SIZE};
use crate::registry::{
    new_table,
    stream_numbers,
    table_clear,
    table_contains_key,
    table_insert,
    table_remove,
};

verus! {

/// What the server is to do for its peer.
#[derive(Debug)]
pub enum ServerAction {
    /// Build the task under `protocol` from `input`, run it once, destroy it,
    /// and hand the outcome to `unary_reply`.
    RunUnary { protocol: u32, input: Vec<u8> },
    /// Build the task under `protocol` from `input` and run it as the stream
    /// `stream`, handing each item to `stream_item`.
    OpenStream { protocol: u32, stream: u64, input: Vec<u8> },
    /// Stop the stream `stream` of `protocol` and destroy its task.
    CancelStream { protocol: u32, stream: u64 },
    /// Stop every stream of this peer and destroy their tasks.
    CancelAllStreams,
}

/// A `ServerAction` as contracts see it.
pub enum ActionView {
    RunUnary { protocol: u32, input: Seq<u8> },
    OpenStream { protocol: u32, stream: u64, input: Seq<u8> },
    CancelStream { protocol: u32, stream: u64 },
    CancelAllStreams,
}

impl View for ServerAction {
    type V = ActionView;

    open spec fn view(&self) -> ActionView {
        match *self {
            ServerAction::RunUnary { protocol, input } => ActionView::RunUnary {
                protocol,
                input: input@,
            },
            ServerAction::OpenStream { protocol, stream, input } => ActionView::OpenStream {
                protocol,
                stream,
                input: input@,
            },
            ServerAction::CancelStream { protocol, stream } => ActionView::CancelStream {
                protocol,
                stream,
            },
            ServerAction::CancelAllStreams => ActionView::CancelAllStreams,
        }
    }
}

/// What a sequence of actions is in contracts.
pub open spec fn action_views(actions: Seq<ServerAction>) -> Seq<ActionView> {
    Seq::new(actions.len(), |i: int| actions[i]@)
}

/// The state of one connection as contracts see it.
pub struct PeerView {
    /// The receiving end: buffered bytes and unfinished payloads.
    pub inbox: InboxView,
    /// The live streams: protocol key to stream number. A key has at most
    /// one stream.
    pub streams: Map<u32, u64>,
    /// The number that the next stream gets.
    pub next_stream: u64,
}

impl PeerView {
    /// Every live stream has a number that was handed out already.
    pub open spec fn wf(self) -> bool {
        forall|protocol: u32| #[trigger]
            self.streams.contains_key(protocol) ==> self.streams[protocol] < self.next_stream
    }

    /// The state after a whole request of type `kind` under `protocol` has
    /// come in, and what is to be done for it.
    ///
    /// A `Streaming` request first cancels the stream that the key has, if
    /// it has one, and then opens a new one under the next number; once the
    /// numbers are used up it opens none. `StreamClose` cancels the key's
    /// stream, `StreamAllClose` every stream. A `Unary` request touches no
    /// stream.
    pub open spec fn dispatch(self, kind: CutePacketType, protocol: u32, payload: Seq<u8>) -> (
        PeerView,
        Seq<ActionView>,
    ) {
        let cancel = if self.streams.contains_key(protocol) {
            seq![ActionView::CancelStream { protocol, stream: self.streams[protocol] }]
        } else {
            Seq::empty()
        };
        match kind {
            CutePacketType::Empty => (self, Seq::empty()),
            CutePacketType::Unary => (self, seq![ActionView::RunUnary { protocol, input: payload }]),
            CutePacketType::Streaming => if self.next_stream < u64::MAX {
                (
                    PeerView {
                        streams: self.streams.insert(protocol, self.next_stream),
                        next_stream: (self.next_stream + 1) as u64,
                        ..self
                    },
                    cancel + seq![
                        ActionView::OpenStream {
                            protocol,
                            stream: self.next_stream,
                            input: payload,
                        },
                    ],
                )
            } else {
                (PeerView { streams: self.streams.remove(protocol), ..self }, cancel)
            },
            CutePacketType::StreamClose => (
                PeerView { streams: self.streams.remove(protocol), ..self },
                cancel,
            ),
            CutePacketType::StreamAllClose => (
                PeerView { streams: Map::empty(), ..self },
                seq![ActionView::CancelAllStreams],
            ),
        }
    }

    /// The state after `messages` have come in, one after the other, and
    /// all that is to be done for them, in order.
    pub open spec fn dispatch_all(self, messages: Seq<MessageView>) -> (PeerView, Seq<ActionView>)
        decreases messages.len(),
    {
        if messages.len() == 0 {
            (self, Seq::empty())
        } else {
            let (before, actions) = self.dispatch_all(messages.drop_last());
            let m = messages.last();
            let (after, more) = before.dispatch(m.kind, m.protocol, m.payload);
            (after, actions + more)
        }
    }

    /// The state after `bytes` have arrived, and all that is to be done: the
    /// inbox takes the bytes, and the requests that they complete are
    /// dispatched one after the other.
    pub open spec fn receive(self, bytes: Seq<u8>) -> (PeerView, Seq<ActionView>) {
        let (inbox, messages) = self.inbox.receive(bytes);
        (PeerView { inbox, ..self }).dispatch_all(messages)
    }

    /// The state after `pieces` have arrived, one after the other, and
    /// all that is to be done, in order.
    pub open spec fn receive_all(self, pieces: Seq<Seq<u8>>) -> (PeerView, Seq<ActionView>)
        decreases pieces.len(),
    {
        if pieces.len() == 0 {
            (self, Seq::empty())
        } else {
            let (next, first) = self.receive(pieces[0]);
            let (last, more) = next.receive_all(pieces.skip(1));
            (last, first + more)
        }
    }

    /// The state after the stream `stream` of `protocol` has produced
    /// `item`, and the bytes to write to the peer.
    ///
    /// Only the key's live stream is heard: the item of any other stream
    /// changes nothing and writes nothing. A payload is written as the frames
    /// of a `Streaming` message. An error ends the stream, and so does a
    /// payload that is too long to be split into frames: the key has no
    /// stream afterwards, and nothing is written.
    pub open spec fn stream_item(
        self,
        protocol: u32,
        stream: u64,
        item: Result<Seq<u8>, ErrorView>,
    ) -> (PeerView, Seq<u8>) {
        if self.streams.contains_key(protocol) && self.streams[protocol] == stream {
            match item {
                Ok(payload) => if payload.len() <= MAX_MESSAGE_SIZE {
                    (self, wire_bytes(chunk_packets(payload, protocol, CutePacketType::Streaming)))
                } else {
                    (PeerView { streams: self.streams.remove(protocol), ..self }, Seq::empty())
                },
                Err(_) => (PeerView { streams: self.streams.remove(protocol), ..self }, Seq::empty()),
            }
        } else {
            (self, Seq::empty())
        }
    }
}

/// The bytes that answer a unary request under `protocol`: the frames of a
/// `Unary` message with the task's output, or with an empty payload where
/// the task had none. A failed request is answered with nothing, and so is
/// one whose output is too long to be split into frames.
pub open spec fn unary_reply_spec(protocol: u32, outcome: Result<Option<Seq<u8>>, ErrorView>) -> Seq<
    u8,
> {
    match outcome {
        Ok(Some(payload)) => if payload.len() <= MAX_MESSAGE_SIZE {
            wire_bytes(chunk_packets(payload, protocol, CutePacketType::Unary))
        } else {
            Seq::empty()
        },
        Ok(None) => wire_bytes(chunk_packets(Seq::empty(), protocol, CutePacketType::Unary)),
        Err(_) => Seq::empty(),
    }
}

/// What the outcome of one run of a task is in contracts.
pub open spec fn outcome_view(outcome: Result<Option<Vec<u8>>, CuteError>) -> Result<
    Option<Seq<u8>>,
    ErrorView,
> {
    match outcome {
        Ok(Some(payload)) => Ok(Some(payload@)),
        Ok(None) => Ok(None),
        Err(e) => Err(e@),
    }
}

/// What an item of a stream is in contracts.
pub open spec fn item_view(item: Result<Vec<u8>, CuteError>) -> Result<Seq<u8>, ErrorView> {
    match item {
        Ok(payload) => Ok(payload@),
        Err(e) => Err(e@),
    }
}

/// The bytes that answer a unary request under `protocol`.
pub fn unary_reply(protocol: u32, outcome: Result<Option<Vec<u8>>, CuteError>) -> (out: Vec<u8>)
    ensures
        out@ == unary_reply_spec(protocol, outcome_view(outcome)),
{
    match outcome {
        Ok(Some(payload)) => {
            if payload.len() <= MAX_MESSAGE_SIZE {
                encode_message(payload, protocol, CutePacketType::Unary)
            } else {
                error_bytes(too_long())
            }
        },
        Ok(None) => encode_message(Vec::new(), protocol, CutePacketType::Unary),
        Err(e) => error_bytes(e),
    }
}

/// The error for a payload that is too long to be split into frames.
fn too_long() -> (e: CuteError)
    ensures
        e.code == CuteErrorCode::SerializeInvalid,
        e.message@ == "the payload is too long for the wire"@,
{
    CuteError::serialize_invalid("the payload is too long for the wire")
}

/// The bytes that report `e` to the peer: the error packet of the packet
/// format, which has none.
fn error_bytes(e: CuteError) -> (out: Vec<u8>)
    ensures
        out@ == Seq::<u8>::empty(),
{
    match CutePacket::error_create_packet(e) {
        Some(packet) => packet.serialize(),
        None => Vec::new(),
    }
}

/// The server's side of one connection.
pub struct ServerPeer {
    inbox: Inbox,
    streams: StreamMap<u32, u64>,
    next_stream: u64,
}

impl View for ServerPeer {
    type V = PeerView;

    closed spec fn view(&self) -> PeerView {
        PeerView {
            inbox: self.inbox@,
            streams: stream_numbers(self.streams),
            next_stream: self.next_stream,
        }
    }
}

impl ServerPeer {
    /// The state of a connection that has just been accepted: nothing
    /// received, no stream, and the drain size of the packet format.
    pub fn new() -> (peer: Self)
        ensures
            peer@ == (PeerView {
                inbox: InboxView {
                    buffer: Seq::empty(),
                    drain_size: 0,
                    partials: Map::empty(),
                },
                streams: Map::empty(),
                next_stream: 0,
            }),
            peer@.wf(),
    {
        ServerPeer::with_drain_size(CutePacket::get_drain_size())
    }

    /// As `new`, for a packet format with the drain size `drain_size`.
    pub fn with_drain_size(drain_size: usize) -> (peer: Self)
        ensures
            peer@ == (PeerView {
                inbox: InboxView {
                    buffer: Seq::empty(),
                    drain_size: drain_size as nat,
                    partials: Map::empty(),
                },
                streams: Map::empty(),
                next_stream: 0,
            }),
            peer@.wf(),
    {
        ServerPeer { inbox: Inbox::new(drain_size), streams: new_table(), next_stream: 0 }
    }

    /// Whether `protocol` has a live stream.
    pub fn has_stream(&self, protocol: u32) -> (live: bool)
        ensures
            live == self@.streams.contains_key(protocol),
    {
        table_contains_key(&self.streams, protocol)
    }

    /// Takes a whole request and says what is to be done for it.
    fn dispatch(&mut self, kind: CutePacketType, protocol: u32, payload: Vec<u8>) -> (actions: Vec<
        ServerAction,
    >)
        ensures
            (final(self)@, action_views(actions@)) == old(self)@.dispatch(kind, protocol, payload@),
            old(self)@.wf() ==> final(self)@.wf(),
    {
        let mut actions: Vec<ServerAction> = Vec::new();
        let ghost before = self@;
        let ghost input = payload@;
        match kind {
            CutePacketType::Empty => {},
            CutePacketType::Unary => {
                actions.push(ServerAction::RunUnary { protocol, input: payload });
            },
            CutePacketType::Streaming => {
                if self.next_stream < u64::MAX {
                    let stream = self.next_stream;
                    match table_insert(&mut self.streams, protocol, stream) {
                        Some(first) => {
                            actions.push(ServerAction::CancelStream { protocol, stream: first });
                        },
                        None => {},
                    }
                    self.next_stream = stream + 1;
                    actions.push(ServerAction::OpenStream { protocol, stream, input: payload });
                } else {
                    match table_remove(&mut self.streams, protocol) {
                        Some(first) => {
                            actions.push(ServerAction::CancelStream { protocol, stream: first });
                        },
                        None => {},
                    }
                }
            },
            CutePacketType::StreamClose => {
                match table_remove(&mut self.streams, protocol) {
                    Some(stream) => {
                        actions.push(ServerAction::CancelStream { protocol, stream });
                    },
                    None => {},
                }
            },
            CutePacketType::StreamAllClose => {
                table_clear(&mut self.streams);
                actions.push(ServerAction::CancelAllStreams);
            },
        }
        assert(action_views(actions@) =~= before.dispatch(kind, protocol, input).1);
        actions
    }

    /// Takes the bytes that have arrived and says what is to be done, in
    /// order.
    pub fn receive(&mut self, bytes: &[u8]) -> (actions: Vec<ServerAction>)
        ensures
            (final(self)@, action_views(actions@)) == old(self)@.receive(bytes@),
            old(self)@.wf() ==> final(self)@.wf(),
    {
        let ghost before = self@;
        let messages = self.inbox.receive(bytes);
        let ghost views = message_views(messages@);
        let ghost start = self@;
        let mut actions: Vec<ServerAction> = Vec::new();
        proof {
            assert(start.streams == before.streams && start.next_stream == before.next_stream);
            assert(before.wf() ==> start.wf());
            assert(views.take(0) =~= Seq::<MessageView>::empty());
            assert(action_views(actions@) =~= Seq::<ActionView>::empty());
        }
        for message in iter: messages
            invariant
                message_views(iter.seq()) == views,
                start.wf() ==> self@.wf(),
                (self@, action_views(actions@)) == start.dispatch_all(
                    views.take(iter.index()),
                ),
        {
            let ghost done_before = action_views(actions@);
            proof {
                assert(views.take(iter.index() + 1).drop_last() =~= views.take(iter.index()));
                assert(views.take(iter.index() + 1).last() == message@);
            }
            let mut more = self.dispatch(message.kind, message.protocol, message.payload);
            let ghost more_views = action_views(more@);
            actions.append(&mut more);
            assert(action_views(actions@) =~= done_before + more_views);
        }
        proof {
            assert(views.take(views.len() as int) =~= views);
        }
        actions
    }

    /// Takes an item of the stream `stream` of `protocol` and gives the bytes
    /// to write to the peer.
    pub fn stream_item(&mut self, protocol: u32, stream: u64, item: Result<Vec<u8>, CuteError>) -> (out:
        Vec<u8>)
        ensures
            (final(self)@, out@) == old(self)@.stream_item(protocol, stream, item_view(item)),
            old(self)@.wf() ==> final(self)@.wf(),
    {
        let ghost before = self@;
        match table_remove(&mut self.streams, protocol) {
            Some(live) => {
                if live == stream {
                    match item {
                        Ok(payload) => {
                            if payload.len() <= MAX_MESSAGE_SIZE {
                                table_insert(&mut self.streams, protocol, live);
                                assert(self@.streams =~= before.streams);
                                encode_message(payload, protocol, CutePacketType::Streaming)
                            } else {
                                error_bytes(too_long())
                            }
                        },
                        Err(e) => error_bytes(e),
                    }
                } else {
                    table_insert(&mut self.streams, protocol, live);
                    assert(self@.streams =~= before.streams);
                    Vec::new()
                }
            },
            None => {
                assert(self@.streams =~= before.streams);
                Vec::new()
            },
        }
    }

    /// Ends the connection's state: the buffer and the unfinished payloads
    /// are dropped, no stream is live, and every stream is to be cancelled.
    pub fn close(&mut self) -> (action: ServerAction)
        ensures
            final(self)@ == (PeerView {
                inbox: InboxView {
                    buffer: Seq::empty(),
                    partials: Map::empty(),
                    ..old(self)@.inbox
                },
                streams: Map::empty(),
                ..old(self)@
            }),
            final(self)@.wf(),
            action@ == ActionView::CancelAllStreams,
    {
        self.inbox.clear();
        table_clear(&mut self.streams);
        ServerAction::CancelAllStreams
    }
}

/// A unary request touches no stream and nothing else of the state: all
/// that follows from it is that the task is to be run once.
pub proof fn lemma_unary_touches_no_stream(s: PeerView, protocol: u32, payload: Seq<u8>)
    ensures
        s.dispatch(CutePacketType::Unary, protocol, payload) == (
            s,
            seq![ActionView::RunUnary { protocol, input: payload }],
        ),
{
}

/// After `StreamClose` for one key, nothing that any stream of that key
/// produces is written any more, while the stream of every other key is
/// heard as before: it is the same stream, and what it produces is written
/// as the same bytes.
pub proof fn lemma_close_silences_one_key(
    s: PeerView,
    closed: u32,
    other: u32,
    payload: Seq<u8>,
    stream: u64,
    item: Result<Seq<u8>, ErrorView>,
)
    requires
        closed != other,
    ensures
        ({
            let (t, actions) = s.dispatch(CutePacketType::StreamClose, closed, payload);
            &&& s.streams.contains_key(closed) ==> actions == seq![
                ActionView::CancelStream { protocol: closed, stream: s.streams[closed] },
            ]
            &&& !t.streams.contains_key(closed)
            &&& t.stream_item(closed, stream, item) == (t, Seq::<u8>::empty())
            &&& t.streams.contains_key(other) == s.streams.contains_key(other)
            &&& t.streams.contains_key(other) ==> t.streams[other] == s.streams[other]
            &&& t.stream_item(other, stream, item).1 == s.stream_item(other, stream, item).1
        }),
{
}

/// A second `Streaming` request for a key that has a stream: the first
/// stream is cancelled before the second is opened, the second has another
/// number, and nothing that the first produces from then on is written.
pub proof fn lemma_second_stream_supersedes(
    s: PeerView,
    protocol: u32,
    payload: Seq<u8>,
    item: Result<Seq<u8>, ErrorView>,
)
    requires
        s.wf(),
        s.streams.contains_key(protocol),
        s.next_stream < u64::MAX,
    ensures
        ({
            let first = s.streams[protocol];
            let (t, actions) = s.dispatch(CutePacketType::Streaming, protocol, payload);
            &&& actions == seq![
                ActionView::CancelStream { protocol, stream: first },
                ActionView::OpenStream { protocol, stream: s.next_stream, input: payload },
            ]
            &&& first != s.next_stream
            &&& t.streams[protocol] == s.next_stream
            &&& t.stream_item(protocol, first, item) == (t, Seq::<u8>::empty())
        }),
{
    let first = s.streams[protocol];
    let (t, actions) = s.dispatch(CutePacketType::Streaming, protocol, payload);
    assert(actions =~= seq![
        ActionView::CancelStream { protocol, stream: first },
        ActionView::OpenStream { protocol, stream: s.next_stream, input: payload },
    ]);
}

/// A request that the client's side has written arrives as that request:
/// its bytes, coming in at a peer whose buffer is empty and that holds
/// nothing unfinished under the protocol key, lead to what the request
/// itself leads to, and leave the inbox as it was.
pub proof fn lemma_written_request_is_dispatched(
    s: PeerView,
    data: Seq<u8>,
    protocol: u32,
    kind: CutePacketType,
)
    requires
        s.inbox.buffer.len() == 0,
        !s.inbox.partials.contains_key(protocol),
        data.len() <= MAX_MESSAGE_SIZE,
    ensures
        s.receive(wire_bytes(chunk_packets(data, protocol, kind))) == s.dispatch(
            kind,
            protocol,
            data,
        ),
{
    lemma_written_message_arrives_whole(s.inbox, data, protocol, kind);
    let m = MessageView { kind, protocol, payload: data };
    let messages = seq![m];
    assert(messages.drop_last() =~= Seq::<MessageView>::empty());
    assert(messages.last() == m);
    assert(s.dispatch_all(messages.drop_last()) == (s, Seq::<ActionView>::empty()));
    assert(Seq::<ActionView>::empty() + s.dispatch(kind, protocol, data).1 =~= s.dispatch(
        kind,
        protocol,
        data,
    ).1);
}

/// Dispatching leaves the inbox alone, and does not look at it.
proof fn lemma_dispatch_all_and_the_inbox(s: PeerView, messages: Seq<MessageView>, inbox: InboxView)
    ensures
        s.dispatch_all(messages).0.inbox == s.inbox,
        (PeerView { inbox, ..s }).dispatch_all(messages) == (
            PeerView { inbox, ..s.dispatch_all(messages).0 },
            s.dispatch_all(messages).1,
        ),
    decreases messages.len(),
{
    if messages.len() > 0 {
        lemma_dispatch_all_and_the_inbox(s, messages.drop_last(), inbox);
    }
}

/// Dispatching one after the other: first some messages, then the others.
proof fn lemma_dispatch_all_in_two(s: PeerView, a: Seq<MessageView>, b: Seq<MessageView>)
    ensures
        s.dispatch_all(a + b) == ({
            let (mid, first) = s.dispatch_all(a);
            let (end, more) = mid.dispatch_all(b);
            (end, first + more)
        }),
    decreases b.len(),
{
    let (mid, first) = s.dispatch_all(a);
    if b.len() == 0 {
        assert(a + b =~= a);
        assert(first + Seq::<ActionView>::empty() =~= first);
    } else {
        lemma_dispatch_all_in_two(s, a, b.drop_last());
        assert((a + b).drop_last() =~= a + b.drop_last());
        assert((a + b).last() == b.last());
        let (before, more) = mid.dispatch_all(b.drop_last());
        let m = b.last();
        let (end, last) = before.dispatch(m.kind, m.protocol, m.payload);
        assert((first + more) + last =~= first + (more + last));
    }
}

/// Pieces arriving one after the other lead to what the messages lead to
/// that the inbox makes of them.
proof fn lemma_receive_all_by_the_inbox(s: PeerView, pieces: Seq<Seq<u8>>)
    ensures
        s.receive_all(pieces) == (PeerView {
            inbox: s.inbox.receive_all(pieces).0,
            ..s
        }).dispatch_all(s.inbox.receive_all(pieces).1),
    decreases pieces.len(),
{
    if pieces.len() == 0 {
        assert((PeerView { inbox: s.inbox, ..s }) == s);
    } else {
        let (inbox1, m1) = s.inbox.receive(pieces[0]);
        let (next, first) = s.receive(pieces[0]);
        lemma_dispatch_all_and_the_inbox(s, m1, inbox1);
        assert(next.inbox == inbox1);
        lemma_receive_all_by_the_inbox(next, pieces.skip(1));
        let (inbox2, m2) = inbox1.receive_all(pieces.skip(1));
        lemma_dispatch_all_and_the_inbox(s, m1, inbox2);
        lemma_dispatch_all_in_two(PeerView { inbox: inbox2, ..s }, m1, m2);
        assert((PeerView { inbox: inbox2, ..next }) == (PeerView {
            inbox: inbox2,
            ..s.dispatch_all(m1).0
        }));
    }
}

/// However the bytes of a written request are cut into pieces on their way,
/// they lead to what the request itself leads to: the pieces, arriving one
/// after the other where the buffer is empty and nothing is unfinished under
/// the protocol key, are dispatched as the request is, and leave the inbox as
/// it was.
pub proof fn lemma_written_request_is_dispatched_in_pieces(
    s: PeerView,
    data: Seq<u8>,
    protocol: u32,
    kind: CutePacketType,
    pieces: Seq<Seq<u8>>,
)
    requires
        s.inbox.buffer.len() == 0,
        !s.inbox.partials.contains_key(protocol),
        data.len() <= MAX_MESSAGE_SIZE,
        pieces_joined(pieces) == wire_bytes(chunk_packets(data, protocol, kind)),
    ensures
        s.receive_all(pieces) == s.dispatch(kind, protocol, data),
{
    lemma_written_message_arrives_whole_in_pieces(s.inbox, data, protocol, kind, pieces);
    lemma_receive_all_by_the_inbox(s, pieces);
    let m = MessageView { kind, protocol, payload: data };
    let messages = seq![m];
    assert((PeerView { inbox: s.inbox, ..s }) == s);
    assert(messages.drop_last() =~= Seq::<MessageView>::empty());
    assert(messages.last() == m);
    assert(s.dispatch_all(messages.drop_last()) == (s, Seq::<ActionView>::empty()));
    assert(Seq::<ActionView>::empty() + s.dispatch(kind, protocol, data).1 =~= s.dispatch(
        kind,
        protocol,
        data,
    ).1);
}

} // verus!
