use cute::errors::CuteError;
use cute::framing::encode_message;
use cute::packet::{CutePacket, CutePacketTrait, CutePacketType, MAX_PAYLOAD_SIZE};
use cute::server::{unary_reply, ServerAction, ServerPeer};

fn request(payload: Vec<u8>, protocol: u32, kind: CutePacketType) -> Vec<u8> {
    encode_message(payload, protocol, kind)
}

fn expect_open(action: &ServerAction, protocol: u32, input: &[u8]) -> u64 {
    match action {
        ServerAction::OpenStream { protocol: p, stream, input: i } => {
            assert_eq!(*p, protocol);
            assert_eq!(i.as_slice(), input);
            *stream
        }
        other => panic!("a stream was to be opened, not {:?}", other),
    }
}

fn expect_cancel(action: &ServerAction, protocol: u32, stream: u64) {
    match action {
        ServerAction::CancelStream { protocol: p, stream: s } => {
            assert_eq!(*p, protocol);
            assert_eq!(*s, stream);
        }
        other => panic!("a stream was to be cancelled, not {:?}", other),
    }
}

#[test]
fn a_unary_request_asks_for_one_run() {
    let mut peer = ServerPeer::new();
    let actions = peer.receive(&request(vec![1, 2, 3], 4, CutePacketType::Unary));
    assert_eq!(actions.len(), 1);
    match &actions[0] {
        ServerAction::RunUnary { protocol, input } => {
            assert_eq!(*protocol, 4);
            assert_eq!(input, &vec![1, 2, 3]);
        }
        other => panic!("a run was expected, not {:?}", other),
    }
}

#[test]
fn an_empty_packet_asks_for_nothing() {
    let mut peer = ServerPeer::new();
    assert!(peer.receive(&request(vec![1], 4, CutePacketType::Empty)).is_empty());
}

#[test]
fn a_request_that_arrives_in_pieces_is_dispatched_once() {
    let mut peer = ServerPeer::new();
    let bytes = request(vec![9; 1000], 4, CutePacketType::Unary);
    let mut actions = Vec::new();
    for piece in bytes.chunks(37) {
        actions.extend(peer.receive(piece));
    }
    assert_eq!(actions.len(), 1);
    assert!(matches!(&actions[0], ServerAction::RunUnary { protocol: 4, input } if input == &vec![9u8; 1000]));
}

#[test]
fn a_streaming_request_opens_a_stream() {
    let mut peer = ServerPeer::new();
    let actions = peer.receive(&request(vec![7], 1, CutePacketType::Streaming));
    assert_eq!(actions.len(), 1);
    let stream = expect_open(&actions[0], 1, &[7]);
    assert_eq!(stream, 0);
    assert!(peer.has_stream(1));
    assert!(!peer.has_stream(2));
}

#[test]
fn the_items_of_a_live_stream_are_written() {
    let mut peer = ServerPeer::new();
    let actions = peer.receive(&request(vec![], 1, CutePacketType::Streaming));
    let stream = expect_open(&actions[0], 1, &[]);
    let out = peer.stream_item(1, stream, Ok(vec![5, 6]));
    assert_eq!(out, encode_message(vec![5, 6], 1, CutePacketType::Streaming));
    let big = vec![3u8; MAX_PAYLOAD_SIZE + 2];
    let out = peer.stream_item(1, stream, Ok(big.clone()));
    assert_eq!(out, encode_message(big, 1, CutePacketType::Streaming));
}

#[test]
fn a_second_streaming_request_cancels_the_first_stream_before_it_opens_the_second() {
    let mut peer = ServerPeer::new();
    let first = expect_open(&peer.receive(&request(vec![1], 1, CutePacketType::Streaming))[0], 1, &[1]);
    let actions = peer.receive(&request(vec![2], 1, CutePacketType::Streaming));
    assert_eq!(actions.len(), 2);
    expect_cancel(&actions[0], 1, first);
    let second = expect_open(&actions[1], 1, &[2]);
    assert_ne!(first, second);
    assert!(peer.has_stream(1));
    // what the first stream still produces is not written
    assert!(peer.stream_item(1, first, Ok(vec![1])).is_empty());
    assert!(!peer.stream_item(1, second, Ok(vec![2])).is_empty());
    // and its failing does not end the second
    assert!(peer.stream_item(1, first, Err(CuteError::internal("late"))).is_empty());
    assert!(peer.has_stream(1));
    assert!(!peer.stream_item(1, second, Ok(vec![3])).is_empty());
}

#[test]
fn stream_close_silences_its_key_only() {
    let mut peer = ServerPeer::new();
    let a = expect_open(&peer.receive(&request(vec![], 1, CutePacketType::Streaming))[0], 1, &[]);
    let b = expect_open(&peer.receive(&request(vec![], 2, CutePacketType::Streaming))[0], 2, &[]);
    assert!(!peer.stream_item(1, a, Ok(vec![1])).is_empty());
    let actions = peer.receive(&request(vec![0, 0, 0, 0], 1, CutePacketType::StreamClose));
    assert_eq!(actions.len(), 1);
    expect_cancel(&actions[0], 1, a);
    assert!(peer.stream_item(1, a, Ok(vec![1])).is_empty());
    assert!(!peer.has_stream(1));
    assert_eq!(
        peer.stream_item(2, b, Ok(vec![2])),
        encode_message(vec![2], 2, CutePacketType::Streaming)
    );
    assert!(peer.has_stream(2));
}

#[test]
fn stream_close_for_a_key_without_stream_asks_for_nothing() {
    let mut peer = ServerPeer::new();
    assert!(peer.receive(&request(vec![0, 0, 0, 0], 1, CutePacketType::StreamClose)).is_empty());
}

#[test]
fn stream_all_close_silences_every_key() {
    let mut peer = ServerPeer::new();
    let a = expect_open(&peer.receive(&request(vec![], 1, CutePacketType::Streaming))[0], 1, &[]);
    let b = expect_open(&peer.receive(&request(vec![], 2, CutePacketType::Streaming))[0], 2, &[]);
    let actions =
        peer.receive(&request(vec![0, 0, 0, 0], 0x0FFF_FFFF, CutePacketType::StreamAllClose));
    assert_eq!(actions.len(), 1);
    assert!(matches!(actions[0], ServerAction::CancelAllStreams));
    assert!(peer.stream_item(1, a, Ok(vec![1])).is_empty());
    assert!(peer.stream_item(2, b, Ok(vec![1])).is_empty());
}

#[test]
fn an_error_ends_its_stream_and_writes_nothing() {
    let mut peer = ServerPeer::new();
    let a = expect_open(&peer.receive(&request(vec![], 1, CutePacketType::Streaming))[0], 1, &[]);
    let b = expect_open(&peer.receive(&request(vec![], 2, CutePacketType::Streaming))[0], 2, &[]);
    assert!(peer.stream_item(1, a, Err(CuteError::internal("broken"))).is_empty());
    assert!(!peer.has_stream(1));
    assert!(peer.has_stream(2));
    assert!(peer.stream_item(1, a, Ok(vec![1])).is_empty());
    // the key is free again
    let again = expect_open(&peer.receive(&request(vec![], 1, CutePacketType::Streaming))[0], 1, &[]);
    assert_ne!(again, a);
    assert_ne!(again, b);
}

#[test]
fn a_unary_request_leaves_the_streams_alone() {
    let mut peer = ServerPeer::new();
    let a = expect_open(&peer.receive(&request(vec![], 1, CutePacketType::Streaming))[0], 1, &[]);
    let actions = peer.receive(&request(vec![1], 1, CutePacketType::Unary));
    assert!(matches!(&actions[0], ServerAction::RunUnary { protocol: 1, .. }));
    let actions = peer.receive(&request(vec![1], 99, CutePacketType::Unary));
    assert!(matches!(&actions[0], ServerAction::RunUnary { protocol: 99, .. }));
    assert!(peer.has_stream(1));
    assert!(!peer.stream_item(1, a, Ok(vec![1])).is_empty());
}

#[test]
fn the_answer_to_a_unary_request() {
    assert_eq!(
        unary_reply(3, Ok(Some(vec![1, 2]))),
        encode_message(vec![1, 2], 3, CutePacketType::Unary)
    );
    assert_eq!(unary_reply(3, Ok(None)), encode_message(vec![], 3, CutePacketType::Unary));
    assert_eq!(unary_reply(3, Ok(None)).len(), 28);
    assert!(unary_reply(3, Err(CuteError::not_found("Task \"3\" not found"))).is_empty());
    let big = vec![1u8; 2 * MAX_PAYLOAD_SIZE];
    assert_eq!(
        unary_reply(3, Ok(Some(big.clone()))),
        encode_message(big, 3, CutePacketType::Unary)
    );
}

#[test]
fn closing_a_peer_drops_everything() {
    let mut peer = ServerPeer::new();
    let a = expect_open(&peer.receive(&request(vec![], 1, CutePacketType::Streaming))[0], 1, &[]);
    let bytes = request(vec![1, 2, 3], 4, CutePacketType::Unary);
    assert!(peer.receive(&bytes[..10]).is_empty());
    assert!(matches!(peer.close(), ServerAction::CancelAllStreams));
    assert!(!peer.has_stream(1));
    assert!(peer.stream_item(1, a, Ok(vec![1])).is_empty());
    // the cut frame is forgotten: a whole one is read from its start
    let actions = peer.receive(&bytes);
    assert_eq!(actions.len(), 1);
}

#[test]
fn requests_in_one_read_are_dispatched_in_order() {
    let mut peer = ServerPeer::new();
    let mut bytes = request(vec![1], 1, CutePacketType::Streaming);
    bytes.extend(request(vec![2], 2, CutePacketType::Unary));
    bytes.extend(request(vec![3], 1, CutePacketType::Streaming));
    bytes.extend(request(vec![0, 0, 0, 0], 1, CutePacketType::StreamClose));
    let actions = peer.receive(&bytes);
    assert_eq!(actions.len(), 5);
    let first = expect_open(&actions[0], 1, &[1]);
    assert!(matches!(&actions[1], ServerAction::RunUnary { protocol: 2, .. }));
    expect_cancel(&actions[2], 1, first);
    let second = expect_open(&actions[3], 1, &[3]);
    expect_cancel(&actions[4], 1, second);
}

#[test]
fn a_peer_with_a_drain_size_skips_garbage() {
    let mut peer = ServerPeer::with_drain_size(28);
    let mut bytes = vec![0x55u8; 28];
    bytes[8..12].copy_from_slice(&[0, 0, 0, 0]);
    bytes.extend(request(vec![1], 1, CutePacketType::Unary));
    let actions = peer.receive(&bytes);
    assert_eq!(actions.len(), 1);
    let single = CutePacket::send_create_packet(vec![1], 1, CutePacketType::Unary);
    assert_eq!(request(vec![1], 1, CutePacketType::Unary), single.serialize());
}
