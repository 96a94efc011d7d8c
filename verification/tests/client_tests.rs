use cute::client::{ClientEvent, ClientSession, ALL_STREAMS_KEY};
use cute::errors::CuteErrorCode;
use cute::framing::encode_message;
use cute::packet::{CutePacketType, MAX_PAYLOAD_SIZE};

#[test]
fn a_unary_call_is_a_unary_message() {
    let session = ClientSession::new();
    assert_eq!(
        session.client_unary(3, Some(vec![1, 2])).unwrap(),
        encode_message(vec![1, 2], 3, CutePacketType::Unary)
    );
}

#[test]
fn a_call_without_parameter_sends_four_zero_bytes() {
    let session = ClientSession::new();
    assert_eq!(
        session.client_unary(3, None).unwrap(),
        encode_message(vec![0, 0, 0, 0], 3, CutePacketType::Unary)
    );
}

#[test]
fn a_long_parameter_is_chunked() {
    let session = ClientSession::new();
    let parameter = vec![4u8; 3 * MAX_PAYLOAD_SIZE];
    let bytes = session.client_unary(3, Some(parameter.clone())).unwrap();
    assert_eq!(bytes.len(), 3 * 28 + parameter.len());
}

#[test]
fn a_stream_is_registered_before_its_request_is_handed_out() {
    let mut session = ClientSession::new();
    assert!(!session.has_stream(3));
    let bytes = session.client_stream(3, Some(vec![1])).unwrap();
    assert_eq!(bytes, encode_message(vec![1], 3, CutePacketType::Streaming));
    assert!(session.has_stream(3));
    assert!(!session.has_stream(4));
    let none = session.client_stream(4, None).unwrap();
    assert_eq!(none, encode_message(vec![0, 0, 0, 0], 4, CutePacketType::Streaming));
}

#[test]
fn a_key_that_has_a_stream_is_refused() {
    let mut session = ClientSession::new();
    session.client_stream(3, None).unwrap();
    let e = session.client_stream(3, None).unwrap_err();
    assert_eq!(e.code, CuteErrorCode::Internal);
    assert_eq!(e.message, "terminate and run that stream first!!!");
    assert!(session.has_stream(3));
}

#[test]
fn the_closing_requests() {
    let session = ClientSession::new();
    assert_eq!(
        session.close_stream(3),
        encode_message(vec![0, 0, 0, 0], 3, CutePacketType::StreamClose)
    );
    assert_eq!(ALL_STREAMS_KEY, 0x0FFF_FFFF);
    assert_eq!(
        session.close_stream_all(),
        encode_message(vec![0, 0, 0, 0], 0x0FFF_FFFF, CutePacketType::StreamAllClose)
    );
}

#[test]
fn asking_to_close_keeps_the_stream_until_the_server_closes_it() {
    let mut session = ClientSession::new();
    session.client_stream(3, None).unwrap();
    let _ = session.close_stream(3);
    assert!(session.has_stream(3));
    let events = session.receive(&encode_message(vec![], 3, CutePacketType::StreamClose));
    assert_eq!(events.len(), 1);
    assert!(matches!(events[0], ClientEvent::StreamClosed { protocol: 3 }));
    assert!(!session.has_stream(3));
    session.client_stream(3, None).unwrap();
}

#[test]
fn an_answer_waits_until_it_is_taken() {
    let mut session = ClientSession::new();
    assert_eq!(session.take_reply(3), None);
    let events = session.receive(&encode_message(vec![7, 7], 3, CutePacketType::Unary));
    assert_eq!(events.len(), 1);
    assert!(matches!(events[0], ClientEvent::Reply { protocol: 3 }));
    assert_eq!(session.take_reply(4), None);
    assert_eq!(session.take_reply(3), Some(vec![7, 7]));
    assert_eq!(session.take_reply(3), None);
}

#[test]
fn an_answer_that_finds_one_waiting_is_dropped() {
    let mut session = ClientSession::new();
    session.receive(&encode_message(vec![1], 3, CutePacketType::Unary));
    let events = session.receive(&encode_message(vec![2], 3, CutePacketType::Unary));
    assert!(events.is_empty());
    assert_eq!(session.take_reply(3), Some(vec![1]));
    let events = session.receive(&encode_message(vec![3], 3, CutePacketType::Unary));
    assert_eq!(events.len(), 1);
    assert_eq!(session.take_reply(3), Some(vec![3]));
}

#[test]
fn a_chunked_answer_is_put_together() {
    let mut session = ClientSession::new();
    let answer: Vec<u8> = (0..(2 * MAX_PAYLOAD_SIZE + 1)).map(|i| (i % 233) as u8).collect();
    let bytes = encode_message(answer.clone(), 3, CutePacketType::Unary);
    let mut events = Vec::new();
    for piece in bytes.chunks(4096) {
        events.extend(session.receive(piece));
    }
    assert_eq!(events.len(), 1);
    assert_eq!(session.take_reply(3), Some(answer));
}

#[test]
fn the_items_of_a_registered_stream_come_through() {
    let mut session = ClientSession::new();
    session.client_stream(3, None).unwrap();
    let mut bytes = encode_message(vec![1], 3, CutePacketType::Streaming);
    bytes.extend(encode_message(vec![2, 2], 3, CutePacketType::Streaming));
    let events = session.receive(&bytes);
    assert_eq!(events.len(), 2);
    assert!(matches!(&events[0], ClientEvent::Item { protocol: 3, payload } if payload == &vec![1u8]));
    assert!(matches!(&events[1], ClientEvent::Item { protocol: 3, payload } if payload == &vec![2u8, 2]));
}

#[test]
fn the_items_of_an_unknown_stream_are_dropped() {
    let mut session = ClientSession::new();
    let events = session.receive(&encode_message(vec![1], 3, CutePacketType::Streaming));
    assert!(events.is_empty());
}

#[test]
fn the_closing_of_an_unknown_stream_is_no_event() {
    let mut session = ClientSession::new();
    let events = session.receive(&encode_message(vec![], 3, CutePacketType::StreamClose));
    assert!(events.is_empty());
}

#[test]
fn stream_all_close_ends_every_stream() {
    let mut session = ClientSession::new();
    session.client_stream(3, None).unwrap();
    session.client_stream(4, None).unwrap();
    let events = session.receive(&encode_message(vec![], 0, CutePacketType::StreamAllClose));
    assert_eq!(events.len(), 1);
    assert!(matches!(events[0], ClientEvent::AllStreamsClosed));
    assert!(!session.has_stream(3));
    assert!(!session.has_stream(4));
    assert!(session.receive(&encode_message(vec![1], 3, CutePacketType::Streaming)).is_empty());
}

#[test]
fn an_empty_packet_brings_nothing() {
    let mut session = ClientSession::with_drain_size(4);
    assert!(session.receive(&encode_message(vec![1], 3, CutePacketType::Empty)).is_empty());
}
