use cute::framing::{drain_frames, encode_message};
use cute::packet::{
    CutePacket, CutePacketTrait, CutePacketType, MAX_MESSAGE_SIZE, MAX_PAYLOAD_SIZE,
};

fn pattern(len: usize) -> Vec<u8> {
    (0..len).map(|i| (i * 7 % 253) as u8).collect()
}

fn encode(payload: Vec<u8>, protocol: u32, kind: CutePacketType) -> Vec<u8> {
    assert!(payload.len() <= MAX_MESSAGE_SIZE);
    encode_message(payload, protocol, kind)
}

#[test]
fn a_short_message_is_one_frame() {
    let bytes = encode(vec![1, 2, 3], 9, CutePacketType::Unary);
    assert_eq!(bytes.len(), 24 + 3 + 4);
    let single = CutePacket::send_create_packet(vec![1, 2, 3], 9, CutePacketType::Unary);
    assert_eq!(bytes, single.serialize());
}

#[test]
fn an_empty_message_is_one_frame_without_payload() {
    let bytes = encode(Vec::new(), 1, CutePacketType::Streaming);
    assert_eq!(bytes.len(), 28);
    assert_eq!(&bytes[8..12], &[0, 0, 0, 0]);
    assert_eq!(&bytes[20..24], &[0, 0, 1, 0]);
}

#[test]
fn a_long_message_is_the_frames_of_its_chunks() {
    let payload = pattern(2 * MAX_PAYLOAD_SIZE + 10);
    let bytes = encode(payload.clone(), 3, CutePacketType::Streaming);
    assert_eq!(bytes.len(), 3 * 28 + payload.len());
    let mut buffer = bytes;
    let frames = drain_frames(&mut buffer, 0);
    assert!(buffer.is_empty());
    assert_eq!(frames.len(), 3);
    let lens: Vec<usize> = frames.iter().map(|f| f.get_payload().len()).collect();
    assert_eq!(lens, vec![MAX_PAYLOAD_SIZE, MAX_PAYLOAD_SIZE, 10]);
    for (i, f) in frames.iter().enumerate() {
        assert_eq!(f.get_chuck_idx(), i);
        assert_eq!(f.get_chuck_size(), 3);
        assert_eq!(f.get_packet_protocol(), 3);
    }
    let joined: Vec<u8> = frames.iter().flat_map(|f| f.get_payload()).collect();
    assert_eq!(joined, payload);
}

#[test]
fn frames_are_taken_as_long_as_there_are_whole_ones() {
    let mut buffer = encode(vec![1], 1, CutePacketType::Unary);
    buffer.extend_from_slice(&encode(vec![2, 2], 2, CutePacketType::Streaming));
    let third = encode(vec![3, 3, 3], 3, CutePacketType::StreamClose);
    buffer.extend_from_slice(&third[..10]);
    let frames = drain_frames(&mut buffer, 0);
    assert_eq!(frames.len(), 2);
    assert_eq!(frames[0].get_payload(), vec![1]);
    assert_eq!(frames[1].get_payload(), vec![2, 2]);
    assert_eq!(buffer, third[..10].to_vec());
    buffer.extend_from_slice(&third[10..]);
    let frames = drain_frames(&mut buffer, 0);
    assert_eq!(frames.len(), 1);
    assert_eq!(frames[0].get_payload(), vec![3, 3, 3]);
    assert!(matches!(frames[0].get_packet_type(), CutePacketType::StreamClose));
    assert!(buffer.is_empty());
}

#[test]
fn with_drain_size_zero_a_bad_head_empties_the_buffer() {
    let mut buffer = vec![0xAAu8; 40];
    buffer[8..12].copy_from_slice(&[0, 0, 0, 0]);
    buffer.extend_from_slice(&encode(vec![1, 2, 3], 1, CutePacketType::Unary));
    let frames = drain_frames(&mut buffer, 0);
    assert!(frames.is_empty());
    assert!(buffer.is_empty());
}

#[test]
fn with_a_drain_size_the_reader_skips_and_looks_again() {
    // 28 bytes of garbage whose length field is zero, then a good frame
    let mut buffer = vec![0x55u8; 28];
    buffer[8..12].copy_from_slice(&[0, 0, 0, 0]);
    let good = encode(vec![7, 8, 9], 4, CutePacketType::Unary);
    buffer.extend_from_slice(&good);
    let frames = drain_frames(&mut buffer, 28);
    assert_eq!(frames.len(), 1);
    assert_eq!(frames[0].get_payload(), vec![7, 8, 9]);
    assert!(buffer.is_empty());
}

#[test]
fn a_drain_size_beyond_the_buffer_empties_it() {
    let mut buffer = vec![0x55u8; 30];
    buffer[8..12].copy_from_slice(&[0, 0, 0, 0]);
    let frames = drain_frames(&mut buffer, 1000);
    assert!(frames.is_empty());
    assert!(buffer.is_empty());
}

#[test]
fn a_short_buffer_is_left_alone() {
    let mut buffer = vec![1u8, 2, 3];
    let frames = drain_frames(&mut buffer, 0);
    assert!(frames.is_empty());
    assert_eq!(buffer, vec![1, 2, 3]);
}
