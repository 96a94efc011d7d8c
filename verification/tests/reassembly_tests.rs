use cute::inbox::Inbox;
use cute::packet::{CutePacket, CutePacketTrait, CutePacketType, MAX_PAYLOAD_SIZE};
use cute::reassembly::Reassembly;

#[test]
fn a_lone_chunk_is_its_payload() {
    let mut table = Reassembly::new();
    assert_eq!(table.accept(5, 0, 1, vec![1, 2, 3]), Some(vec![1, 2, 3]));
    assert_eq!(table.accept(5, 0, 1, vec![]), Some(vec![]));
}

#[test]
fn chunks_in_order_give_the_payload_at_the_last() {
    let mut table = Reassembly::new();
    assert_eq!(table.accept(1, 0, 3, vec![1, 1]), None);
    assert_eq!(table.accept(1, 1, 3, vec![2, 2]), None);
    assert_eq!(table.accept(1, 2, 3, vec![3]), Some(vec![1, 1, 2, 2, 3]));
}

#[test]
fn chunks_out_of_order_are_joined_by_index() {
    let mut table = Reassembly::new();
    assert_eq!(table.accept(1, 2, 3, vec![3]), None);
    assert_eq!(table.accept(1, 0, 3, vec![1, 1]), None);
    assert_eq!(table.accept(1, 1, 3, vec![2, 2]), Some(vec![1, 1, 2, 2, 3]));
    // the key has left the table: the next payload starts afresh
    assert_eq!(table.accept(1, 1, 2, vec![9]), None);
    assert_eq!(table.accept(1, 0, 2, vec![8]), Some(vec![8, 9]));
}

#[test]
fn keys_do_not_mix() {
    let mut table = Reassembly::new();
    assert_eq!(table.accept(1, 0, 2, vec![1]), None);
    assert_eq!(table.accept(2, 0, 2, vec![10]), None);
    assert_eq!(table.accept(2, 1, 2, vec![20]), Some(vec![10, 20]));
    assert_eq!(table.accept(1, 1, 2, vec![2]), Some(vec![1, 2]));
}

#[test]
fn a_chunk_whose_index_is_not_below_its_count_is_dropped() {
    let mut table = Reassembly::new();
    assert_eq!(table.accept(1, 0, 0, vec![1]), None);
    assert_eq!(table.accept(1, 3, 3, vec![1]), None);
    assert_eq!(table.accept(1, 1, 1, vec![1]), None);
    // nothing was kept
    assert_eq!(table.accept(1, 0, 2, vec![5]), None);
    assert_eq!(table.accept(1, 1, 2, vec![6]), Some(vec![5, 6]));
}

#[test]
fn a_count_that_no_header_can_state_is_dropped() {
    let mut table = Reassembly::new();
    assert_eq!(table.accept(1, 0, 65_536, vec![1]), None);
    assert_eq!(table.accept(1, 0, usize::MAX, vec![1]), None);
    assert_eq!(table.accept(1, 0, 2, vec![5]), None);
    assert_eq!(table.accept(1, 1, 2, vec![6]), Some(vec![5, 6]));
}

#[test]
fn another_count_starts_afresh() {
    let mut table = Reassembly::new();
    assert_eq!(table.accept(1, 0, 3, vec![1]), None);
    assert_eq!(table.accept(1, 0, 2, vec![7]), None);
    assert_eq!(table.accept(1, 1, 2, vec![8]), Some(vec![7, 8]));
}

#[test]
fn a_chunk_that_comes_twice_replaces_the_first() {
    let mut table = Reassembly::new();
    assert_eq!(table.accept(1, 0, 2, vec![1]), None);
    assert_eq!(table.accept(1, 0, 2, vec![2]), None);
    assert_eq!(table.accept(1, 1, 2, vec![3]), Some(vec![2, 3]));
}

#[test]
fn clear_drops_what_is_unfinished() {
    let mut table = Reassembly::new();
    assert_eq!(table.accept(1, 0, 2, vec![1]), None);
    table.clear();
    assert_eq!(table.accept(1, 1, 2, vec![2]), None);
    assert_eq!(table.accept(1, 0, 2, vec![3]), Some(vec![3, 2]));
}

#[test]
fn the_chunks_of_a_split_payload_come_together_in_any_order() {
    let data: Vec<u8> = (0..(3 * MAX_PAYLOAD_SIZE + 17)).map(|i| (i % 241) as u8).collect();
    let orders: [[usize; 4]; 4] = [[0, 1, 2, 3], [3, 2, 1, 0], [2, 0, 3, 1], [1, 3, 0, 2]];
    for order in orders {
        let packets = CutePacket::chuck_create_packet(data.clone(), 77, CutePacketType::Unary);
        assert_eq!(packets.len(), 4);
        let mut table = Reassembly::new();
        for (arrived, &i) in order.iter().enumerate() {
            let p = &packets[i];
            let done = table.accept(
                p.get_packet_protocol(),
                p.get_chuck_idx(),
                p.get_chuck_size(),
                p.get_payload(),
            );
            if arrived < 3 {
                assert_eq!(done, None);
            } else {
                assert_eq!(done, Some(data.clone()));
            }
        }
    }
}

#[test]
fn an_inbox_hands_out_whole_messages() {
    let mut inbox = Inbox::new(0);
    let data: Vec<u8> = (0..(MAX_PAYLOAD_SIZE + 5)).map(|i| (i % 239) as u8).collect();
    let mut bytes = cute::framing::encode_message(data.clone(), 8, CutePacketType::Streaming);
    bytes.extend_from_slice(&cute::framing::encode_message(vec![1], 9, CutePacketType::Unary));
    let (head, tail) = bytes.split_at(60_000);
    let first = inbox.receive(head);
    assert!(first.is_empty());
    let second = inbox.receive(tail);
    assert_eq!(second.len(), 2);
    assert_eq!(second[0].kind, CutePacketType::Streaming);
    assert_eq!(second[0].protocol, 8);
    assert_eq!(second[0].payload, data);
    assert_eq!(second[1].kind, CutePacketType::Unary);
    assert_eq!(second[1].protocol, 9);
    assert_eq!(second[1].payload, vec![1]);
}

#[test]
fn however_the_bytes_are_cut_the_messages_are_the_same() {
    let data: Vec<u8> = (0..(2 * MAX_PAYLOAD_SIZE + 100)).map(|i| (i % 227) as u8).collect();
    let mut bytes = cute::framing::encode_message(data.clone(), 8, CutePacketType::Streaming);
    bytes.extend_from_slice(&cute::framing::encode_message(vec![7, 7], 9, CutePacketType::Unary));
    bytes.extend_from_slice(&cute::framing::encode_message(vec![], 8, CutePacketType::StreamClose));
    for piece in [1usize, 2, 23, 24, 27, 28, 29, 1000, 65_535, 65_536, 65_537, 1_000_000] {
        let mut inbox = Inbox::new(0);
        let mut messages = Vec::new();
        for cut in bytes.chunks(piece) {
            messages.extend(inbox.receive(cut));
        }
        assert_eq!(messages.len(), 3);
        assert_eq!(messages[0].kind, CutePacketType::Streaming);
        assert_eq!(messages[0].protocol, 8);
        assert_eq!(messages[0].payload, data);
        assert_eq!(messages[1].kind, CutePacketType::Unary);
        assert_eq!(messages[1].protocol, 9);
        assert_eq!(messages[1].payload, vec![7, 7]);
        assert_eq!(messages[2].kind, CutePacketType::StreamClose);
        assert_eq!(messages[2].payload, Vec::<u8>::new());
    }
}

#[test]
fn a_cleared_inbox_has_forgotten_its_bytes() {
    let mut inbox = Inbox::new(0);
    let bytes = cute::framing::encode_message(vec![1, 2, 3], 8, CutePacketType::Unary);
    assert!(inbox.receive(&bytes[..20]).is_empty());
    inbox.clear();
    let fresh = inbox.receive(&bytes);
    assert_eq!(fresh.len(), 1);
    assert_eq!(fresh[0].payload, vec![1, 2, 3]);
}

#[test]
fn a_cleared_inbox_has_forgotten_its_chunks() {
    let mut inbox = Inbox::new(0);
    let packets = CutePacket::chuck_create_packet(
        vec![5u8; MAX_PAYLOAD_SIZE + 1],
        8,
        CutePacketType::Unary,
    );
    assert!(inbox.receive(&packets[0].serialize()).is_empty());
    inbox.clear();
    assert!(inbox.receive(&packets[1].serialize()).is_empty());
}
