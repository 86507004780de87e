use replication_engine::protocols::{
    packet_payload, DefaultMembershipProtocolDeserializer, HybridReconciliationProtocolDeserializer,
    ProtocolDeserializer, RbfRibltDeserializer,
};
use replication_engine::wire::{
    build_message_packet, parse_message_packet, DefaultRequestHandler, ProtocolIDTranslator,
    Message, MessageType, ProtocolId, RequestHandler,
};
use replication_engine::rf::messages::{RfRibltHandshakeMessage, RfRibltMessageTypeValues};

#[test]
fn protocol_ids_are_stable() {
    assert_eq!(ProtocolId::Riblt.as_u64(), 1);
    assert_eq!(ProtocolId::MerkleTree.as_u64(), 2);
    assert_eq!(ProtocolId::RbfRiblt.as_u64(), 3);
    assert_eq!(ProtocolId::RfRiblt.as_u64(), 4);
    assert_eq!(ProtocolId::Replication.as_u64(), 5);
}

#[test]
fn translator_names() {
    assert_eq!(ProtocolIDTranslator::translate(1), "riblt");
    assert_eq!(ProtocolIDTranslator::translate(2), "merkle");
    assert_eq!(ProtocolIDTranslator::translate(3), "rbf_riblt");
    assert_eq!(ProtocolIDTranslator::translate(4), "rf_riblt");
    assert_eq!(ProtocolIDTranslator::translate(6), "other");
    assert_eq!(ProtocolIDTranslator::translate(5), "replication");
    assert_eq!(ProtocolIDTranslator::translate(0), "other");
    assert_eq!(ProtocolIDTranslator::translate(u64::MAX), "other");
}

#[test]
fn packet_layout() {
    let p = build_message_packet(Some(0x0102030405060708), 0xABCD, &[9, 8, 7]);
    assert_eq!(
        p,
        vec![1, 2, 3, 4, 5, 6, 7, 8, 0xAB, 0xCD, 0, 0, 0, 0, 0, 0, 9, 8, 7]
    );
    let q = build_message_packet(None, 9000, &[]);
    assert_eq!(q, vec![0, 0, 0, 0, 0, 0, 0, 0, 0x23, 0x28, 0, 0, 0, 0, 0, 0]);
}

#[test]
fn packet_roundtrip() {
    let body: Vec<u8> = (0..50u8).collect();
    let p = build_message_packet(Some(3), 9001, &body);
    let (h, b) = parse_message_packet(&p).unwrap();
    assert_eq!(h.protocol, Some(3));
    assert_eq!(h.sender_port, 9001);
    assert_eq!(b, body);
    let none = build_message_packet(None, 1, &body);
    let (h2, b2) = parse_message_packet(&none).unwrap();
    assert_eq!(h2.protocol, None);
    assert_eq!(h2.sender_port, 1);
    assert_eq!(b2, body);
    // a zero id reads as no protocol
    let zero = build_message_packet(Some(0), 2, &[1]);
    assert_eq!(parse_message_packet(&zero).unwrap().0.protocol, None);
}

#[test]
fn short_packets_are_rejected() {
    assert!(parse_message_packet(&[0u8; 15]).is_none());
    assert!(parse_message_packet(&[]).is_none());
    assert_eq!(parse_message_packet(&[0u8; 16]).unwrap().1, Vec::<u8>::new());
    assert!(packet_payload(&[1, 2, 3]).is_none());
    let d = RbfRibltDeserializer::new();
    assert!(d.payload(&[0u8; 10]).is_none());
    let p = build_message_packet(Some(3), 7, &[4, 5]);
    assert_eq!(d.payload(&p).unwrap(), vec![4, 5]);
}

#[test]
fn request_handler_reads_protocol_id() {
    let h = DefaultRequestHandler::new();
    assert_eq!(h.handle(vec![1, 2, 3]), 0);
    assert_eq!(h.handle(vec![0, 0, 0, 0, 0, 0, 0, 2, 99, 98]), 2);
    assert_eq!(h.handle(vec![1, 0, 0, 0, 0, 0, 0, 0]), 1u64 << 56);
    let p = build_message_packet(Some(4), 10, &[1, 2]);
    assert_eq!(h.handle(p), 4);
}

#[test]
fn shell_deserializers_give_placeholders() {
    let p = build_message_packet(Some(5), 9, &[1, 2, 3]);
    let m = HybridReconciliationProtocolDeserializer::new().deserialize(p.clone());
    assert_eq!(m.protocol(), None);
    assert!(m.content().is_empty());
    let m = DefaultMembershipProtocolDeserializer::new().deserialize(p);
    assert_eq!(m.protocol(), None);
}

#[test]
fn handshake_message_api() {
    let h = RfRibltHandshakeMessage::new(Some(4), "s1".to_string(), 77, vec![1, 2, 3]);
    assert_eq!(h.session_id, "s1");
    assert_eq!(h.ribbon_seed, 77);
    assert_eq!(h.filter_bytes, vec![1, 2, 3]);
    assert_eq!(Message::protocol(&h), Some(4));
    assert!(h.content().is_empty());
    assert_eq!(h.get_type().value(), RfRibltMessageTypeValues::Handshake);
}
