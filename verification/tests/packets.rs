//! The pre-connection and session packets: round trips, sentinel
//! verification, and the MTU padding rules.

use birdnet::codable::BytesCodingError;
use birdnet::conn_request::ConnectionRequest;
use birdnet::constants::PacketReliability;
use birdnet::constants::RAKNET_PROTOCOL_VERSION;
use birdnet::disconnect::ConnectionBanned;
use birdnet::disconnect::DisconnectionNotification;
use birdnet::disconnect::IncompatibleProtocolVersion;
use birdnet::open::OpenConnectionReply1;
use birdnet::open::OpenConnectionReply2;
use birdnet::open::OpenConnectionRequest1;
use birdnet::open::OpenConnectionRequest2;
use birdnet::ping::ConnectedPing;
use birdnet::ping::ConnectedPong;
use birdnet::ping::UnconnectedPing;
use birdnet::ping::UnconnectedPong;
use birdnet::protocol::PacketIdentifiers;
use birdnet::reader::BinaryDecode;
use birdnet::reader::BinaryReader;
use birdnet::types::RakString;
use birdnet::types::SystemAddress;
use birdnet::writer::encode_to_vec;

const MAGIC: [u8; 16] = [
    0x00, 0xff, 0xff, 0x00, 0xfe, 0xfe, 0xfe, 0xfe, 0xfd, 0xfd, 0xfd, 0xfd, 0x12, 0x34, 0x56,
    0x78,
];

#[test]
fn unconnected_ping_round_trip_and_magic() {
    let ping = UnconnectedPing { id: 0x01, ping_time: 123456789, client_id: 42 };
    let bytes = encode_to_vec(&ping).unwrap();
    assert_eq!(bytes.len(), 33);
    assert_eq!(&bytes[9..25], &MAGIC);
    let mut r = BinaryReader::new(bytes);
    let back = UnconnectedPing::decode(&mut r).unwrap();
    assert_eq!(back, ping);
}

#[test]
fn unconnected_ping_bad_magic_is_invalid_data() {
    let ping = UnconnectedPing { id: 0x01, ping_time: 1, client_id: 2 };
    let mut bytes = encode_to_vec(&ping).unwrap();
    bytes[10] = 0x00;
    let mut r = BinaryReader::new(bytes);
    assert_eq!(
        UnconnectedPing::decode(&mut r).unwrap_err(),
        BytesCodingError::InvalidData
    );
}

#[test]
fn unconnected_pong_round_trip() {
    let pong = UnconnectedPong {
        id: 0x1c,
        ping_time: 7,
        server_id: 0xdeadbeef,
        information: RakString(String::from("MOTD")),
    };
    let bytes = encode_to_vec(&pong).unwrap();
    assert_eq!(&bytes[17..33], &MAGIC);
    let mut r = BinaryReader::new(bytes);
    let back = UnconnectedPong::decode(&mut r).unwrap();
    assert_eq!(back.id, 0x1c);
    assert_eq!(back.ping_time, 7);
    assert_eq!(back.server_id, 0xdeadbeef);
    assert_eq!(back.information.into_inner(), "MOTD");
}

#[test]
fn connected_ping_pong_round_trip() {
    let ping = ConnectedPing { id: 0x00, ping_time: 99 };
    let mut r = BinaryReader::new(encode_to_vec(&ping).unwrap());
    assert_eq!(ConnectedPing::decode(&mut r).unwrap(), ping);

    let pong = ConnectedPong { id: 0x03, ping_time: 99, pong_time: 100 };
    let mut r = BinaryReader::new(encode_to_vec(&pong).unwrap());
    assert_eq!(ConnectedPong::decode(&mut r).unwrap(), pong);
}

#[test]
fn open_request1_padding_communicates_mtu() {
    let req = OpenConnectionRequest1 {
        id: 0x05,
        protocol: RAKNET_PROTOCOL_VERSION,
        mtu_size: 1414,
    };
    let bytes = encode_to_vec(&req).unwrap();
    // header (18 bytes) plus padding makes up the mtu minus the overhead
    assert_eq!(bytes.len(), 18 + (1414 - 28));
    let mut r = BinaryReader::new(bytes);
    let back = OpenConnectionRequest1::decode(&mut r).unwrap();
    assert_eq!(back, req);
    assert_eq!(r.remains(), 0);
}

#[test]
fn open_request1_mtu_below_overhead_is_invalid_input() {
    let req = OpenConnectionRequest1 { id: 0x05, protocol: 6, mtu_size: 27 };
    assert_eq!(encode_to_vec(&req).unwrap_err(), BytesCodingError::InvalidInput);
}

#[test]
fn open_request1_inferred_mtu_is_clamped() {
    // id + magic + protocol, then more padding than the field can say
    let mut bytes = vec![0x05];
    bytes.extend_from_slice(&MAGIC);
    bytes.push(RAKNET_PROTOCOL_VERSION);
    bytes.extend_from_slice(&vec![0u8; 66000]);
    let mut r = BinaryReader::new(bytes);
    let back = OpenConnectionRequest1::decode(&mut r).unwrap();
    assert_eq!(back.mtu_size, 65535);
}

#[test]
fn open_request2_round_trip() {
    let req = OpenConnectionRequest2 {
        id: 0x07,
        server_address: SystemAddress::V4 { ip: 0x7f000001, port: 19132 },
        mtu_size: 1200,
        client_id: 77,
    };
    let mut r = BinaryReader::new(encode_to_vec(&req).unwrap());
    assert_eq!(OpenConnectionRequest2::decode(&mut r).unwrap(), req);
}

#[test]
fn open_replies_round_trip() {
    let reply1 = OpenConnectionReply1 {
        id: 0x06,
        server_id: 11,
        security: false,
        mtu_size: 1400,
    };
    let mut r = BinaryReader::new(encode_to_vec(&reply1).unwrap());
    assert_eq!(OpenConnectionReply1::decode(&mut r).unwrap(), reply1);

    let reply2 = OpenConnectionReply2 {
        id: 0x08,
        server_id: 11,
        client_address: SystemAddress::V4 { ip: 0x0a000001, port: 5000 },
        mtu_size: 1400,
        security: true,
    };
    let mut r = BinaryReader::new(encode_to_vec(&reply2).unwrap());
    assert_eq!(OpenConnectionReply2::decode(&mut r).unwrap(), reply2);
}

#[test]
fn disconnect_packets_round_trip() {
    let banned = ConnectionBanned { id: 0x17, server_id: 5 };
    let mut r = BinaryReader::new(encode_to_vec(&banned).unwrap());
    assert_eq!(ConnectionBanned::decode(&mut r).unwrap(), banned);

    let version = IncompatibleProtocolVersion { id: 0x19, protocol: 6, server_id: 5 };
    let mut r = BinaryReader::new(encode_to_vec(&version).unwrap());
    assert_eq!(IncompatibleProtocolVersion::decode(&mut r).unwrap(), version);

    let notice = DisconnectionNotification { id: 0x15 };
    let bytes = encode_to_vec(&notice).unwrap();
    assert_eq!(bytes, vec![0x15]);
    let mut r = BinaryReader::new(bytes);
    assert_eq!(DisconnectionNotification::decode(&mut r).unwrap(), notice);
}

#[test]
fn connection_request_round_trip() {
    let req = ConnectionRequest { id: 0x09, client_id: 1, ping_time: 2, security: false };
    let bytes = encode_to_vec(&req).unwrap();
    assert_eq!(bytes.len(), 18);
    let mut r = BinaryReader::new(bytes);
    assert_eq!(ConnectionRequest::decode(&mut r).unwrap(), req);
}

#[test]
fn reliability_codes_match_their_bytes() {
    let codes = [
        (PacketReliability::Unreliable, 0u8),
        (PacketReliability::UnreliableSequenced, 1),
        (PacketReliability::Reliable, 2),
        (PacketReliability::ReliableOrdered, 3),
        (PacketReliability::ReliableSequenced, 4),
        (PacketReliability::UnreliableWithAckReceipt, 5),
        (PacketReliability::ReliableWithAckReceipt, 6),
        (PacketReliability::ReliableOrderedWithAckReceipt, 7),
    ];
    for (code, byte) in codes {
        assert_eq!(code.to_u8(), byte);
        assert_eq!(PacketReliability::from_u8(byte), Some(code));
    }
    assert_eq!(PacketReliability::from_u8(8), None);
    assert!(PacketReliability::Unreliable.is_unreliable());
    assert!(!PacketReliability::Unreliable.is_reliable());
    assert!(PacketReliability::ReliableSequenced.is_sequenced());
    assert!(PacketReliability::ReliableOrderedWithAckReceipt.is_ordered());
    assert!(PacketReliability::ReliableOrderedWithAckReceipt.is_with_ack_receipt());
}

#[test]
fn packet_identifiers_match_their_bytes() {
    assert_eq!(PacketIdentifiers::UnconnectedPing.to_u8(), 0x01);
    assert_eq!(PacketIdentifiers::UnconnectedPong.to_u8(), 0x1c);
    assert_eq!(PacketIdentifiers::from_u8(0x08), Some(PacketIdentifiers::OpenConnectionReply2));
    assert_eq!(PacketIdentifiers::from_u8(0xc0), Some(PacketIdentifiers::Ack));
    assert_eq!(PacketIdentifiers::from_u8(0x80), Some(PacketIdentifiers::DatagramValid));
    assert_eq!(PacketIdentifiers::from_u8(0xff), None);
}
