//! The internal packet model: validation, classification, and the
//! round trip between values and wire bytes.

use birdnet::codable::BytesCodingError;
use birdnet::constants::PacketReliability;
use birdnet::datagram::Datagram;
use birdnet::datagram::InternalMessage;
use birdnet::reader::BinaryDecode;
use birdnet::reader::BinaryReader;
use birdnet::reliability::Ordering;
use birdnet::reliability::Reliability;
use birdnet::reliability::Split;
use birdnet::reliability::ValidationError;
use birdnet::reliability::classify;
use birdnet::writer::encode_to_vec;

fn message(
    reliability: Reliability,
    ordering: Ordering,
    with_ack_receipt: bool,
    split: Option<Split>,
    payload: &[u8],
) -> InternalMessage {
    InternalMessage::new(reliability, ordering, with_ack_receipt, split, payload.to_vec())
        .unwrap()
}

fn assert_message_round_trips(original: InternalMessage) {
    let bytes = encode_to_vec(&original).unwrap();
    let mut reader = BinaryReader::new(bytes);
    let decoded = InternalMessage::decode(&mut reader).unwrap();
    assert_eq!(reader.remains(), 0);
    assert_eq!(decoded.reliability(), original.reliability());
    assert_eq!(decoded.ordering(), original.ordering());
    assert_eq!(decoded.with_ack_receipt(), original.with_ack_receipt());
    assert_eq!(decoded.split(), original.split());
    assert_eq!(decoded.payload(), original.payload());
}

#[test]
fn round_trip_every_legal_combination() {
    let reliabilities = [
        Reliability::Unreliable,
        Reliability::Reliable { message_index: 0x00facade },
    ];
    let orderings = [
        Ordering::Unordered,
        Ordering::Ordered { channel: 5, order_index: 0x00123456 },
        Ordering::Sequenced { channel: 31, order_index: 77, seq_number: 0x00ffffff },
    ];
    let splits = [
        None,
        Some(Split { id: 0x0102, count: 0x01020304, index: 0x00000002 }),
    ];
    let payloads: [&[u8]; 3] = [b"", b"a", b"some longer payload bytes"];
    let mut legal = 0;
    for reliability in reliabilities {
        for ordering in orderings {
            for with_ack_receipt in [false, true] {
                for split in splits {
                    for payload in payloads {
                        match InternalMessage::new(
                            reliability,
                            ordering,
                            with_ack_receipt,
                            split,
                            payload.to_vec(),
                        ) {
                            Ok(msg) => {
                                legal += 1;
                                assert_message_round_trips(msg);
                            }
                            Err(e) => {
                                assert_eq!(e, ValidationError::ReliabilityMismatch);
                            }
                        }
                    }
                }
            }
        }
    }
    // 8 legal reliability/ordering/receipt combinations, each with
    // 2 split choices and 3 payloads
    assert_eq!(legal, 8 * 2 * 3);
}

#[test]
fn rejection_of_illegal_combinations() {
    let err = InternalMessage::new(
        Reliability::Unreliable,
        Ordering::Ordered { channel: 0, order_index: 0 },
        false,
        None,
        Vec::new(),
    )
    .unwrap_err();
    assert_eq!(err, ValidationError::ReliabilityMismatch);

    let err = InternalMessage::new(
        Reliability::Reliable { message_index: 0 },
        Ordering::Sequenced { channel: 0, order_index: 0, seq_number: 0 },
        true,
        None,
        Vec::new(),
    )
    .unwrap_err();
    assert_eq!(err, ValidationError::ReliabilityMismatch);

    let err = classify(
        Reliability::Unreliable,
        Ordering::Ordered { channel: 0, order_index: 0 },
        true,
    )
    .unwrap_err();
    assert_eq!(err, ValidationError::ReliabilityMismatch);
}

#[test]
fn classify_yields_the_eight_codes() {
    let reliable = Reliability::Reliable { message_index: 1 };
    let ordered = Ordering::Ordered { channel: 1, order_index: 1 };
    let sequenced = Ordering::Sequenced { channel: 1, order_index: 1, seq_number: 1 };
    assert_eq!(
        classify(Reliability::Unreliable, Ordering::Unordered, false).unwrap(),
        PacketReliability::Unreliable
    );
    assert_eq!(
        classify(Reliability::Unreliable, sequenced, false).unwrap(),
        PacketReliability::UnreliableSequenced
    );
    assert_eq!(
        classify(reliable, Ordering::Unordered, false).unwrap(),
        PacketReliability::Reliable
    );
    assert_eq!(
        classify(reliable, ordered, false).unwrap(),
        PacketReliability::ReliableOrdered
    );
    assert_eq!(
        classify(reliable, sequenced, false).unwrap(),
        PacketReliability::ReliableSequenced
    );
    assert_eq!(
        classify(Reliability::Unreliable, Ordering::Unordered, true).unwrap(),
        PacketReliability::UnreliableWithAckReceipt
    );
    assert_eq!(
        classify(reliable, Ordering::Unordered, true).unwrap(),
        PacketReliability::ReliableWithAckReceipt
    );
    assert_eq!(
        classify(reliable, ordered, true).unwrap(),
        PacketReliability::ReliableOrderedWithAckReceipt
    );
}

#[test]
fn range_enforcement() {
    let err = InternalMessage::new(
        Reliability::Reliable { message_index: 0x01000000 },
        Ordering::Unordered,
        false,
        None,
        Vec::new(),
    )
    .unwrap_err();
    assert_eq!(err, ValidationError::U24Overflow);

    let err = InternalMessage::new(
        Reliability::Reliable { message_index: 0 },
        Ordering::Ordered { channel: 32, order_index: 0 },
        false,
        None,
        Vec::new(),
    )
    .unwrap_err();
    assert_eq!(err, ValidationError::ChannelOutOfRange);

    let err = InternalMessage::new(
        Reliability::Unreliable,
        Ordering::Unordered,
        false,
        None,
        vec![0u8; 8192],
    )
    .unwrap_err();
    assert_eq!(err, ValidationError::PayloadOutOfRange);

    assert!(
        InternalMessage::new(
            Reliability::Unreliable,
            Ordering::Unordered,
            false,
            None,
            vec![0u8; 8191],
        )
        .is_ok()
    );
}

#[test]
fn unreliable_message_exact_bytes() {
    // code 0, no split, one payload byte: flags 0x00, 8 bits, then "a"
    let msg = message(Reliability::Unreliable, Ordering::Unordered, false, None, b"a");
    let bytes = encode_to_vec(&msg).unwrap();
    assert_eq!(bytes, vec![0x00, 0x00, 0x08, 0x61]);
}

#[test]
fn reliable_ordered_message_exact_bytes() {
    let msg = message(
        Reliability::Reliable { message_index: 0x010203 },
        Ordering::Ordered { channel: 9, order_index: 0x040506 },
        false,
        Some(Split { id: 0x0a0b, count: 2, index: 1 }),
        b"hi",
    );
    let bytes = encode_to_vec(&msg).unwrap();
    // flags: code 3 (reliable ordered) in bits 7..5, split flag in bit 4
    assert_eq!(bytes[0], (3 << 5) | 0x10);
    // 16 bits of payload
    assert_eq!(&bytes[1..3], &[0x00, 0x10]);
    // message index, little-endian
    assert_eq!(&bytes[3..6], &[0x03, 0x02, 0x01]);
    // order index little-endian, then the channel
    assert_eq!(&bytes[6..9], &[0x06, 0x05, 0x04]);
    assert_eq!(bytes[9], 9);
    // split count, id, index, big-endian
    assert_eq!(&bytes[10..14], &[0, 0, 0, 2]);
    assert_eq!(&bytes[14..16], &[0x0a, 0x0b]);
    assert_eq!(&bytes[16..20], &[0, 0, 0, 1]);
    assert_eq!(&bytes[20..], b"hi");
}

#[test]
fn datagram_framing() {
    let first = message(Reliability::Unreliable, Ordering::Unordered, false, None, b"a");
    let second = message(Reliability::Unreliable, Ordering::Unordered, false, None, b"bb");
    let datagram = Datagram::new(0x000001, vec![first, second]).unwrap();
    let bytes = encode_to_vec(&datagram).unwrap();
    // 3-byte little-endian sequence number first
    assert_eq!(&bytes[..3], &[0x01, 0x00, 0x00]);

    let mut reader = BinaryReader::new(bytes.clone());
    let back = Datagram::decode(&mut reader).unwrap();
    assert_eq!(reader.remains(), 0);
    assert_eq!(back.sequence_number(), 0x000001);
    assert_eq!(back.packets().len(), 2);
    assert_eq!(back.packets()[0].payload(), &b"a".to_vec());
    assert_eq!(back.packets()[1].payload(), &b"bb".to_vec());

    // one byte short: buffer underrun, not a partial packet
    let mut truncated = bytes;
    truncated.pop();
    let mut reader = BinaryReader::new(truncated);
    assert_eq!(
        Datagram::decode(&mut reader).unwrap_err(),
        BytesCodingError::NotEnoughRemaining
    );
}

#[test]
fn datagram_sequence_number_must_fit_24_bits() {
    assert_eq!(
        Datagram::new(0x01000000, Vec::new()).unwrap_err(),
        ValidationError::U24Overflow
    );
    let empty = Datagram::new(0x00ffffff, Vec::new()).unwrap();
    assert_eq!(empty.sequence_number(), 0x00ffffff);
}

#[test]
fn decode_from_raw_bytes() {
    // flag byte 0x40: code 2 (reliable) in bits 7..5, no split;
    // 8 bits of payload; message index 1 little-endian; payload "Z"
    let bytes = vec![0x40, 0x00, 0x08, 0x01, 0x00, 0x00, 0x5a];
    let mut reader = BinaryReader::new(bytes);
    let msg = InternalMessage::decode(&mut reader).unwrap();
    assert_eq!(reader.remains(), 0);
    assert_eq!(msg.reliability(), Reliability::Reliable { message_index: 1 });
    assert_eq!(msg.ordering(), Ordering::Unordered);
    assert!(!msg.with_ack_receipt());
    assert_eq!(msg.split(), None);
    assert_eq!(msg.payload(), &vec![0x5a]);
}

#[test]
fn datagram_with_mixed_packets_keeps_order() {
    let packets = vec![
        message(
            Reliability::Reliable { message_index: 3 },
            Ordering::Sequenced { channel: 2, order_index: 4, seq_number: 5 },
            false,
            None,
            b"first",
        ),
        message(Reliability::Unreliable, Ordering::Unordered, true, None, b"second"),
        message(
            Reliability::Reliable { message_index: 6 },
            Ordering::Ordered { channel: 1, order_index: 7 },
            true,
            Some(Split { id: 1, count: 2, index: 0 }),
            b"third",
        ),
    ];
    let datagram = Datagram::new(0x00fffe, packets).unwrap();
    let bytes = encode_to_vec(&datagram).unwrap();
    let mut reader = BinaryReader::new(bytes);
    let back = Datagram::decode(&mut reader).unwrap();
    assert_eq!(back.sequence_number(), 0x00fffe);
    assert_eq!(back.packets().len(), 3);
    assert_eq!(back.packets()[0].payload(), &b"first".to_vec());
    assert_eq!(
        back.packets()[0].ordering(),
        Ordering::Sequenced { channel: 2, order_index: 4, seq_number: 5 }
    );
    assert_eq!(back.packets()[1].payload(), &b"second".to_vec());
    assert!(back.packets()[1].with_ack_receipt());
    assert_eq!(back.packets()[2].split(), Some(Split { id: 1, count: 2, index: 0 }));
}
