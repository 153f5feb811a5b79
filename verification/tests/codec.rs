//! Byte-level reader/writer behaviour and the string and address codecs.

use birdnet::codable::BytesCodingError;
use birdnet::reader::BinaryReader;
use birdnet::reader::ReadBytesExt;
use birdnet::types::RakString;
use birdnet::types::SystemAddress;
use birdnet::writer::BinaryWriter;
use birdnet::writer::WriteBytesExt;
use birdnet::writer::encode_to_vec;
use birdnet::reader::BinaryDecode;

#[test]
fn writer_fixed_width_exact_bytes() {
    let mut w = BinaryWriter::new();
    w.write_u8(0xab);
    w.write_u16_be(0x1234);
    w.write_u16_le(0x1234);
    w.write_u24_be(0x010203);
    w.write_u24_le(0x010203);
    w.write_u32_be(0xdeadbeef);
    let bytes = w.into_vec();
    assert_eq!(
        bytes,
        vec![
            0xab, 0x12, 0x34, 0x34, 0x12, 0x01, 0x02, 0x03, 0x03, 0x02, 0x01, 0xde, 0xad, 0xbe,
            0xef
        ]
    );
}

#[test]
fn writer_wide_integers_round_trip() {
    let mut w = BinaryWriter::new();
    w.write_u64_be(0x0102030405060708);
    w.write_u64_le(0x0102030405060708);
    w.write_u128_be(0x000102030405060708090a0b0c0d0e0f);
    w.write_u128_le(0x000102030405060708090a0b0c0d0e0f);
    let mut r = BinaryReader::new(w.into_vec());
    assert_eq!(r.read_u64_be().unwrap(), 0x0102030405060708);
    assert_eq!(r.read_u64_le().unwrap(), 0x0102030405060708);
    assert_eq!(r.read_u128_be().unwrap(), 0x000102030405060708090a0b0c0d0e0f);
    assert_eq!(r.read_u128_le().unwrap(), 0x000102030405060708090a0b0c0d0e0f);
    assert_eq!(r.remains(), 0);
}

#[test]
fn reader_reports_underrun() {
    let mut r = BinaryReader::new(vec![0x01, 0x02]);
    assert_eq!(r.read_u24_be().unwrap_err(), BytesCodingError::NotEnoughRemaining);
    // the failed read consumed nothing
    assert_eq!(r.remains(), 2);
    assert_eq!(r.read_u16_be().unwrap(), 0x0102);
    assert_eq!(r.read_u8().unwrap_err(), BytesCodingError::NotEnoughRemaining);
}

#[test]
fn reader_read_bytes_takes_prefix() {
    let mut r = BinaryReader::new(vec![1, 2, 3, 4, 5]);
    let first = r.read_bytes(2).unwrap();
    assert_eq!(first, vec![1, 2]);
    assert_eq!(r.remains(), 3);
    let rest = r.read_exact(3).unwrap();
    assert_eq!(rest, vec![3, 4, 5]);
}

#[test]
fn rakstring_round_trip() {
    let value = RakString(String::from("hello world"));
    let bytes = encode_to_vec(&value).unwrap();
    assert_eq!(&bytes[..2], &[0x00, 0x0b]);
    let mut r = BinaryReader::new(bytes);
    let back = RakString::decode(&mut r).unwrap();
    assert_eq!(back.into_inner(), "hello world");
}

#[test]
fn rakstring_round_trip_multibyte() {
    let value = RakString(String::from("ラクネット"));
    let bytes = encode_to_vec(&value).unwrap();
    let mut r = BinaryReader::new(bytes);
    let back = RakString::decode(&mut r).unwrap();
    assert_eq!(back.into_inner(), "ラクネット");
}

#[test]
fn rakstring_too_long_is_invalid_input() {
    let value = RakString("x".repeat(65536));
    assert_eq!(encode_to_vec(&value).unwrap_err(), BytesCodingError::InvalidInput);
    let value = RakString("x".repeat(65535));
    assert!(encode_to_vec(&value).is_ok());
}

#[test]
fn rakstring_bad_utf8_is_invalid_data() {
    // length 2, then an invalid UTF-8 pair
    let mut r = BinaryReader::new(vec![0x00, 0x02, 0xc3, 0x28]);
    assert_eq!(
        RakString::decode(&mut r).unwrap_err(),
        BytesCodingError::InvalidData
    );
}

#[test]
fn sysaddr_v4_round_trip_and_complement() {
    let addr = SystemAddress::V4 { ip: 0xc0a80101, port: 19132 };
    let bytes = encode_to_vec(&addr).unwrap();
    assert_eq!(bytes.len(), 7);
    assert_eq!(bytes[0], 4);
    // address bytes travel ones-complemented
    assert_eq!(&bytes[1..5], &[!0xc0, !0xa8, !0x01, !0x01]);
    let mut r = BinaryReader::new(bytes);
    let back = SystemAddress::decode(&mut r).unwrap();
    assert_eq!(back, addr);
}

#[test]
fn sysaddr_v6_round_trip() {
    let addr = SystemAddress::V6 {
        port: 19133,
        flowinfo: 7,
        ip: 0x20010db8000000000000000000000001,
        scope_id: 3,
    };
    let bytes = encode_to_vec(&addr).unwrap();
    assert_eq!(bytes.len(), 29);
    assert_eq!(bytes[0], 6);
    let mut r = BinaryReader::new(bytes);
    let back = SystemAddress::decode(&mut r).unwrap();
    assert_eq!(back, addr);
}

#[test]
fn sysaddr_unknown_family_is_invalid_data() {
    let mut r = BinaryReader::new(vec![9, 0, 0, 0]);
    assert_eq!(
        SystemAddress::decode(&mut r).unwrap_err(),
        BytesCodingError::InvalidData
    );
}
