//! The keep-alive packets: unconnected ping and pong, connected ping and
//! pong.

use vstd::prelude::*;

verus! {

use vstd::utf8::encode_utf8;
use crate::codable::BytesCodingError;
use crate::reader::BinaryDecode;
use crate::reader::BinaryReader;
use crate::reader::ReadBytesExt;
use crate::protocol::read_offline_magic;
use crate::protocol::spec_magic_at;
use crate::protocol::spec_offline_magic;
use crate::protocol::write_offline_magic;
use crate::types::RakString;
use crate::types::spec_encode_rakstring;
use crate::types::spec_parse_rakstring;
use crate::types::spec_parse_rakstring_err;
use crate::wire::be_bytes;
use crate::wire::parse_be;
use crate::wire::lemma_parse_be_bound;
use crate::wire::lemma_pow256_values;
use crate::writer::BinaryEncode;
use crate::writer::BinaryWriter;
use crate::writer::WriteBytesExt;

/// An unconnected ping: the sender's clock reading and its id, framed by
/// the offline sentinel.
#[derive(Clone, Copy, Debug, PartialEq, Eq, Structural)]
pub struct UnconnectedPing {
    pub id: u8,
    pub ping_time: u64,
    pub client_id: u64,
}

impl View for UnconnectedPing {
    type V = UnconnectedPing;

    open spec fn view(&self) -> UnconnectedPing {
        *self
    }
}

/// The byte string an unconnected ping encodes to.
pub open spec fn spec_encode_unconnected_ping(v: UnconnectedPing) -> Seq<u8> {
    seq![v.id] + be_bytes(v.ping_time as nat, 8) + spec_offline_magic() + be_bytes(
        v.client_id as nat,
        8,
    )
}

/// The unconnected ping at the front of `s`.
pub open spec fn spec_parse_unconnected_ping(s: Seq<u8>) -> Option<(UnconnectedPing, nat)> {
    if s.len() < 33 {
        None
    } else if !spec_magic_at(s, 9) {
        None
    } else {
        Some(
            (
                UnconnectedPing {
                    id: s[0],
                    ping_time: parse_be(s.subrange(1, 9)) as u64,
                    client_id: parse_be(s.subrange(25, 33)) as u64,
                },
                33,
            ),
        )
    }
}

impl BinaryEncode for UnconnectedPing {
    open spec fn spec_encodable(&self) -> bool {
        true
    }

    open spec fn spec_encoding(&self) -> Seq<u8> {
        spec_encode_unconnected_ping(*self)
    }

    fn encode(&self, writer: &mut BinaryWriter) -> (r: Result<(), BytesCodingError>) {
        writer.write_u8(self.id);
        writer.write_u64_be(self.ping_time);
        write_offline_magic(writer);
        writer.write_u64_be(self.client_id);
        proof {
            assert(writer@ =~= old(writer)@ + spec_encode_unconnected_ping(*self));
        }
        Ok(())
    }
}

impl BinaryDecode for UnconnectedPing {
    open spec fn spec_parse(s: Seq<u8>) -> Option<(UnconnectedPing, nat)> {
        spec_parse_unconnected_ping(s)
    }

    open spec fn spec_parse_err(s: Seq<u8>) -> BytesCodingError {
        if s.len() >= 25 && !spec_magic_at(s, 9) {
            BytesCodingError::InvalidData
        } else {
            BytesCodingError::NotEnoughRemaining
        }
    }

    fn decode(reader: &mut BinaryReader) -> (r: Result<Self, BytesCodingError>) {
        let ghost s = reader.spec_remaining();
        let id = match reader.read_u8() {
            Ok(v) => v,
            Err(e) => {
                return Err(e);
            },
        };
        let ping_time = match reader.read_u64_be() {
            Ok(v) => v,
            Err(e) => {
                return Err(e);
            },
        };
        proof {
            assert(s.skip(1).take(8) =~= s.subrange(1, 9));
            assert(s.skip(1).skip(8) =~= s.skip(9));
            lemma_pow256_values();
            lemma_parse_be_bound(s.subrange(1, 9));
        }
        if let Err(e) = read_offline_magic(reader) {
            proof {
                assert(s.len() >= 25 ==> s.skip(9).subrange(0, 8) =~= s.subrange(9, 17));
                assert(s.len() >= 25 ==> s.skip(9).subrange(8, 16) =~= s.subrange(17, 25));
            }
            return Err(e);
        }
        proof {
            assert(s.skip(9).subrange(0, 8) =~= s.subrange(9, 17));
            assert(s.skip(9).subrange(8, 16) =~= s.subrange(17, 25));
            assert(s.skip(9).skip(16) =~= s.skip(25));
        }
        let client_id = match reader.read_u64_be() {
            Ok(v) => v,
            Err(e) => {
                return Err(e);
            },
        };
        proof {
            assert(s.skip(25).take(8) =~= s.subrange(25, 33));
            assert(s.skip(25).skip(8) =~= s.skip(33));
            lemma_parse_be_bound(s.subrange(25, 33));
        }
        Ok(UnconnectedPing { id, ping_time, client_id })
    }
}

/// The abstract value of an [`UnconnectedPong`].
#[verifier::ext_equal]
pub struct UnconnectedPongView {
    pub id: u8,
    pub ping_time: u64,
    pub server_id: u64,
    pub information: Seq<char>,
}

/// An unconnected pong: the echoed clock reading, the responder's id and
/// its advertised information string.
#[derive(Debug)]
pub struct UnconnectedPong {
    pub id: u8,
    pub ping_time: u64,
    pub server_id: u64,
    pub information: RakString,
}

impl View for UnconnectedPong {
    type V = UnconnectedPongView;

    open spec fn view(&self) -> UnconnectedPongView {
        UnconnectedPongView {
            id: self.id,
            ping_time: self.ping_time,
            server_id: self.server_id,
            information: self.information@,
        }
    }
}

/// The byte string an unconnected pong encodes to.
pub open spec fn spec_encode_unconnected_pong(v: UnconnectedPongView) -> Seq<u8> {
    seq![v.id] + be_bytes(v.ping_time as nat, 8) + be_bytes(v.server_id as nat, 8)
        + spec_offline_magic() + spec_encode_rakstring(v.information)
}

/// The unconnected pong at the front of `s`.
pub open spec fn spec_parse_unconnected_pong(s: Seq<u8>) -> Option<(UnconnectedPongView, nat)> {
    if s.len() < 33 {
        None
    } else if !spec_magic_at(s, 17) {
        None
    } else {
        match spec_parse_rakstring(s.skip(33)) {
            None => None,
            Some((information, n)) => Some(
                (
                    UnconnectedPongView {
                        id: s[0],
                        ping_time: parse_be(s.subrange(1, 9)) as u64,
                        server_id: parse_be(s.subrange(9, 17)) as u64,
                        information,
                    },
                    (33 + n) as nat,
                ),
            ),
        }
    }
}

impl BinaryEncode for UnconnectedPong {
    /// The information string must fit its 16-bit length field.
    open spec fn spec_encodable(&self) -> bool {
        encode_utf8(self.information@).len() <= RakString::max_len()
    }

    open spec fn spec_encoding(&self) -> Seq<u8> {
        spec_encode_unconnected_pong(self@)
    }

    fn encode(&self, writer: &mut BinaryWriter) -> (r: Result<(), BytesCodingError>) {
        if self.information.0.as_str().as_bytes().len() > 65535 {
            return Err(BytesCodingError::InvalidInput);
        }
        writer.write_u8(self.id);
        writer.write_u64_be(self.ping_time);
        writer.write_u64_be(self.server_id);
        write_offline_magic(writer);
        match self.information.encode(writer) {
            Ok(()) => {},
            Err(_) => {
                proof {
                    assert(false);
                }
                return Err(BytesCodingError::InvalidInput);
            },
        }
        proof {
            assert(writer@ =~= old(writer)@ + spec_encode_unconnected_pong(self@));
        }
        Ok(())
    }
}

impl BinaryDecode for UnconnectedPong {
    open spec fn spec_parse(s: Seq<u8>) -> Option<(UnconnectedPongView, nat)> {
        spec_parse_unconnected_pong(s)
    }

    open spec fn spec_parse_err(s: Seq<u8>) -> BytesCodingError {
        if s.len() < 33 {
            BytesCodingError::NotEnoughRemaining
        } else if !spec_magic_at(s, 17) {
            BytesCodingError::InvalidData
        } else {
            spec_parse_rakstring_err(s.skip(33))
        }
    }

    fn decode(reader: &mut BinaryReader) -> (r: Result<Self, BytesCodingError>) {
        let ghost s = reader.spec_remaining();
        let id = match reader.read_u8() {
            Ok(v) => v,
            Err(e) => {
                return Err(e);
            },
        };
        let ping_time = match reader.read_u64_be() {
            Ok(v) => v,
            Err(e) => {
                return Err(e);
            },
        };
        proof {
            assert(s.skip(1).take(8) =~= s.subrange(1, 9));
            assert(s.skip(1).skip(8) =~= s.skip(9));
            lemma_pow256_values();
            lemma_parse_be_bound(s.subrange(1, 9));
        }
        let server_id = match reader.read_u64_be() {
            Ok(v) => v,
            Err(e) => {
                return Err(e);
            },
        };
        proof {
            assert(s.skip(9).take(8) =~= s.subrange(9, 17));
            assert(s.skip(9).skip(8) =~= s.skip(17));
            lemma_parse_be_bound(s.subrange(9, 17));
        }
        if let Err(e) = read_offline_magic(reader) {
            proof {
                assert(s.len() >= 33 ==> s.skip(17).subrange(0, 8) =~= s.subrange(17, 25));
                assert(s.len() >= 33 ==> s.skip(17).subrange(8, 16) =~= s.subrange(25, 33));
            }
            return Err(e);
        }
        proof {
            assert(s.skip(17).subrange(0, 8) =~= s.subrange(17, 25));
            assert(s.skip(17).subrange(8, 16) =~= s.subrange(25, 33));
            assert(s.skip(17).skip(16) =~= s.skip(33));
        }
        let information = match reader.read::<RakString>() {
            Ok(v) => v,
            Err(e) => {
                return Err(e);
            },
        };
        Ok(UnconnectedPong { id, ping_time, server_id, information })
    }
}

/// A connected ping: just the sender's clock reading.
#[derive(Clone, Copy, Debug, PartialEq, Eq, Structural)]
pub struct ConnectedPing {
    pub id: u8,
    pub ping_time: u64,
}

impl View for ConnectedPing {
    type V = ConnectedPing;

    open spec fn view(&self) -> ConnectedPing {
        *self
    }
}

/// The byte string a connected ping encodes to.
pub open spec fn spec_encode_connected_ping(v: ConnectedPing) -> Seq<u8> {
    seq![v.id] + be_bytes(v.ping_time as nat, 8)
}

/// The connected ping at the front of `s`.
pub open spec fn spec_parse_connected_ping(s: Seq<u8>) -> Option<(ConnectedPing, nat)> {
    if s.len() < 9 {
        None
    } else {
        Some((ConnectedPing { id: s[0], ping_time: parse_be(s.subrange(1, 9)) as u64 }, 9))
    }
}

impl BinaryEncode for ConnectedPing {
    open spec fn spec_encodable(&self) -> bool {
        true
    }

    open spec fn spec_encoding(&self) -> Seq<u8> {
        spec_encode_connected_ping(*self)
    }

    fn encode(&self, writer: &mut BinaryWriter) -> (r: Result<(), BytesCodingError>) {
        writer.write_u8(self.id);
        writer.write_u64_be(self.ping_time);
        proof {
            assert(writer@ =~= old(writer)@ + spec_encode_connected_ping(*self));
        }
        Ok(())
    }
}

impl BinaryDecode for ConnectedPing {
    open spec fn spec_parse(s: Seq<u8>) -> Option<(ConnectedPing, nat)> {
        spec_parse_connected_ping(s)
    }

    open spec fn spec_parse_err(s: Seq<u8>) -> BytesCodingError {
        BytesCodingError::NotEnoughRemaining
    }

    fn decode(reader: &mut BinaryReader) -> (r: Result<Self, BytesCodingError>) {
        let ghost s = reader.spec_remaining();
        let id = match reader.read_u8() {
            Ok(v) => v,
            Err(e) => {
                return Err(e);
            },
        };
        let ping_time = match reader.read_u64_be() {
            Ok(v) => v,
            Err(e) => {
                return Err(e);
            },
        };
        proof {
            assert(s.skip(1).take(8) =~= s.subrange(1, 9));
            assert(s.skip(1).skip(8) =~= s.skip(9));
            lemma_pow256_values();
            lemma_parse_be_bound(s.subrange(1, 9));
        }
        Ok(ConnectedPing { id, ping_time })
    }
}

/// A connected pong: the echoed clock reading and the responder's own.
#[derive(Clone, Copy, Debug, PartialEq, Eq, Structural)]
pub struct ConnectedPong {
    pub id: u8,
    pub ping_time: u64,
    pub pong_time: u64,
}

impl View for ConnectedPong {
    type V = ConnectedPong;

    open spec fn view(&self) -> ConnectedPong {
        *self
    }
}

/// The byte string a connected pong encodes to.
pub open spec fn spec_encode_connected_pong(v: ConnectedPong) -> Seq<u8> {
    seq![v.id] + be_bytes(v.ping_time as nat, 8) + be_bytes(v.pong_time as nat, 8)
}

/// The connected pong at the front of `s`.
pub open spec fn spec_parse_connected_pong(s: Seq<u8>) -> Option<(ConnectedPong, nat)> {
    if s.len() < 17 {
        None
    } else {
        Some(
            (
                ConnectedPong {
                    id: s[0],
                    ping_time: parse_be(s.subrange(1, 9)) as u64,
                    pong_time: parse_be(s.subrange(9, 17)) as u64,
                },
                17,
            ),
        )
    }
}

impl BinaryEncode for ConnectedPong {
    open spec fn spec_encodable(&self) -> bool {
        true
    }

    open spec fn spec_encoding(&self) -> Seq<u8> {
        spec_encode_connected_pong(*self)
    }

    fn encode(&self, writer: &mut BinaryWriter) -> (r: Result<(), BytesCodingError>) {
        writer.write_u8(self.id);
        writer.write_u64_be(self.ping_time);
        writer.write_u64_be(self.pong_time);
        proof {
            assert(writer@ =~= old(writer)@ + spec_encode_connected_pong(*self));
        }
        Ok(())
    }
}

impl BinaryDecode for ConnectedPong {
    open spec fn spec_parse(s: Seq<u8>) -> Option<(ConnectedPong, nat)> {
        spec_parse_connected_pong(s)
    }

    open spec fn spec_parse_err(s: Seq<u8>) -> BytesCodingError {
        BytesCodingError::NotEnoughRemaining
    }

    fn decode(reader: &mut BinaryReader) -> (r: Result<Self, BytesCodingError>) {
        let ghost s = reader.spec_remaining();
        let id = match reader.read_u8() {
            Ok(v) => v,
            Err(e) => {
                return Err(e);
            },
        };
        let ping_time = match reader.read_u64_be() {
            Ok(v) => v,
            Err(e) => {
                return Err(e);
            },
        };
        proof {
            assert(s.skip(1).take(8) =~= s.subrange(1, 9));
            assert(s.skip(1).skip(8) =~= s.skip(9));
            lemma_pow256_values();
            lemma_parse_be_bound(s.subrange(1, 9));
        }
        let pong_time = match reader.read_u64_be() {
            Ok(v) => v,
            Err(e) => {
                return Err(e);
            },
        };
        proof {
            assert(s.skip(9).take(8) =~= s.subrange(9, 17));
            assert(s.skip(9).skip(8) =~= s.skip(17));
            lemma_parse_be_bound(s.subrange(9, 17));
        }
        Ok(ConnectedPong { id, ping_time, pong_time })
    }
}

} // verus!
