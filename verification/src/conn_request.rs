//! The connection-request packet sent once the handshake completes.

use vstd::prelude::*;

verus! {

use crate::codable::BytesCodingError;
use crate::reader::BinaryDecode;
use crate::reader::BinaryReader;
use crate::reader::ReadBytesExt;
use crate::wire::be_bytes;
use crate::wire::parse_be;
use crate::wire::lemma_parse_be_bound;
use crate::wire::lemma_pow256_values;
use crate::writer::BinaryEncode;
use crate::writer::BinaryWriter;
use crate::writer::WriteBytesExt;

/// A request to open the reliable channel: the client's id, its clock
/// reading and whether it wants the security handshake.
#[derive(Clone, Copy, Debug, PartialEq, Eq, Structural)]
pub struct ConnectionRequest {
    pub id: u8,
    pub client_id: u64,
    pub ping_time: u64,
    pub security: bool,
}

impl View for ConnectionRequest {
    type V = ConnectionRequest;

    open spec fn view(&self) -> ConnectionRequest {
        *self
    }
}

/// The byte string a connection request encodes to.
pub open spec fn spec_encode_connection_request(v: ConnectionRequest) -> Seq<u8> {
    seq![v.id] + be_bytes(v.client_id as nat, 8) + be_bytes(v.ping_time as nat, 8) + seq![
        (if v.security {
            1u8
        } else {
            0u8
        }),
    ]
}

/// The connection request at the front of `s`.
pub open spec fn spec_parse_connection_request(s: Seq<u8>) -> Option<(ConnectionRequest, nat)> {
    if s.len() < 18 {
        None
    } else {
        Some(
            (
                ConnectionRequest {
                    id: s[0],
                    client_id: parse_be(s.subrange(1, 9)) as u64,
                    ping_time: parse_be(s.subrange(9, 17)) as u64,
                    security: s[17] != 0,
                },
                18,
            ),
        )
    }
}

impl BinaryEncode for ConnectionRequest {
    open spec fn spec_encodable(&self) -> bool {
        true
    }

    open spec fn spec_encoding(&self) -> Seq<u8> {
        spec_encode_connection_request(*self)
    }

    fn encode(&self, writer: &mut BinaryWriter) -> (r: Result<(), BytesCodingError>) {
        writer.write_u8(self.id);
        writer.write_u64_be(self.client_id);
        writer.write_u64_be(self.ping_time);
        writer.write_u8(
            if self.security {
                1
            } else {
                0
            },
        );
        proof {
            assert(writer@ =~= old(writer)@ + spec_encode_connection_request(*self));
        }
        Ok(())
    }
}

impl BinaryDecode for ConnectionRequest {
    open spec fn spec_parse(s: Seq<u8>) -> Option<(ConnectionRequest, nat)> {
        spec_parse_connection_request(s)
    }

    open spec fn spec_parse_err(s: Seq<u8>) -> BytesCodingError {
        BytesCodingError::NotEnoughRemaining
    }

    fn decode(reader: &mut BinaryReader) -> (r: Result<Self, BytesCodingError>) {
        let ghost s = reader.spec_remaining();
        let id = match reader.read_u8() {
            Ok(v) => v,
            Err(e) => {
                return Err(e);
            },
        };
        let client_id = match reader.read_u64_be() {
            Ok(v) => v,
            Err(e) => {
                return Err(e);
            },
        };
        proof {
            assert(s.skip(1).take(8) =~= s.subrange(1, 9));
            assert(s.skip(1).skip(8) =~= s.skip(9));
            lemma_pow256_values();
            lemma_parse_be_bound(s.subrange(1, 9));
        }
        let ping_time = match reader.read_u64_be() {
            Ok(v) => v,
            Err(e) => {
                return Err(e);
            },
        };
        proof {
            assert(s.skip(9).take(8) =~= s.subrange(9, 17));
            assert(s.skip(9).skip(8) =~= s.skip(17));
            lemma_parse_be_bound(s.subrange(9, 17));
        }
        let security_byte = match reader.read_u8() {
            Ok(v) => v,
            Err(e) => {
                return Err(e);
            },
        };
        proof {
            assert(s.skip(17)[0] == s[17]);
            assert(s.skip(17).skip(1) =~= s.skip(18));
        }
        Ok(ConnectionRequest { id, client_id, ping_time, security: security_byte != 0 })
    }
}

} // verus!
