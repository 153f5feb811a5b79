//! The open-connection handshake packets.

use vstd::prelude::*;

verus! {

use crate::codable::BytesCodingError;
use crate::reader::BinaryDecode;
use crate::reader::BinaryReader;
use crate::reader::ReadBytesExt;
use crate::protocol::read_offline_magic;
use crate::protocol::spec_magic_at;
use crate::protocol::spec_offline_magic;
use crate::protocol::write_offline_magic;
use crate::types::SystemAddress;
use crate::types::spec_encode_sysaddr;
use crate::types::spec_parse_sysaddr;
use crate::types::spec_parse_sysaddr_err;
use crate::wire::be_bytes;
use crate::wire::parse_be;
use crate::wire::lemma_parse_be_bound;
use crate::wire::lemma_pow256_values;
use crate::writer::BinaryEncode;
use crate::writer::BinaryWriter;
use crate::writer::WriteBytesExt;

/// The overhead the first request's padding accounts for: the bytes of
/// its own header plus the IP and UDP headers around the payload.
pub const MTU_OVERHEAD: u16 = 28;

/// The first handshake request.  Its encoding is padded with zeros so
/// that the total datagram length communicates the sender's desired
/// maximum transfer unit; decoding infers `mtu_size` back from the
/// buffer length, clamped to 65535.
#[derive(Clone, Copy, Debug, PartialEq, Eq, Structural)]
pub struct OpenConnectionRequest1 {
    pub id: u8,
    pub protocol: u8,
    pub mtu_size: u16,
}

impl View for OpenConnectionRequest1 {
    type V = OpenConnectionRequest1;

    open spec fn view(&self) -> OpenConnectionRequest1 {
        *self
    }
}

/// The byte string the first request encodes to: header, sentinel,
/// protocol version, then padding up to the desired length.
pub open spec fn spec_encode_open_request1(v: OpenConnectionRequest1) -> Seq<u8> {
    seq![v.id] + spec_offline_magic() + seq![v.protocol] + Seq::new(
        (v.mtu_size - MTU_OVERHEAD) as nat,
        |i: int| 0u8,
    )
}

/// The MTU a buffer of `len` bytes communicates.
pub open spec fn spec_inferred_mtu(len: int) -> u16 {
    if len - 18 > 65535 - MTU_OVERHEAD {
        65535u16
    } else {
        (MTU_OVERHEAD + (len - 18)) as u16
    }
}

/// The first request a whole buffer holds.  It always consumes the whole
/// buffer: the padding carries no values, only length.
pub open spec fn spec_parse_open_request1(s: Seq<u8>) -> Option<(OpenConnectionRequest1, nat)> {
    if s.len() < 18 {
        None
    } else if !spec_magic_at(s, 1) {
        None
    } else {
        Some(
            (
                OpenConnectionRequest1 {
                    id: s[0],
                    protocol: s[17],
                    mtu_size: spec_inferred_mtu(s.len() as int),
                },
                s.len(),
            ),
        )
    }
}

impl BinaryEncode for OpenConnectionRequest1 {
    /// The desired MTU must at least cover the packet's own overhead.
    open spec fn spec_encodable(&self) -> bool {
        self.mtu_size >= MTU_OVERHEAD
    }

    open spec fn spec_encoding(&self) -> Seq<u8> {
        spec_encode_open_request1(*self)
    }

    fn encode(&self, writer: &mut BinaryWriter) -> (r: Result<(), BytesCodingError>) {
        if self.mtu_size < MTU_OVERHEAD {
            return Err(BytesCodingError::InvalidInput);
        }
        writer.write_u8(self.id);
        write_offline_magic(writer);
        writer.write_u8(self.protocol);
        let pad_len = (self.mtu_size - MTU_OVERHEAD) as usize;
        let zeros = vec![0u8; pad_len];
        writer.write_bytes(zeros.as_slice());
        proof {
            assert(writer@ =~= old(writer)@ + spec_encode_open_request1(*self));
        }
        Ok(())
    }
}

impl BinaryDecode for OpenConnectionRequest1 {
    open spec fn spec_parse(s: Seq<u8>) -> Option<(OpenConnectionRequest1, nat)> {
        spec_parse_open_request1(s)
    }

    open spec fn spec_parse_err(s: Seq<u8>) -> BytesCodingError {
        if s.len() < 17 {
            BytesCodingError::NotEnoughRemaining
        } else if !spec_magic_at(s, 1) {
            BytesCodingError::InvalidData
        } else {
            BytesCodingError::NotEnoughRemaining
        }
    }

    fn decode(reader: &mut BinaryReader) -> (r: Result<Self, BytesCodingError>) {
        let ghost s = reader.spec_remaining();
        let id = match reader.read_u8() {
            Ok(v) => v,
            Err(e) => {
                return Err(e);
            },
        };
        if let Err(e) = read_offline_magic(reader) {
            proof {
                assert(s.len() >= 17 ==> s.skip(1).subrange(0, 8) =~= s.subrange(1, 9));
                assert(s.len() >= 17 ==> s.skip(1).subrange(8, 16) =~= s.subrange(9, 17));
            }
            return Err(e);
        }
        proof {
            assert(s.skip(1).subrange(0, 8) =~= s.subrange(1, 9));
            assert(s.skip(1).subrange(8, 16) =~= s.subrange(9, 17));
            assert(s.skip(1).skip(16) =~= s.skip(17));
        }
        let protocol = match reader.read_u8() {
            Ok(v) => v,
            Err(e) => {
                return Err(e);
            },
        };
        proof {
            assert(s.skip(17)[0] == s[17]);
            assert(s.skip(17).skip(1) =~= s.skip(18));
        }
        let padding = reader.remains();
        let mtu_size: u16 = if padding > (65535 - MTU_OVERHEAD) as usize {
            65535
        } else {
            MTU_OVERHEAD + (padding as u16)
        };
        match reader.read_bytes(padding) {
            Ok(_) => {},
            Err(_) => {
                proof {
                    assert(false);
                }
                return Err(BytesCodingError::NotEnoughRemaining);
            },
        }
        proof {
            assert(s.skip(18).skip(padding as int) =~= s.skip(s.len() as int));
            assert(s.skip(s.len() as int) =~= Seq::<u8>::empty());
            assert(mtu_size == spec_inferred_mtu(s.len() as int));
        }
        Ok(OpenConnectionRequest1 { id, protocol, mtu_size })
    }
}

/// The second handshake request: the address the client is talking to,
/// the agreed MTU and the client's id.
#[derive(Clone, Copy, Debug, PartialEq, Eq, Structural)]
pub struct OpenConnectionRequest2 {
    pub id: u8,
    pub server_address: SystemAddress,
    pub mtu_size: u16,
    pub client_id: u64,
}

impl View for OpenConnectionRequest2 {
    type V = OpenConnectionRequest2;

    open spec fn view(&self) -> OpenConnectionRequest2 {
        *self
    }
}

/// The byte string the second request encodes to.
pub open spec fn spec_encode_open_request2(v: OpenConnectionRequest2) -> Seq<u8> {
    seq![v.id] + spec_offline_magic() + spec_encode_sysaddr(v.server_address) + be_bytes(
        v.mtu_size as nat,
        2,
    ) + be_bytes(v.client_id as nat, 8)
}

/// The second request at the front of `s`.
pub open spec fn spec_parse_open_request2(s: Seq<u8>) -> Option<(OpenConnectionRequest2, nat)> {
    if s.len() < 17 {
        None
    } else if !spec_magic_at(s, 1) {
        None
    } else {
        match spec_parse_sysaddr(s.skip(17)) {
            None => None,
            Some((server_address, na)) => {
                let off = 17 + na as int;
                if s.len() < off + 10 {
                    None
                } else {
                    Some(
                        (
                            OpenConnectionRequest2 {
                                id: s[0],
                                server_address,
                                mtu_size: parse_be(s.subrange(off, off + 2)) as u16,
                                client_id: parse_be(s.subrange(off + 2, off + 10)) as u64,
                            },
                            (off + 10) as nat,
                        ),
                    )
                }
            },
        }
    }
}

impl BinaryEncode for OpenConnectionRequest2 {
    open spec fn spec_encodable(&self) -> bool {
        true
    }

    open spec fn spec_encoding(&self) -> Seq<u8> {
        spec_encode_open_request2(*self)
    }

    fn encode(&self, writer: &mut BinaryWriter) -> (r: Result<(), BytesCodingError>) {
        writer.write_u8(self.id);
        write_offline_magic(writer);
        match self.server_address.encode(writer) {
            Ok(()) => {},
            Err(_) => {
                proof {
                    assert(false);
                }
                return Err(BytesCodingError::InvalidInput);
            },
        }
        writer.write_u16_be(self.mtu_size);
        writer.write_u64_be(self.client_id);
        proof {
            assert(writer@ =~= old(writer)@ + spec_encode_open_request2(*self));
        }
        Ok(())
    }
}

impl BinaryDecode for OpenConnectionRequest2 {
    open spec fn spec_parse(s: Seq<u8>) -> Option<(OpenConnectionRequest2, nat)> {
        spec_parse_open_request2(s)
    }

    open spec fn spec_parse_err(s: Seq<u8>) -> BytesCodingError {
        if s.len() < 17 {
            BytesCodingError::NotEnoughRemaining
        } else if !spec_magic_at(s, 1) {
            BytesCodingError::InvalidData
        } else if spec_parse_sysaddr(s.skip(17)) is None {
            spec_parse_sysaddr_err(s.skip(17))
        } else {
            BytesCodingError::NotEnoughRemaining
        }
    }

    fn decode(reader: &mut BinaryReader) -> (r: Result<Self, BytesCodingError>) {
        let ghost s = reader.spec_remaining();
        let id = match reader.read_u8() {
            Ok(v) => v,
            Err(e) => {
                return Err(e);
            },
        };
        if let Err(e) = read_offline_magic(reader) {
            proof {
                assert(s.len() >= 17 ==> s.skip(1).subrange(0, 8) =~= s.subrange(1, 9));
                assert(s.len() >= 17 ==> s.skip(1).subrange(8, 16) =~= s.subrange(9, 17));
            }
            return Err(e);
        }
        proof {
            assert(s.skip(1).subrange(0, 8) =~= s.subrange(1, 9));
            assert(s.skip(1).subrange(8, 16) =~= s.subrange(9, 17));
            assert(s.skip(1).skip(16) =~= s.skip(17));
        }
        let server_address = match reader.read::<SystemAddress>() {
            Ok(v) => v,
            Err(e) => {
                return Err(e);
            },
        };
        let ghost na = spec_parse_sysaddr(s.skip(17))->Some_0.1;
        let ghost off: int = 17 + na as int;
        proof {
            assert(s.skip(17).skip(na as int) =~= s.skip(off));
        }
        let mtu_size = match reader.read_u16_be() {
            Ok(v) => v,
            Err(e) => {
                return Err(e);
            },
        };
        proof {
            assert(s.skip(off).take(2) =~= s.subrange(off, off + 2));
            assert(s.skip(off).skip(2) =~= s.skip(off + 2));
            lemma_pow256_values();
            lemma_parse_be_bound(s.subrange(off, off + 2));
        }
        let client_id = match reader.read_u64_be() {
            Ok(v) => v,
            Err(e) => {
                return Err(e);
            },
        };
        proof {
            assert(s.skip(off + 2).take(8) =~= s.subrange(off + 2, off + 10));
            assert(s.skip(off + 2).skip(8) =~= s.skip(off + 10));
            lemma_parse_be_bound(s.subrange(off + 2, off + 10));
        }
        Ok(OpenConnectionRequest2 { id, server_address, mtu_size, client_id })
    }
}

/// The server's first reply: its id, whether it requires security, and
/// the MTU it accepts.
#[derive(Clone, Copy, Debug, PartialEq, Eq, Structural)]
pub struct OpenConnectionReply1 {
    pub id: u8,
    pub server_id: u64,
    pub security: bool,
    pub mtu_size: u16,
}

impl View for OpenConnectionReply1 {
    type V = OpenConnectionReply1;

    open spec fn view(&self) -> OpenConnectionReply1 {
        *self
    }
}

/// The byte string the first reply encodes to.
pub open spec fn spec_encode_open_reply1(v: OpenConnectionReply1) -> Seq<u8> {
    seq![v.id] + spec_offline_magic() + be_bytes(v.server_id as nat, 8) + seq![
        (if v.security {
            1u8
        } else {
            0u8
        }),
    ] + be_bytes(v.mtu_size as nat, 2)
}

/// The first reply at the front of `s`.
pub open spec fn spec_parse_open_reply1(s: Seq<u8>) -> Option<(OpenConnectionReply1, nat)> {
    if s.len() < 28 {
        None
    } else if !spec_magic_at(s, 1) {
        None
    } else {
        Some(
            (
                OpenConnectionReply1 {
                    id: s[0],
                    server_id: parse_be(s.subrange(17, 25)) as u64,
                    security: s[25] != 0,
                    mtu_size: parse_be(s.subrange(26, 28)) as u16,
                },
                28,
            ),
        )
    }
}

impl BinaryEncode for OpenConnectionReply1 {
    open spec fn spec_encodable(&self) -> bool {
        true
    }

    open spec fn spec_encoding(&self) -> Seq<u8> {
        spec_encode_open_reply1(*self)
    }

    fn encode(&self, writer: &mut BinaryWriter) -> (r: Result<(), BytesCodingError>) {
        writer.write_u8(self.id);
        write_offline_magic(writer);
        writer.write_u64_be(self.server_id);
        writer.write_u8(
            if self.security {
                1
            } else {
                0
            },
        );
        writer.write_u16_be(self.mtu_size);
        proof {
            assert(writer@ =~= old(writer)@ + spec_encode_open_reply1(*self));
        }
        Ok(())
    }
}

impl BinaryDecode for OpenConnectionReply1 {
    open spec fn spec_parse(s: Seq<u8>) -> Option<(OpenConnectionReply1, nat)> {
        spec_parse_open_reply1(s)
    }

    open spec fn spec_parse_err(s: Seq<u8>) -> BytesCodingError {
        if s.len() >= 17 && !spec_magic_at(s, 1) {
            BytesCodingError::InvalidData
        } else {
            BytesCodingError::NotEnoughRemaining
        }
    }

    fn decode(reader: &mut BinaryReader) -> (r: Result<Self, BytesCodingError>) {
        let ghost s = reader.spec_remaining();
        let id = match reader.read_u8() {
            Ok(v) => v,
            Err(e) => {
                return Err(e);
            },
        };
        if let Err(e) = read_offline_magic(reader) {
            proof {
                assert(s.len() >= 17 ==> s.skip(1).subrange(0, 8) =~= s.subrange(1, 9));
                assert(s.len() >= 17 ==> s.skip(1).subrange(8, 16) =~= s.subrange(9, 17));
            }
            return Err(e);
        }
        proof {
            assert(s.skip(1).subrange(0, 8) =~= s.subrange(1, 9));
            assert(s.skip(1).subrange(8, 16) =~= s.subrange(9, 17));
            assert(s.skip(1).skip(16) =~= s.skip(17));
        }
        let server_id = match reader.read_u64_be() {
            Ok(v) => v,
            Err(e) => {
                return Err(e);
            },
        };
        proof {
            assert(s.skip(17).take(8) =~= s.subrange(17, 25));
            assert(s.skip(17).skip(8) =~= s.skip(25));
            lemma_pow256_values();
            lemma_parse_be_bound(s.subrange(17, 25));
        }
        let security_byte = match reader.read_u8() {
            Ok(v) => v,
            Err(e) => {
                return Err(e);
            },
        };
        proof {
            assert(s.skip(25)[0] == s[25]);
            assert(s.skip(25).skip(1) =~= s.skip(26));
        }
        let mtu_size = match reader.read_u16_be() {
            Ok(v) => v,
            Err(e) => {
                return Err(e);
            },
        };
        proof {
            assert(s.skip(26).take(2) =~= s.subrange(26, 28));
            assert(s.skip(26).skip(2) =~= s.skip(28));
            lemma_parse_be_bound(s.subrange(26, 28));
        }
        Ok(OpenConnectionReply1 { id, server_id, security: security_byte != 0, mtu_size })
    }
}

/// The server's second reply, sealing the handshake: the client's
/// address as the server saw it, and the final MTU.
#[derive(Clone, Copy, Debug, PartialEq, Eq, Structural)]
pub struct OpenConnectionReply2 {
    pub id: u8,
    pub server_id: u64,
    pub client_address: SystemAddress,
    pub mtu_size: u16,
    pub security: bool,
}

impl View for OpenConnectionReply2 {
    type V = OpenConnectionReply2;

    open spec fn view(&self) -> OpenConnectionReply2 {
        *self
    }
}

/// The byte string the second reply encodes to.
pub open spec fn spec_encode_open_reply2(v: OpenConnectionReply2) -> Seq<u8> {
    seq![v.id] + spec_offline_magic() + be_bytes(v.server_id as nat, 8) + spec_encode_sysaddr(
        v.client_address,
    ) + be_bytes(v.mtu_size as nat, 2) + seq![
        (if v.security {
            1u8
        } else {
            0u8
        }),
    ]
}

/// The second reply at the front of `s`.
pub open spec fn spec_parse_open_reply2(s: Seq<u8>) -> Option<(OpenConnectionReply2, nat)> {
    if s.len() < 25 {
        None
    } else if !spec_magic_at(s, 1) {
        None
    } else {
        match spec_parse_sysaddr(s.skip(25)) {
            None => None,
            Some((client_address, na)) => {
                let off = 25 + na as int;
                if s.len() < off + 3 {
                    None
                } else {
                    Some(
                        (
                            OpenConnectionReply2 {
                                id: s[0],
                                server_id: parse_be(s.subrange(17, 25)) as u64,
                                client_address,
                                mtu_size: parse_be(s.subrange(off, off + 2)) as u16,
                                security: s[off + 2] != 0,
                            },
                            (off + 3) as nat,
                        ),
                    )
                }
            },
        }
    }
}

impl BinaryEncode for OpenConnectionReply2 {
    open spec fn spec_encodable(&self) -> bool {
        true
    }

    open spec fn spec_encoding(&self) -> Seq<u8> {
        spec_encode_open_reply2(*self)
    }

    fn encode(&self, writer: &mut BinaryWriter) -> (r: Result<(), BytesCodingError>) {
        writer.write_u8(self.id);
        write_offline_magic(writer);
        writer.write_u64_be(self.server_id);
        match self.client_address.encode(writer) {
            Ok(()) => {},
            Err(_) => {
                proof {
                    assert(false);
                }
                return Err(BytesCodingError::InvalidInput);
            },
        }
        writer.write_u16_be(self.mtu_size);
        writer.write_u8(
            if self.security {
                1
            } else {
                0
            },
        );
        proof {
            assert(writer@ =~= old(writer)@ + spec_encode_open_reply2(*self));
        }
        Ok(())
    }
}

impl BinaryDecode for OpenConnectionReply2 {
    open spec fn spec_parse(s: Seq<u8>) -> Option<(OpenConnectionReply2, nat)> {
        spec_parse_open_reply2(s)
    }

    open spec fn spec_parse_err(s: Seq<u8>) -> BytesCodingError {
        if s.len() < 17 {
            BytesCodingError::NotEnoughRemaining
        } else if !spec_magic_at(s, 1) {
            BytesCodingError::InvalidData
        } else if s.len() < 25 {
            BytesCodingError::NotEnoughRemaining
        } else if spec_parse_sysaddr(s.skip(25)) is None {
            spec_parse_sysaddr_err(s.skip(25))
        } else {
            BytesCodingError::NotEnoughRemaining
        }
    }

    fn decode(reader: &mut BinaryReader) -> (r: Result<Self, BytesCodingError>) {
        let ghost s = reader.spec_remaining();
        let id = match reader.read_u8() {
            Ok(v) => v,
            Err(e) => {
                return Err(e);
            },
        };
        if let Err(e) = read_offline_magic(reader) {
            proof {
                assert(s.len() >= 17 ==> s.skip(1).subrange(0, 8) =~= s.subrange(1, 9));
                assert(s.len() >= 17 ==> s.skip(1).subrange(8, 16) =~= s.subrange(9, 17));
            }
            return Err(e);
        }
        proof {
            assert(s.skip(1).subrange(0, 8) =~= s.subrange(1, 9));
            assert(s.skip(1).subrange(8, 16) =~= s.subrange(9, 17));
            assert(s.skip(1).skip(16) =~= s.skip(17));
        }
        let server_id = match reader.read_u64_be() {
            Ok(v) => v,
            Err(e) => {
                return Err(e);
            },
        };
        proof {
            assert(s.skip(17).take(8) =~= s.subrange(17, 25));
            assert(s.skip(17).skip(8) =~= s.skip(25));
            lemma_pow256_values();
            lemma_parse_be_bound(s.subrange(17, 25));
        }
        let client_address = match reader.read::<SystemAddress>() {
            Ok(v) => v,
            Err(e) => {
                return Err(e);
            },
        };
        let ghost na = spec_parse_sysaddr(s.skip(25))->Some_0.1;
        let ghost off: int = 25 + na as int;
        proof {
            assert(s.skip(25).skip(na as int) =~= s.skip(off));
        }
        let mtu_size = match reader.read_u16_be() {
            Ok(v) => v,
            Err(e) => {
                return Err(e);
            },
        };
        proof {
            assert(s.skip(off).take(2) =~= s.subrange(off, off + 2));
            assert(s.skip(off).skip(2) =~= s.skip(off + 2));
            lemma_parse_be_bound(s.subrange(off, off + 2));
        }
        let security_byte = match reader.read_u8() {
            Ok(v) => v,
            Err(e) => {
                return Err(e);
            },
        };
        proof {
            assert(s.skip(off + 2)[0] == s[off + 2]);
            assert(s.skip(off + 2).skip(1) =~= s.skip(off + 3));
        }
        Ok(
            OpenConnectionReply2 {
                id,
                server_id,
                client_address,
                mtu_size,
                security: security_byte != 0,
            },
        )
    }
}

} // verus!
