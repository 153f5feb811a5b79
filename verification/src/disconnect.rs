//! The terminal rejection and disconnection packets.

use vstd::prelude::*;

verus! {

use crate::codable::BytesCodingError;
use crate::reader::BinaryDecode;
use crate::reader::BinaryReader;
use crate::reader::ReadBytesExt;
use crate::protocol::read_offline_magic;
use crate::protocol::spec_magic_at;
use crate::protocol::spec_offline_magic;
use crate::protocol::write_offline_magic;
use crate::wire::be_bytes;
use crate::wire::parse_be;
use crate::wire::lemma_parse_be_bound;
use crate::wire::lemma_pow256_values;
use crate::writer::BinaryEncode;
use crate::writer::BinaryWriter;
use crate::writer::WriteBytesExt;

// Most rejection packets share one wire shape: the id byte, the offline
// sentinel, then the server's id.  `spec_encode_rejection` and
// `spec_parse_rejection` describe that shape once; each packet type
// instantiates them.
/// The shared encoding of an id byte, the sentinel, and a server id.
pub open spec fn spec_encode_rejection(id: u8, server_id: u64) -> Seq<u8> {
    seq![id] + spec_offline_magic() + be_bytes(server_id as nat, 8)
}

/// The shared parse of the rejection shape: the pair (id, server id).
pub open spec fn spec_parse_rejection(s: Seq<u8>) -> Option<((u8, u64), nat)> {
    if s.len() < 25 {
        None
    } else if !spec_magic_at(s, 1) {
        None
    } else {
        Some(((s[0], parse_be(s.subrange(17, 25)) as u64), 25))
    }
}

/// The shared error rule of the rejection shape.
pub open spec fn spec_parse_rejection_err(s: Seq<u8>) -> BytesCodingError {
    if s.len() >= 17 && !spec_magic_at(s, 1) {
        BytesCodingError::InvalidData
    } else {
        BytesCodingError::NotEnoughRemaining
    }
}

/// Write the rejection shape.
fn encode_rejection(id: u8, server_id: u64, writer: &mut BinaryWriter)
    ensures
        final(writer)@ == old(writer)@ + spec_encode_rejection(id, server_id),
{
    writer.write_u8(id);
    write_offline_magic(writer);
    writer.write_u64_be(server_id);
    proof {
        assert(writer@ =~= old(writer)@ + spec_encode_rejection(id, server_id));
    }
}

/// Read the rejection shape.
fn decode_rejection(reader: &mut BinaryReader) -> (r: Result<(u8, u64), BytesCodingError>)
    ensures
        ({
            let t = old(reader).spec_remaining();
            match spec_parse_rejection(t) {
                Some((v, n)) => r is Ok && r->Ok_0 == v && final(reader).spec_remaining()
                    == t.skip(n as int),
                None => r is Err && r->Err_0 == spec_parse_rejection_err(t),
            }
        }),
        final(reader).spec_remaining().len() <= old(reader).spec_remaining().len(),
{
    let ghost s = reader.spec_remaining();
    let id = match reader.read_u8() {
        Ok(v) => v,
        Err(e) => {
            return Err(e);
        },
    };
    if let Err(e) = read_offline_magic(reader) {
        proof {
            assert(s.len() >= 17 ==> s.skip(1).subrange(0, 8) =~= s.subrange(1, 9));
            assert(s.len() >= 17 ==> s.skip(1).subrange(8, 16) =~= s.subrange(9, 17));
        }
        return Err(e);
    }
    proof {
        assert(s.skip(1).subrange(0, 8) =~= s.subrange(1, 9));
        assert(s.skip(1).subrange(8, 16) =~= s.subrange(9, 17));
        assert(s.skip(1).skip(16) =~= s.skip(17));
    }
    let server_id = match reader.read_u64_be() {
        Ok(v) => v,
        Err(e) => {
            return Err(e);
        },
    };
    proof {
        assert(s.skip(17).take(8) =~= s.subrange(17, 25));
        assert(s.skip(17).skip(8) =~= s.skip(25));
        lemma_pow256_values();
        lemma_parse_be_bound(s.subrange(17, 25));
    }
    Ok((id, server_id))
}

/// Sent when the remote address is banned from connecting.
#[derive(Clone, Copy, Debug, PartialEq, Eq, Structural)]
pub struct ConnectionBanned {
    pub id: u8,
    pub server_id: u64,
}

impl View for ConnectionBanned {
    type V = ConnectionBanned;

    open spec fn view(&self) -> ConnectionBanned {
        *self
    }
}

impl BinaryEncode for ConnectionBanned {
    open spec fn spec_encodable(&self) -> bool {
        true
    }

    open spec fn spec_encoding(&self) -> Seq<u8> {
        spec_encode_rejection(self.id, self.server_id)
    }

    fn encode(&self, writer: &mut BinaryWriter) -> (r: Result<(), BytesCodingError>) {
        encode_rejection(self.id, self.server_id, writer);
        Ok(())
    }
}

impl BinaryDecode for ConnectionBanned {
    open spec fn spec_parse(s: Seq<u8>) -> Option<(ConnectionBanned, nat)> {
        match spec_parse_rejection(s) {
            Some(((id, server_id), n)) => Some((ConnectionBanned { id, server_id }, n)),
            None => None,
        }
    }

    open spec fn spec_parse_err(s: Seq<u8>) -> BytesCodingError {
        spec_parse_rejection_err(s)
    }

    fn decode(reader: &mut BinaryReader) -> (r: Result<Self, BytesCodingError>) {
        let (id, server_id) = match decode_rejection(reader) {
            Ok(v) => v,
            Err(e) => {
                return Err(e);
            },
        };
        Ok(ConnectionBanned { id, server_id })
    }
}

/// Sent when the peer already has a session with the remote address.
#[derive(Clone, Copy, Debug, PartialEq, Eq, Structural)]
pub struct AlreadyConnected {
    pub id: u8,
    pub server_id: u64,
}

impl View for AlreadyConnected {
    type V = AlreadyConnected;

    open spec fn view(&self) -> AlreadyConnected {
        *self
    }
}

impl BinaryEncode for AlreadyConnected {
    open spec fn spec_encodable(&self) -> bool {
        true
    }

    open spec fn spec_encoding(&self) -> Seq<u8> {
        spec_encode_rejection(self.id, self.server_id)
    }

    fn encode(&self, writer: &mut BinaryWriter) -> (r: Result<(), BytesCodingError>) {
        encode_rejection(self.id, self.server_id, writer);
        Ok(())
    }
}

impl BinaryDecode for AlreadyConnected {
    open spec fn spec_parse(s: Seq<u8>) -> Option<(AlreadyConnected, nat)> {
        match spec_parse_rejection(s) {
            Some(((id, server_id), n)) => Some((AlreadyConnected { id, server_id }, n)),
            None => None,
        }
    }

    open spec fn spec_parse_err(s: Seq<u8>) -> BytesCodingError {
        spec_parse_rejection_err(s)
    }

    fn decode(reader: &mut BinaryReader) -> (r: Result<Self, BytesCodingError>) {
        let (id, server_id) = match decode_rejection(reader) {
            Ok(v) => v,
            Err(e) => {
                return Err(e);
            },
        };
        Ok(AlreadyConnected { id, server_id })
    }
}

/// Sent when the peer has no free slot for another incoming connection.
#[derive(Clone, Copy, Debug, PartialEq, Eq, Structural)]
pub struct NoFreeIncomingConnections {
    pub id: u8,
    pub server_id: u64,
}

impl View for NoFreeIncomingConnections {
    type V = NoFreeIncomingConnections;

    open spec fn view(&self) -> NoFreeIncomingConnections {
        *self
    }
}

impl BinaryEncode for NoFreeIncomingConnections {
    open spec fn spec_encodable(&self) -> bool {
        true
    }

    open spec fn spec_encoding(&self) -> Seq<u8> {
        spec_encode_rejection(self.id, self.server_id)
    }

    fn encode(&self, writer: &mut BinaryWriter) -> (r: Result<(), BytesCodingError>) {
        encode_rejection(self.id, self.server_id, writer);
        Ok(())
    }
}

impl BinaryDecode for NoFreeIncomingConnections {
    open spec fn spec_parse(s: Seq<u8>) -> Option<(NoFreeIncomingConnections, nat)> {
        match spec_parse_rejection(s) {
            Some(((id, server_id), n)) => Some((NoFreeIncomingConnections { id, server_id }, n)),
            None => None,
        }
    }

    open spec fn spec_parse_err(s: Seq<u8>) -> BytesCodingError {
        spec_parse_rejection_err(s)
    }

    fn decode(reader: &mut BinaryReader) -> (r: Result<Self, BytesCodingError>) {
        let (id, server_id) = match decode_rejection(reader) {
            Ok(v) => v,
            Err(e) => {
                return Err(e);
            },
        };
        Ok(NoFreeIncomingConnections { id, server_id })
    }
}

/// Sent when the remote IP connected again too quickly.
#[derive(Clone, Copy, Debug, PartialEq, Eq, Structural)]
pub struct IpRecentryConnected {
    pub id: u8,
    pub server_id: u64,
}

impl View for IpRecentryConnected {
    type V = IpRecentryConnected;

    open spec fn view(&self) -> IpRecentryConnected {
        *self
    }
}

impl BinaryEncode for IpRecentryConnected {
    open spec fn spec_encodable(&self) -> bool {
        true
    }

    open spec fn spec_encoding(&self) -> Seq<u8> {
        spec_encode_rejection(self.id, self.server_id)
    }

    fn encode(&self, writer: &mut BinaryWriter) -> (r: Result<(), BytesCodingError>) {
        encode_rejection(self.id, self.server_id, writer);
        Ok(())
    }
}

impl BinaryDecode for IpRecentryConnected {
    open spec fn spec_parse(s: Seq<u8>) -> Option<(IpRecentryConnected, nat)> {
        match spec_parse_rejection(s) {
            Some(((id, server_id), n)) => Some((IpRecentryConnected { id, server_id }, n)),
            None => None,
        }
    }

    open spec fn spec_parse_err(s: Seq<u8>) -> BytesCodingError {
        spec_parse_rejection_err(s)
    }

    fn decode(reader: &mut BinaryReader) -> (r: Result<Self, BytesCodingError>) {
        let (id, server_id) = match decode_rejection(reader) {
            Ok(v) => v,
            Err(e) => {
                return Err(e);
            },
        };
        Ok(IpRecentryConnected { id, server_id })
    }
}

/// Sent when the peers speak different protocol versions.  Unlike the
/// other rejections it names the version the sender expects.
#[derive(Clone, Copy, Debug, PartialEq, Eq, Structural)]
pub struct IncompatibleProtocolVersion {
    pub id: u8,
    pub protocol: u8,
    pub server_id: u64,
}

impl View for IncompatibleProtocolVersion {
    type V = IncompatibleProtocolVersion;

    open spec fn view(&self) -> IncompatibleProtocolVersion {
        *self
    }
}

/// The byte string the version rejection encodes to.
pub open spec fn spec_encode_incompatible_version(v: IncompatibleProtocolVersion) -> Seq<u8> {
    seq![v.id, v.protocol] + spec_offline_magic() + be_bytes(v.server_id as nat, 8)
}

/// The version rejection at the front of `s`.
pub open spec fn spec_parse_incompatible_version(s: Seq<u8>) -> Option<(
    IncompatibleProtocolVersion,
    nat,
)> {
    if s.len() < 26 {
        None
    } else if !spec_magic_at(s, 2) {
        None
    } else {
        Some(
            (
                IncompatibleProtocolVersion {
                    id: s[0],
                    protocol: s[1],
                    server_id: parse_be(s.subrange(18, 26)) as u64,
                },
                26,
            ),
        )
    }
}

impl BinaryEncode for IncompatibleProtocolVersion {
    open spec fn spec_encodable(&self) -> bool {
        true
    }

    open spec fn spec_encoding(&self) -> Seq<u8> {
        spec_encode_incompatible_version(*self)
    }

    fn encode(&self, writer: &mut BinaryWriter) -> (r: Result<(), BytesCodingError>) {
        writer.write_u8(self.id);
        writer.write_u8(self.protocol);
        write_offline_magic(writer);
        writer.write_u64_be(self.server_id);
        proof {
            assert(writer@ =~= old(writer)@ + spec_encode_incompatible_version(*self));
        }
        Ok(())
    }
}

impl BinaryDecode for IncompatibleProtocolVersion {
    open spec fn spec_parse(s: Seq<u8>) -> Option<(IncompatibleProtocolVersion, nat)> {
        spec_parse_incompatible_version(s)
    }

    open spec fn spec_parse_err(s: Seq<u8>) -> BytesCodingError {
        if s.len() >= 18 && !spec_magic_at(s, 2) {
            BytesCodingError::InvalidData
        } else {
            BytesCodingError::NotEnoughRemaining
        }
    }

    fn decode(reader: &mut BinaryReader) -> (r: Result<Self, BytesCodingError>) {
        let ghost s = reader.spec_remaining();
        let id = match reader.read_u8() {
            Ok(v) => v,
            Err(e) => {
                return Err(e);
            },
        };
        let protocol = match reader.read_u8() {
            Ok(v) => v,
            Err(e) => {
                return Err(e);
            },
        };
        proof {
            assert(s.skip(1)[0] == s[1]);
            assert(s.skip(1).skip(1) =~= s.skip(2));
        }
        if let Err(e) = read_offline_magic(reader) {
            proof {
                assert(s.len() >= 18 ==> s.skip(2).subrange(0, 8) =~= s.subrange(2, 10));
                assert(s.len() >= 18 ==> s.skip(2).subrange(8, 16) =~= s.subrange(10, 18));
            }
            return Err(e);
        }
        proof {
            assert(s.skip(2).subrange(0, 8) =~= s.subrange(2, 10));
            assert(s.skip(2).subrange(8, 16) =~= s.subrange(10, 18));
            assert(s.skip(2).skip(16) =~= s.skip(18));
        }
        let server_id = match reader.read_u64_be() {
            Ok(v) => v,
            Err(e) => {
                return Err(e);
            },
        };
        proof {
            assert(s.skip(18).take(8) =~= s.subrange(18, 26));
            assert(s.skip(18).skip(8) =~= s.skip(26));
            lemma_pow256_values();
            lemma_parse_be_bound(s.subrange(18, 26));
        }
        Ok(IncompatibleProtocolVersion { id, protocol, server_id })
    }
}

/// The one-byte notice that the sender is closing the session.
#[derive(Clone, Copy, Debug, PartialEq, Eq, Structural)]
pub struct DisconnectionNotification {
    pub id: u8,
}

impl View for DisconnectionNotification {
    type V = DisconnectionNotification;

    open spec fn view(&self) -> DisconnectionNotification {
        *self
    }
}

impl BinaryEncode for DisconnectionNotification {
    open spec fn spec_encodable(&self) -> bool {
        true
    }

    open spec fn spec_encoding(&self) -> Seq<u8> {
        seq![self.id]
    }

    fn encode(&self, writer: &mut BinaryWriter) -> (r: Result<(), BytesCodingError>) {
        writer.write_u8(self.id);
        proof {
            assert(writer@ =~= old(writer)@ + seq![self.id]);
        }
        Ok(())
    }
}

impl BinaryDecode for DisconnectionNotification {
    open spec fn spec_parse(s: Seq<u8>) -> Option<(DisconnectionNotification, nat)> {
        if s.len() < 1 {
            None
        } else {
            Some((DisconnectionNotification { id: s[0] }, 1))
        }
    }

    open spec fn spec_parse_err(s: Seq<u8>) -> BytesCodingError {
        BytesCodingError::NotEnoughRemaining
    }

    fn decode(reader: &mut BinaryReader) -> (r: Result<Self, BytesCodingError>) {
        let id = match reader.read_u8() {
            Ok(v) => v,
            Err(e) => {
                return Err(e);
            },
        };
        Ok(DisconnectionNotification { id })
    }
}

} // verus!
