//! Message-type identifiers and the offline sentinel shared by all
//! pre-connection packets.

use vstd::prelude::*;

verus! {

use crate::codable::BytesCodingError;
use crate::constants::OFFLINE_MAGIC_0;
use crate::constants::OFFLINE_MAGIC_1;
use crate::reader::BinaryReader;
use crate::reader::ReadBytesExt;
use crate::wire::be_bytes;
use crate::wire::parse_be;
use crate::wire::lemma_parse_be_bound;
use crate::wire::lemma_pow256_values;
use crate::writer::BinaryWriter;
use crate::writer::WriteBytesExt;

/// The message-type byte at the front of every UDP payload.
#[derive(Clone, Copy, Debug, PartialEq, Eq, Structural)]
pub enum PacketIdentifiers {
    UnconnectedPing,
    UnconnectedPingOpenConnection,
    UnconnectedPong,
    ConnectedPing,
    ConnectedPong,
    OpenConnectionRequest1,
    OpenConnectionReply1,
    OpenConnectionRequest2,
    OpenConnectionReply2,
    ConnectionRequest,
    ConnectionRequestAccepted,
    NewIncomingConnection,
    DisconnectionNotification,
    ConnectionBanned,
    IncompatibleProtocolVersion,
    AlreadyConnected,
    NoFreeIncomingConnections,
    IpRecentryConnected,
    Ack,
    Nack,
    DatagramValid,
}

impl PacketIdentifiers {
    /// The byte each identifier is written as.
    pub open spec fn spec_to_u8(self) -> u8 {
        match self {
            PacketIdentifiers::UnconnectedPing => 0x01,
            PacketIdentifiers::UnconnectedPingOpenConnection => 0x02,
            PacketIdentifiers::UnconnectedPong => 0x1c,
            PacketIdentifiers::ConnectedPing => 0x00,
            PacketIdentifiers::ConnectedPong => 0x03,
            PacketIdentifiers::OpenConnectionRequest1 => 0x05,
            PacketIdentifiers::OpenConnectionReply1 => 0x06,
            PacketIdentifiers::OpenConnectionRequest2 => 0x07,
            PacketIdentifiers::OpenConnectionReply2 => 0x08,
            PacketIdentifiers::ConnectionRequest => 0x09,
            PacketIdentifiers::ConnectionRequestAccepted => 0x10,
            PacketIdentifiers::NewIncomingConnection => 0x13,
            PacketIdentifiers::DisconnectionNotification => 0x15,
            PacketIdentifiers::ConnectionBanned => 0x17,
            PacketIdentifiers::IncompatibleProtocolVersion => 0x19,
            PacketIdentifiers::AlreadyConnected => 0x12,
            PacketIdentifiers::NoFreeIncomingConnections => 0x14,
            PacketIdentifiers::IpRecentryConnected => 0x1a,
            PacketIdentifiers::Ack => 0xc0,
            PacketIdentifiers::Nack => 0xa0,
            PacketIdentifiers::DatagramValid => 0x80,
        }
    }

    #[verifier::when_used_as_spec(spec_to_u8)]
    pub fn to_u8(self) -> (r: u8)
        ensures
            r == self.spec_to_u8(),
    {
        match self {
            PacketIdentifiers::UnconnectedPing => 0x01,
            PacketIdentifiers::UnconnectedPingOpenConnection => 0x02,
            PacketIdentifiers::UnconnectedPong => 0x1c,
            PacketIdentifiers::ConnectedPing => 0x00,
            PacketIdentifiers::ConnectedPong => 0x03,
            PacketIdentifiers::OpenConnectionRequest1 => 0x05,
            PacketIdentifiers::OpenConnectionReply1 => 0x06,
            PacketIdentifiers::OpenConnectionRequest2 => 0x07,
            PacketIdentifiers::OpenConnectionReply2 => 0x08,
            PacketIdentifiers::ConnectionRequest => 0x09,
            PacketIdentifiers::ConnectionRequestAccepted => 0x10,
            PacketIdentifiers::NewIncomingConnection => 0x13,
            PacketIdentifiers::DisconnectionNotification => 0x15,
            PacketIdentifiers::ConnectionBanned => 0x17,
            PacketIdentifiers::IncompatibleProtocolVersion => 0x19,
            PacketIdentifiers::AlreadyConnected => 0x12,
            PacketIdentifiers::NoFreeIncomingConnections => 0x14,
            PacketIdentifiers::IpRecentryConnected => 0x1a,
            PacketIdentifiers::Ack => 0xc0,
            PacketIdentifiers::Nack => 0xa0,
            PacketIdentifiers::DatagramValid => 0x80,
        }
    }

    /// The identifier a byte stands for, if any.  Only the exact datagram
    /// base byte 0x80 names `DatagramValid`; the dispatcher treats the
    /// whole range 0x80 through 0x8f as datagrams itself.
    pub open spec fn spec_from_u8(v: u8) -> Option<PacketIdentifiers> {
        if v == 0x01 {
            Some(PacketIdentifiers::UnconnectedPing)
        } else if v == 0x02 {
            Some(PacketIdentifiers::UnconnectedPingOpenConnection)
        } else if v == 0x1c {
            Some(PacketIdentifiers::UnconnectedPong)
        } else if v == 0x00 {
            Some(PacketIdentifiers::ConnectedPing)
        } else if v == 0x03 {
            Some(PacketIdentifiers::ConnectedPong)
        } else if v == 0x05 {
            Some(PacketIdentifiers::OpenConnectionRequest1)
        } else if v == 0x06 {
            Some(PacketIdentifiers::OpenConnectionReply1)
        } else if v == 0x07 {
            Some(PacketIdentifiers::OpenConnectionRequest2)
        } else if v == 0x08 {
            Some(PacketIdentifiers::OpenConnectionReply2)
        } else if v == 0x09 {
            Some(PacketIdentifiers::ConnectionRequest)
        } else if v == 0x10 {
            Some(PacketIdentifiers::ConnectionRequestAccepted)
        } else if v == 0x13 {
            Some(PacketIdentifiers::NewIncomingConnection)
        } else if v == 0x15 {
            Some(PacketIdentifiers::DisconnectionNotification)
        } else if v == 0x17 {
            Some(PacketIdentifiers::ConnectionBanned)
        } else if v == 0x19 {
            Some(PacketIdentifiers::IncompatibleProtocolVersion)
        } else if v == 0x12 {
            Some(PacketIdentifiers::AlreadyConnected)
        } else if v == 0x14 {
            Some(PacketIdentifiers::NoFreeIncomingConnections)
        } else if v == 0x1a {
            Some(PacketIdentifiers::IpRecentryConnected)
        } else if v == 0xc0 {
            Some(PacketIdentifiers::Ack)
        } else if v == 0xa0 {
            Some(PacketIdentifiers::Nack)
        } else if v == 0x80 {
            Some(PacketIdentifiers::DatagramValid)
        } else {
            None
        }
    }

    #[verifier::when_used_as_spec(spec_from_u8)]
    pub fn from_u8(v: u8) -> (r: Option<PacketIdentifiers>)
        ensures
            r == Self::spec_from_u8(v),
    {
        match v {
            0x01 => Some(PacketIdentifiers::UnconnectedPing),
            0x02 => Some(PacketIdentifiers::UnconnectedPingOpenConnection),
            0x1c => Some(PacketIdentifiers::UnconnectedPong),
            0x00 => Some(PacketIdentifiers::ConnectedPing),
            0x03 => Some(PacketIdentifiers::ConnectedPong),
            0x05 => Some(PacketIdentifiers::OpenConnectionRequest1),
            0x06 => Some(PacketIdentifiers::OpenConnectionReply1),
            0x07 => Some(PacketIdentifiers::OpenConnectionRequest2),
            0x08 => Some(PacketIdentifiers::OpenConnectionReply2),
            0x09 => Some(PacketIdentifiers::ConnectionRequest),
            0x10 => Some(PacketIdentifiers::ConnectionRequestAccepted),
            0x13 => Some(PacketIdentifiers::NewIncomingConnection),
            0x15 => Some(PacketIdentifiers::DisconnectionNotification),
            0x17 => Some(PacketIdentifiers::ConnectionBanned),
            0x19 => Some(PacketIdentifiers::IncompatibleProtocolVersion),
            0x12 => Some(PacketIdentifiers::AlreadyConnected),
            0x14 => Some(PacketIdentifiers::NoFreeIncomingConnections),
            0x1a => Some(PacketIdentifiers::IpRecentryConnected),
            0xc0 => Some(PacketIdentifiers::Ack),
            0xa0 => Some(PacketIdentifiers::Nack),
            0x80 => Some(PacketIdentifiers::DatagramValid),
            _ => None,
        }
    }
}

/// The fixed 16-byte sentinel as it stands on the wire.
pub open spec fn spec_offline_magic() -> Seq<u8> {
    be_bytes(OFFLINE_MAGIC_0 as nat, 8) + be_bytes(OFFLINE_MAGIC_1 as nat, 8)
}

/// Whether the sentinel stands at offset `off` of `s`.
pub open spec fn spec_magic_at(s: Seq<u8>, off: int) -> bool {
    &&& parse_be(s.subrange(off, off + 8)) == OFFLINE_MAGIC_0 as nat
    &&& parse_be(s.subrange(off + 8, off + 16)) == OFFLINE_MAGIC_1 as nat
}

/// Append the sentinel, verbatim.
pub fn write_offline_magic(writer: &mut BinaryWriter)
    ensures
        final(writer)@ == old(writer)@ + spec_offline_magic(),
{
    writer.write_u64_be(OFFLINE_MAGIC_0);
    writer.write_u64_be(OFFLINE_MAGIC_1);
    proof {
        assert(writer@ =~= old(writer)@ + spec_offline_magic());
    }
}

/// Read 16 bytes and verify they are the sentinel.
pub fn read_offline_magic(reader: &mut BinaryReader) -> (r: Result<(), BytesCodingError>)
    ensures
        ({
            let t = old(reader).spec_remaining();
            &&& r is Ok <==> t.len() >= 16 && spec_magic_at(t, 0)
            &&& r is Ok ==> final(reader).spec_remaining() == t.skip(16)
            &&& r is Err && t.len() < 16 ==> r->Err_0 == BytesCodingError::NotEnoughRemaining
            &&& r is Err && t.len() >= 16 ==> r->Err_0 == BytesCodingError::InvalidData
        }),
        final(reader).spec_remaining().len() <= old(reader).spec_remaining().len(),
{
    let ghost t = reader.spec_remaining();
    let hi = match reader.read_u64_be() {
        Ok(v) => v,
        Err(e) => {
            return Err(e);
        },
    };
    proof {
        assert(t.skip(0) =~= t);
        assert(t.take(8) =~= t.subrange(0, 8));
        lemma_pow256_values();
        lemma_parse_be_bound(t.subrange(0, 8));
    }
    let lo = match reader.read_u64_be() {
        Ok(v) => v,
        Err(e) => {
            return Err(e);
        },
    };
    proof {
        assert(t.skip(8).take(8) =~= t.subrange(8, 16));
        assert(t.skip(8).skip(8) =~= t.skip(16));
        lemma_parse_be_bound(t.subrange(8, 16));
    }
    if hi != OFFLINE_MAGIC_0 || lo != OFFLINE_MAGIC_1 {
        return Err(BytesCodingError::InvalidData);
    }
    Ok(())
}

} // verus!
