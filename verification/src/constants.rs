//! Protocol constants and the eight wire-level reliability codes.

use vstd::prelude::*;

verus! {

/// The protocol version byte this peer speaks.
pub const RAKNET_PROTOCOL_VERSION: u8 = 6;

/// First eight bytes, in big-endian order, of the fixed 16-byte sentinel
/// that identifies pre-connection protocol packets.
pub const OFFLINE_MAGIC_0: u64 = 0x00ffff00fefefefe;

/// Last eight bytes of the sentinel.
pub const OFFLINE_MAGIC_1: u64 = 0xfdfdfdfd12345678;

/// How many internal addresses a connection-accepted packet carries.
pub const NUMBER_OF_INTERNAL_IDS: usize = 20;

/// The eight wire reliability codes, in the order of their 3-bit values
/// 0 through 7.  A code combines three guarantees: whether the message is
/// retransmitted until acknowledged (reliable), whether it is ordered or
/// sequenced within a channel, and whether the sender asks for a delivery
/// receipt.
#[derive(Clone, Copy, Debug, PartialEq, Eq, Structural)]
pub enum PacketReliability {
    Unreliable,
    UnreliableSequenced,
    Reliable,
    ReliableOrdered,
    ReliableSequenced,
    UnreliableWithAckReceipt,
    ReliableWithAckReceipt,
    ReliableOrderedWithAckReceipt,
}

impl Default for PacketReliability {
    fn default() -> (r: Self)
        ensures
            r == PacketReliability::Unreliable,
    {
        PacketReliability::Unreliable
    }
}

impl PacketReliability {
    /// The 3-bit value of this code on the wire.
    pub open spec fn spec_to_u8(self) -> u8 {
        match self {
            PacketReliability::Unreliable => 0,
            PacketReliability::UnreliableSequenced => 1,
            PacketReliability::Reliable => 2,
            PacketReliability::ReliableOrdered => 3,
            PacketReliability::ReliableSequenced => 4,
            PacketReliability::UnreliableWithAckReceipt => 5,
            PacketReliability::ReliableWithAckReceipt => 6,
            PacketReliability::ReliableOrderedWithAckReceipt => 7,
        }
    }

    #[verifier::when_used_as_spec(spec_to_u8)]
    pub fn to_u8(self) -> (r: u8)
        ensures
            r == self.spec_to_u8(),
    {
        match self {
            PacketReliability::Unreliable => 0,
            PacketReliability::UnreliableSequenced => 1,
            PacketReliability::Reliable => 2,
            PacketReliability::ReliableOrdered => 3,
            PacketReliability::ReliableSequenced => 4,
            PacketReliability::UnreliableWithAckReceipt => 5,
            PacketReliability::ReliableWithAckReceipt => 6,
            PacketReliability::ReliableOrderedWithAckReceipt => 7,
        }
    }

    /// The code a 3-bit value stands for.  Callers pass values below 8;
    /// the highest code is returned for anything else.
    pub open spec fn spec_from_3bits(v: u8) -> PacketReliability {
        if v == 0 {
            PacketReliability::Unreliable
        } else if v == 1 {
            PacketReliability::UnreliableSequenced
        } else if v == 2 {
            PacketReliability::Reliable
        } else if v == 3 {
            PacketReliability::ReliableOrdered
        } else if v == 4 {
            PacketReliability::ReliableSequenced
        } else if v == 5 {
            PacketReliability::UnreliableWithAckReceipt
        } else if v == 6 {
            PacketReliability::ReliableWithAckReceipt
        } else {
            PacketReliability::ReliableOrderedWithAckReceipt
        }
    }

    /// The code a wire byte stands for; values 8 and above stand for no
    /// code.
    pub open spec fn spec_from_u8(v: u8) -> Option<PacketReliability> {
        if v < 8 {
            Some(PacketReliability::spec_from_3bits(v))
        } else {
            None
        }
    }

    #[verifier::when_used_as_spec(spec_from_u8)]
    pub fn from_u8(v: u8) -> (r: Option<PacketReliability>)
        ensures
            r == Self::spec_from_u8(v),
    {
        match v {
            0 => Some(PacketReliability::Unreliable),
            1 => Some(PacketReliability::UnreliableSequenced),
            2 => Some(PacketReliability::Reliable),
            3 => Some(PacketReliability::ReliableOrdered),
            4 => Some(PacketReliability::ReliableSequenced),
            5 => Some(PacketReliability::UnreliableWithAckReceipt),
            6 => Some(PacketReliability::ReliableWithAckReceipt),
            7 => Some(PacketReliability::ReliableOrderedWithAckReceipt),
            _ => None,
        }
    }

    /// Whether the code promises no retransmission.
    pub open spec fn spec_is_unreliable(self) -> bool {
        self == PacketReliability::Unreliable || self == PacketReliability::UnreliableSequenced
            || self == PacketReliability::UnreliableWithAckReceipt
    }

    #[verifier::when_used_as_spec(spec_is_unreliable)]
    pub fn is_unreliable(self) -> (r: bool)
        ensures
            r == self.spec_is_unreliable(),
    {
        self == PacketReliability::Unreliable || self == PacketReliability::UnreliableSequenced
            || self == PacketReliability::UnreliableWithAckReceipt
    }

    /// Whether the code carries a message index for acknowledgment.
    pub open spec fn spec_is_reliable(self) -> bool {
        self == PacketReliability::Reliable || self == PacketReliability::ReliableOrdered || self
            == PacketReliability::ReliableSequenced || self
            == PacketReliability::ReliableWithAckReceipt || self
            == PacketReliability::ReliableOrderedWithAckReceipt
    }

    #[verifier::when_used_as_spec(spec_is_reliable)]
    pub fn is_reliable(self) -> (r: bool)
        ensures
            r == self.spec_is_reliable(),
    {
        self == PacketReliability::Reliable || self == PacketReliability::ReliableOrdered || self
            == PacketReliability::ReliableSequenced || self
            == PacketReliability::ReliableWithAckReceipt || self
            == PacketReliability::ReliableOrderedWithAckReceipt
    }

    /// Whether the code tags messages so stale ones can be dropped.
    pub open spec fn spec_is_sequenced(self) -> bool {
        self == PacketReliability::UnreliableSequenced || self
            == PacketReliability::ReliableSequenced
    }

    #[verifier::when_used_as_spec(spec_is_sequenced)]
    pub fn is_sequenced(self) -> (r: bool)
        ensures
            r == self.spec_is_sequenced(),
    {
        self == PacketReliability::UnreliableSequenced || self
            == PacketReliability::ReliableSequenced
    }

    /// Whether the code delivers messages in channel order.
    pub open spec fn spec_is_ordered(self) -> bool {
        self == PacketReliability::ReliableOrdered || self
            == PacketReliability::ReliableOrderedWithAckReceipt
    }

    #[verifier::when_used_as_spec(spec_is_ordered)]
    pub fn is_ordered(self) -> (r: bool)
        ensures
            r == self.spec_is_ordered(),
    {
        self == PacketReliability::ReliableOrdered || self
            == PacketReliability::ReliableOrderedWithAckReceipt
    }

    /// Whether the sender asked for a delivery receipt.
    pub open spec fn spec_is_with_ack_receipt(self) -> bool {
        self == PacketReliability::UnreliableWithAckReceipt || self
            == PacketReliability::ReliableWithAckReceipt || self
            == PacketReliability::ReliableOrderedWithAckReceipt
    }

    #[verifier::when_used_as_spec(spec_is_with_ack_receipt)]
    pub fn is_with_ack_receipt(self) -> (r: bool)
        ensures
            r == self.spec_is_with_ack_receipt(),
    {
        self == PacketReliability::UnreliableWithAckReceipt || self
            == PacketReliability::ReliableWithAckReceipt || self
            == PacketReliability::ReliableOrderedWithAckReceipt
    }
}

/// The 3-bit wire value names its code back.
pub proof fn lemma_code_u8_round_trip(c: PacketReliability)
    ensures
        PacketReliability::spec_from_3bits(c.spec_to_u8()) == c,
        c.spec_to_u8() < 8,
{
}

/// Every wire code stands for a legal combination of guarantees: an
/// ordered code is always reliable, and a sequenced code never asks for
/// a delivery receipt.
pub proof fn lemma_code_guarantees(c: PacketReliability)
    ensures
        c.spec_is_ordered() ==> c.spec_is_reliable(),
        c.spec_is_sequenced() ==> !c.spec_is_with_ack_receipt(),
        !(c.spec_is_ordered() && c.spec_is_sequenced()),
        c.spec_is_reliable() <==> !c.spec_is_unreliable(),
{
}

/// How urgently an outgoing message should be flushed to the socket.
#[derive(Clone, Copy, Debug, PartialEq, Eq, Structural)]
pub enum PacketPriority {
    Immediate,
    High,
    Medium,
    Low,
}

} // verus!
