//! The reliability/ordering model: which delivery guarantees a message may
//! ask for, and the validating classifier that maps a legal combination to
//! one of the eight wire codes.

use vstd::prelude::*;

verus! {

use crate::constants::PacketReliability;

/// Whether a message is retransmitted until acknowledged.  A reliable
/// message carries a 24-bit `message_index`, the per-sender counter that
/// identifies it for acknowledgment.
#[derive(Clone, Copy, Debug, PartialEq, Eq, Structural)]
pub enum Reliability {
    Unreliable,
    Reliable { message_index: u32 },
}

/// How a message relates to others in its ordering channel.  `channel`
/// selects one of 32 independent streams; `order_index` is the position
/// within the stream; a sequenced message additionally carries
/// `seq_number` so stale copies can be dropped by the receiver.
#[derive(Clone, Copy, Debug, PartialEq, Eq, Structural)]
pub enum Ordering {
    Unordered,
    Ordered { channel: u8, order_index: u32 },
    Sequenced { channel: u8, order_index: u32, seq_number: u32 },
}

/// Fragmentation descriptor, present when the payload is one fragment of
/// a larger logical message: `id` groups the fragments, `count` is the
/// total fragment count and `index` this fragment's position.
#[derive(Clone, Copy, Debug, PartialEq, Eq, Structural)]
pub struct Split {
    pub id: u16,
    pub count: u32,
    pub index: u32,
}

/// Why a message's guarantees or fields were rejected before encoding.
#[derive(Clone, Copy, Debug, PartialEq, Eq, Structural)]
pub enum ValidationError {
    /// The reliability and ordering guarantees cannot be combined.
    ReliabilityMismatch,
    /// A counter does not fit in 24 bits.
    U24Overflow,
    /// The ordering channel is not one of 0 through 31.
    ChannelOutOfRange,
    /// The payload is longer than the 8191 bytes the bit-length field
    /// can describe.
    PayloadOutOfRange,
}

/// The largest value a 24-bit wire counter can hold.
pub const MAX_U24: u32 = 0x00ffffff;

/// The number of independent ordering channels.
pub const ORDERING_CHANNEL_COUNT: u8 = 32;

/// The longest legal payload: its length is transmitted as a bit count in
/// a 16-bit field, capping the byte length at 65535 / 8.
pub const MAX_PAYLOAD_LEN: usize = 8191;

/// The legality matrix.  Ordering without reliability is illegal, because
/// ordered delivery needs message-index tracking; a sequenced message with
/// a delivery receipt is illegal, because sequenced delivery discards
/// stale copies and so cannot guarantee a receipt.
pub open spec fn spec_legal(
    reliability: Reliability,
    ordering: Ordering,
    with_ack_receipt: bool,
) -> bool {
    &&& !(reliability is Unreliable && ordering is Ordered)
    &&& !(ordering is Sequenced && with_ack_receipt)
}

/// The wire code of a combination of guarantees; meaningful only for
/// legal combinations.
pub open spec fn spec_classify(
    reliability: Reliability,
    ordering: Ordering,
    with_ack_receipt: bool,
) -> PacketReliability {
    if reliability is Unreliable {
        if ordering is Sequenced {
            PacketReliability::UnreliableSequenced
        } else if with_ack_receipt {
            PacketReliability::UnreliableWithAckReceipt
        } else {
            PacketReliability::Unreliable
        }
    } else {
        if ordering is Sequenced {
            PacketReliability::ReliableSequenced
        } else if ordering is Ordered {
            if with_ack_receipt {
                PacketReliability::ReliableOrderedWithAckReceipt
            } else {
                PacketReliability::ReliableOrdered
            }
        } else if with_ack_receipt {
            PacketReliability::ReliableWithAckReceipt
        } else {
            PacketReliability::Reliable
        }
    }
}

/// Map a combination of guarantees to its wire code, or reject an illegal
/// combination.  The classifier is a pure function of its three inputs:
/// it succeeds exactly on the legal combinations and no other code is
/// representable.
pub fn classify(
    reliability: Reliability,
    ordering: Ordering,
    with_ack_receipt: bool,
) -> (r: Result<PacketReliability, ValidationError>)
    ensures
        r is Ok <==> spec_legal(reliability, ordering, with_ack_receipt),
        r is Ok ==> r->Ok_0 == spec_classify(reliability, ordering, with_ack_receipt),
        r is Err ==> r->Err_0 == ValidationError::ReliabilityMismatch,
{
    let unreliable = matches!(reliability, Reliability::Unreliable);
    let ordered = matches!(ordering, Ordering::Ordered { .. });
    let sequenced = matches!(ordering, Ordering::Sequenced { .. });
    if unreliable && ordered {
        return Err(ValidationError::ReliabilityMismatch);
    }
    if sequenced && with_ack_receipt {
        return Err(ValidationError::ReliabilityMismatch);
    }
    if unreliable {
        if sequenced {
            Ok(PacketReliability::UnreliableSequenced)
        } else if with_ack_receipt {
            Ok(PacketReliability::UnreliableWithAckReceipt)
        } else {
            Ok(PacketReliability::Unreliable)
        }
    } else {
        if sequenced {
            Ok(PacketReliability::ReliableSequenced)
        } else if ordered {
            if with_ack_receipt {
                Ok(PacketReliability::ReliableOrderedWithAckReceipt)
            } else {
                Ok(PacketReliability::ReliableOrdered)
            }
        } else if with_ack_receipt {
            Ok(PacketReliability::ReliableWithAckReceipt)
        } else {
            Ok(PacketReliability::Reliable)
        }
    }
}

/// On legal combinations the wire code remembers each of the three
/// guarantees exactly: classification loses no information.
pub proof fn lemma_classify_inverse(
    reliability: Reliability,
    ordering: Ordering,
    with_ack_receipt: bool,
)
    requires
        spec_legal(reliability, ordering, with_ack_receipt),
    ensures
        spec_classify(reliability, ordering, with_ack_receipt).spec_is_reliable() == (reliability
            is Reliable),
        spec_classify(reliability, ordering, with_ack_receipt).spec_is_ordered() == (ordering
            is Ordered),
        spec_classify(reliability, ordering, with_ack_receipt).spec_is_sequenced() == (ordering
            is Sequenced),
        spec_classify(reliability, ordering, with_ack_receipt).spec_is_with_ack_receipt()
            == with_ack_receipt,
{
}

} // verus!
