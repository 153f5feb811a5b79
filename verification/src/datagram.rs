//! Internal packets and datagrams: the message-level wire codec.
//!
//! An internal message is one logical message with its own reliability,
//! ordering and fragmentation metadata; a datagram is the
//! sequence-numbered container that carries one or more of them inside a
//! single UDP payload.
//!
//! Wire layout of one internal message, in order:
//! 1. one flag byte, bits 7..5 the wire reliability code, bit 4 the
//!    has-split flag, bits 3..0 zero;
//! 2. two bytes big-endian payload length in bits;
//! 3. if reliable, the 3-byte little-endian `message_index`;
//! 4. if ordered, the 3-byte little-endian `order_index` then the channel
//!    byte; if sequenced, the 3-byte little-endian `seq_number`, the
//!    3-byte little-endian `order_index`, then the channel byte;
//! 5. if split, the 4-byte big-endian `count`, 2-byte big-endian `id`,
//!    4-byte big-endian `index`;
//! 6. the raw payload bytes.
//!
//! A datagram is the 3-byte little-endian sequence number followed by each
//! packet's encoding in list order, and decoding must consume the whole
//! buffer.

use vstd::prelude::*;

verus! {

use crate::codable::BytesCodingError;
use crate::constants::PacketReliability;
use crate::constants::lemma_code_guarantees;
use crate::reader::BinaryDecode;
use crate::reader::BinaryReader;
use crate::reader::ReadBytesExt;
use crate::reliability::MAX_PAYLOAD_LEN;
use crate::reliability::MAX_U24;
use crate::reliability::ORDERING_CHANNEL_COUNT;
use crate::reliability::Ordering;
use crate::reliability::Reliability;
use crate::reliability::Split;
use crate::reliability::ValidationError;
use crate::reliability::classify;
use crate::reliability::spec_classify;
use crate::reliability::spec_legal;
use crate::wire::be_bytes;
use crate::wire::le_bytes;
use crate::wire::parse_be;
use crate::wire::parse_le;
use crate::wire::lemma_be_bytes_len;
use crate::wire::lemma_le_bytes_len;
use crate::wire::lemma_parse_be_bound;
use crate::wire::lemma_parse_be_bytes;
use crate::wire::lemma_parse_le_bytes;
use crate::wire::lemma_parse_le_bound;
use crate::wire::lemma_pow256_values;
use crate::writer::BinaryEncode;
use crate::writer::BinaryWriter;
use crate::writer::WriteBytesExt;

/// The abstract value of an [`InternalMessage`]: the same fields with the
/// payload as a byte sequence.
#[verifier::ext_equal]
pub struct InternalMessageView {
    pub reliability: Reliability,
    pub ordering: Ordering,
    pub with_ack_receipt: bool,
    pub split: Option<Split>,
    pub payload: Seq<u8>,
}

/// Whether the 24-bit counters hold 24-bit values.
pub open spec fn spec_u24_fields_ok(v: InternalMessageView) -> bool {
    &&& match v.reliability {
        Reliability::Reliable { message_index } => message_index <= MAX_U24,
        Reliability::Unreliable => true,
    }
    &&& match v.ordering {
        Ordering::Unordered => true,
        Ordering::Ordered { order_index, .. } => order_index <= MAX_U24,
        Ordering::Sequenced { order_index, seq_number, .. } => order_index <= MAX_U24
            && seq_number <= MAX_U24,
    }
}

/// Whether the ordering channel, if any, is one of the 32 streams.
pub open spec fn spec_channel_ok(v: InternalMessageView) -> bool {
    match v.ordering {
        Ordering::Unordered => true,
        Ordering::Ordered { channel, .. } => channel < ORDERING_CHANNEL_COUNT,
        Ordering::Sequenced { channel, .. } => channel < ORDERING_CHANNEL_COUNT,
    }
}

/// What the wire format itself can carry: a legal combination of
/// guarantees, 24-bit counters, and a payload the bit-length field can
/// describe.  Decoding establishes exactly this much.
pub open spec fn spec_wire_valid(v: InternalMessageView) -> bool {
    &&& spec_legal(v.reliability, v.ordering, v.with_ack_receipt)
    &&& spec_u24_fields_ok(v)
    &&& v.payload.len() <= MAX_PAYLOAD_LEN
}

/// Full construction-time validity: wire validity plus the channel range.
pub open spec fn spec_valid(v: InternalMessageView) -> bool {
    spec_wire_valid(v) && spec_channel_ok(v)
}

/// The first failed check, in the order construction applies them.
pub open spec fn spec_validate(v: InternalMessageView) -> Option<ValidationError> {
    if !spec_legal(v.reliability, v.ordering, v.with_ack_receipt) {
        Some(ValidationError::ReliabilityMismatch)
    } else if !spec_u24_fields_ok(v) {
        Some(ValidationError::U24Overflow)
    } else if !spec_channel_ok(v) {
        Some(ValidationError::ChannelOutOfRange)
    } else if v.payload.len() > MAX_PAYLOAD_LEN {
        Some(ValidationError::PayloadOutOfRange)
    } else {
        None
    }
}

/// Validation succeeds exactly on the valid messages.
pub proof fn lemma_validate_iff_valid(v: InternalMessageView)
    ensures
        spec_validate(v) is None <==> spec_valid(v),
{
}

/// One logical message unit, constructible only with a legal combination
/// of guarantees and fields in range.
#[derive(Debug)]
pub struct InternalMessage {
    reliability: Reliability,
    ordering: Ordering,
    with_ack_receipt: bool,
    split: Option<Split>,
    payload: Vec<u8>,
}

impl View for InternalMessage {
    type V = InternalMessageView;

    closed spec fn view(&self) -> InternalMessageView {
        InternalMessageView {
            reliability: self.reliability,
            ordering: self.ordering,
            with_ack_receipt: self.with_ack_receipt,
            split: self.split,
            payload: self.payload@,
        }
    }
}

impl InternalMessage {
    /// The type invariant: every live message is wire-valid.  Callers
    /// holding a message recover this with `use_type_invariant`.
    #[verifier::type_invariant]
    pub open spec fn wf(self) -> bool {
        spec_wire_valid(self@)
    }

    /// Validate and construct one message.  Checks run in a fixed order:
    /// the legality matrix first, then the 24-bit counters, the channel
    /// range, and last the payload cap.
    pub fn new(
        reliability: Reliability,
        ordering: Ordering,
        with_ack_receipt: bool,
        split: Option<Split>,
        payload: Vec<u8>,
    ) -> (r: Result<InternalMessage, ValidationError>)
        ensures
            ({
                let v = InternalMessageView {
                    reliability,
                    ordering,
                    with_ack_receipt,
                    split,
                    payload: payload@,
                };
                match spec_validate(v) {
                    None => r is Ok && r->Ok_0@ == v,
                    Some(e) => r is Err && r->Err_0 == e,
                }
            }),
    {
        if let Err(e) = classify(reliability, ordering, with_ack_receipt) {
            return Err(e);
        }
        match reliability {
            Reliability::Reliable { message_index } => {
                if message_index > MAX_U24 {
                    return Err(ValidationError::U24Overflow);
                }
            },
            Reliability::Unreliable => {},
        }
        match ordering {
            Ordering::Ordered { order_index, .. } => {
                if order_index > MAX_U24 {
                    return Err(ValidationError::U24Overflow);
                }
            },
            Ordering::Sequenced { order_index, seq_number, .. } => {
                if order_index > MAX_U24 || seq_number > MAX_U24 {
                    return Err(ValidationError::U24Overflow);
                }
            },
            Ordering::Unordered => {},
        }
        match ordering {
            Ordering::Ordered { channel, .. } => {
                if channel >= ORDERING_CHANNEL_COUNT {
                    return Err(ValidationError::ChannelOutOfRange);
                }
            },
            Ordering::Sequenced { channel, .. } => {
                if channel >= ORDERING_CHANNEL_COUNT {
                    return Err(ValidationError::ChannelOutOfRange);
                }
            },
            Ordering::Unordered => {},
        }
        if payload.len() > MAX_PAYLOAD_LEN {
            return Err(ValidationError::PayloadOutOfRange);
        }
        Ok(InternalMessage { reliability, ordering, with_ack_receipt, split, payload })
    }

    pub fn reliability(&self) -> (r: Reliability)
        ensures
            r == self@.reliability,
    {
        self.reliability
    }

    pub fn ordering(&self) -> (r: Ordering)
        ensures
            r == self@.ordering,
    {
        self.ordering
    }

    pub fn with_ack_receipt(&self) -> (r: bool)
        ensures
            r == self@.with_ack_receipt,
    {
        self.with_ack_receipt
    }

    pub fn split(&self) -> (r: Option<Split>)
        ensures
            r == self@.split,
    {
        self.split
    }

    pub fn payload(&self) -> (r: &Vec<u8>)
        ensures
            r@ == self@.payload,
    {
        &self.payload
    }
}

/// The flag byte: the 3-bit wire code in bits 7..5 and the has-split flag
/// in bit 4.
pub open spec fn spec_flags_byte(v: InternalMessageView) -> u8 {
    (spec_classify(v.reliability, v.ordering, v.with_ack_receipt).spec_to_u8() * 32 + (
    if v.split is Some {
        16u8
    } else {
        0u8
    })) as u8
}

/// The bytes the reliability contributes: the message index, if reliable.
pub open spec fn spec_encode_reliability(r: Reliability) -> Seq<u8> {
    match r {
        Reliability::Unreliable => Seq::empty(),
        Reliability::Reliable { message_index } => le_bytes(message_index as nat, 3),
    }
}

/// The bytes the ordering contributes.
pub open spec fn spec_encode_ordering(o: Ordering) -> Seq<u8> {
    match o {
        Ordering::Unordered => Seq::empty(),
        Ordering::Ordered { channel, order_index } => le_bytes(order_index as nat, 3)
            + seq![channel],
        Ordering::Sequenced { channel, order_index, seq_number } => le_bytes(seq_number as nat, 3)
            + le_bytes(order_index as nat, 3) + seq![channel],
    }
}

/// The bytes the fragmentation descriptor contributes.
pub open spec fn spec_encode_split(s: Option<Split>) -> Seq<u8> {
    match s {
        None => Seq::empty(),
        Some(sp) => be_bytes(sp.count as nat, 4) + be_bytes(sp.id as nat, 2) + be_bytes(
            sp.index as nat,
            4,
        ),
    }
}

/// The full encoding of one internal message.
pub open spec fn spec_encode_message(v: InternalMessageView) -> Seq<u8> {
    seq![spec_flags_byte(v)] + be_bytes(v.payload.len() * 8, 2) + spec_encode_reliability(
        v.reliability,
    ) + spec_encode_ordering(v.ordering) + spec_encode_split(v.split) + v.payload
}

// The parsing functions below each read one aspect of a message straight
// from the byte string, so that the decoder and the round-trip proofs can
// speak about them one at a time.  All assume the three header bytes are
// present.
/// The wire code named by the flag byte.
pub open spec fn spec_msg_code(s: Seq<u8>) -> PacketReliability {
    PacketReliability::spec_from_3bits((s[0] / 32) as u8)
}

/// The has-split flag of the flag byte.
pub open spec fn spec_msg_splitted(s: Seq<u8>) -> bool {
    (s[0] / 16) % 2 == 1
}

/// The payload byte length: the stored bit count divided by eight.
pub open spec fn spec_msg_plen(s: Seq<u8>) -> int {
    (parse_be(s.subrange(1, 3)) / 8) as int
}

/// How many bytes the reliability fields occupy.
pub open spec fn spec_msg_n_rel(s: Seq<u8>) -> int {
    if spec_msg_code(s).spec_is_reliable() {
        3
    } else {
        0
    }
}

/// How many bytes the ordering fields occupy.
pub open spec fn spec_msg_n_ord(s: Seq<u8>) -> int {
    if spec_msg_code(s).spec_is_ordered() {
        4
    } else if spec_msg_code(s).spec_is_sequenced() {
        7
    } else {
        0
    }
}

/// How many bytes the fragmentation fields occupy.
pub open spec fn spec_msg_n_split(s: Seq<u8>) -> int {
    if spec_msg_splitted(s) {
        10
    } else {
        0
    }
}

/// How many bytes the whole message occupies.  The three header bytes
/// determine this completely.
pub open spec fn spec_msg_total(s: Seq<u8>) -> int {
    3 + spec_msg_n_rel(s) + spec_msg_n_ord(s) + spec_msg_n_split(s) + spec_msg_plen(s)
}

/// The reliability the message asks for.
pub open spec fn spec_msg_reliability(s: Seq<u8>) -> Reliability {
    if spec_msg_code(s).spec_is_reliable() {
        Reliability::Reliable { message_index: parse_le(s.subrange(3, 6)) as u32 }
    } else {
        Reliability::Unreliable
    }
}

/// The ordering the message asks for.
pub open spec fn spec_msg_ordering(s: Seq<u8>) -> Ordering {
    let off = 3 + spec_msg_n_rel(s);
    if spec_msg_code(s).spec_is_ordered() {
        Ordering::Ordered {
            channel: s[off + 3],
            order_index: parse_le(s.subrange(off, off + 3)) as u32,
        }
    } else if spec_msg_code(s).spec_is_sequenced() {
        Ordering::Sequenced {
            channel: s[off + 6],
            order_index: parse_le(s.subrange(off + 3, off + 6)) as u32,
            seq_number: parse_le(s.subrange(off, off + 3)) as u32,
        }
    } else {
        Ordering::Unordered
    }
}

/// The fragmentation descriptor, if the has-split flag is set.
pub open spec fn spec_msg_split(s: Seq<u8>) -> Option<Split> {
    let off = 3 + spec_msg_n_rel(s) + spec_msg_n_ord(s);
    if spec_msg_splitted(s) {
        Some(
            Split {
                count: parse_be(s.subrange(off, off + 4)) as u32,
                id: parse_be(s.subrange(off + 4, off + 6)) as u16,
                index: parse_be(s.subrange(off + 6, off + 10)) as u32,
            },
        )
    } else {
        None
    }
}

/// The whole message value at the front of `s`.
pub open spec fn spec_msg_view(s: Seq<u8>) -> InternalMessageView {
    let off = 3 + spec_msg_n_rel(s) + spec_msg_n_ord(s) + spec_msg_n_split(s);
    InternalMessageView {
        reliability: spec_msg_reliability(s),
        ordering: spec_msg_ordering(s),
        with_ack_receipt: spec_msg_code(s).spec_is_with_ack_receipt(),
        split: spec_msg_split(s),
        payload: s.subrange(off, off + spec_msg_plen(s)),
    }
}

/// The message at the front of `s` and the bytes it occupies, or nothing
/// when `s` is too short.  This is the one parsing function the decoder
/// is proved against.
pub open spec fn spec_parse_message(s: Seq<u8>) -> Option<(InternalMessageView, nat)> {
    if s.len() >= 3 && s.len() >= spec_msg_total(s) {
        Some((spec_msg_view(s), spec_msg_total(s) as nat))
    } else {
        None
    }
}

/// Whatever parses is wire-valid, occupies at least the three header
/// bytes, and no more than the whole buffer.
pub proof fn lemma_parse_message_wf(s: Seq<u8>)
    ensures
        spec_parse_message(s) matches Some((v, n)) ==> spec_wire_valid(v) && 3 <= n <= s.len(),
{
    if s.len() >= 3 && s.len() >= spec_msg_total(s) {
        lemma_pow256_values();
        lemma_code_guarantees(spec_msg_code(s));
        lemma_parse_be_bound(s.subrange(1, 3));
        lemma_parse_le_bound(s.subrange(3, 6));
        let off = 3 + spec_msg_n_rel(s);
        lemma_parse_le_bound(s.subrange(off, off + 3));
        lemma_parse_le_bound(s.subrange(off + 3, off + 6));
        assert(parse_be(s.subrange(1, 3)) / 8 <= 65535nat / 8);
    }
}

impl BinaryEncode for InternalMessage {
    /// Every constructible message fits the wire format.
    open spec fn spec_encodable(&self) -> bool {
        true
    }

    open spec fn spec_encoding(&self) -> Seq<u8> {
        spec_encode_message(self@)
    }

    #[verifier::rlimit(100)]
    fn encode(&self, writer: &mut BinaryWriter) -> (r: Result<(), BytesCodingError>) {
        proof {
            use_type_invariant(self);
        }
        let code = match classify(self.reliability, self.ordering, self.with_ack_receipt) {
            Ok(code) => code,
            Err(_) => {
                proof {
                    assert(false);
                }
                return Err(BytesCodingError::InvalidInput);
            },
        };
        let split_flag: u8 = if self.split.is_some() {
            16
        } else {
            0
        };
        writer.write_u8(code.to_u8() * 32 + split_flag);
        writer.write_u16_be((self.payload.len() * 8) as u16);
        match self.reliability {
            Reliability::Reliable { message_index } => {
                writer.write_u24_le(message_index);
            },
            Reliability::Unreliable => {},
        }
        match self.ordering {
            Ordering::Ordered { channel, order_index } => {
                writer.write_u24_le(order_index);
                writer.write_u8(channel);
            },
            Ordering::Sequenced { channel, order_index, seq_number } => {
                writer.write_u24_le(seq_number);
                writer.write_u24_le(order_index);
                writer.write_u8(channel);
            },
            Ordering::Unordered => {},
        }
        match self.split {
            Some(sp) => {
                writer.write_u32_be(sp.count);
                writer.write_u16_be(sp.id);
                writer.write_u32_be(sp.index);
            },
            None => {},
        }
        writer.write_bytes(self.payload.as_slice());
        proof {
            assert(writer@ =~= old(writer)@ + spec_encode_message(self@));
        }
        Ok(())
    }
}

/// Read the reliability fields: the message index when `reliable`.
fn read_reliability(reader: &mut BinaryReader, reliable: bool) -> (r: Result<
    Reliability,
    BytesCodingError,
>)
    ensures
        ({
            let t = old(reader).spec_remaining();
            if reliable {
                &&& r is Ok <==> t.len() >= 3
                &&& r is Ok ==> r->Ok_0 == (Reliability::Reliable {
                    message_index: parse_le(t.take(3)) as u32,
                }) && final(reader).spec_remaining() == t.skip(3)
                &&& r is Err ==> r->Err_0 == BytesCodingError::NotEnoughRemaining
            } else {
                r is Ok && r->Ok_0 == Reliability::Unreliable && final(reader).spec_remaining()
                    == t
            }
        }),
        final(reader).spec_remaining().len() <= old(reader).spec_remaining().len(),
{
    if reliable {
        let message_index = match reader.read_u24_le() {
            Ok(v) => v,
            Err(e) => {
                return Err(e);
            },
        };
        Ok(Reliability::Reliable { message_index })
    } else {
        Ok(Reliability::Unreliable)
    }
}

/// Read the ordering fields for an ordered or sequenced code.
fn read_ordering(reader: &mut BinaryReader, ordered: bool, sequenced: bool) -> (r: Result<
    Ordering,
    BytesCodingError,
>)
    requires
        !(ordered && sequenced),
    ensures
        ({
            let t = old(reader).spec_remaining();
            if ordered {
                &&& r is Ok <==> t.len() >= 4
                &&& r is Ok ==> r->Ok_0 == (Ordering::Ordered {
                    channel: t[3],
                    order_index: parse_le(t.take(3)) as u32,
                }) && final(reader).spec_remaining() == t.skip(4)
                &&& r is Err ==> r->Err_0 == BytesCodingError::NotEnoughRemaining
            } else if sequenced {
                &&& r is Ok <==> t.len() >= 7
                &&& r is Ok ==> r->Ok_0 == (Ordering::Sequenced {
                    channel: t[6],
                    order_index: parse_le(t.subrange(3, 6)) as u32,
                    seq_number: parse_le(t.take(3)) as u32,
                }) && final(reader).spec_remaining() == t.skip(7)
                &&& r is Err ==> r->Err_0 == BytesCodingError::NotEnoughRemaining
            } else {
                r is Ok && r->Ok_0 == Ordering::Unordered && final(reader).spec_remaining() == t
            }
        }),
        final(reader).spec_remaining().len() <= old(reader).spec_remaining().len(),
{
    let ghost t = reader.spec_remaining();
    if ordered {
        let order_index = match reader.read_u24_le() {
            Ok(v) => v,
            Err(e) => {
                return Err(e);
            },
        };
        let channel = match reader.read_u8() {
            Ok(v) => v,
            Err(e) => {
                return Err(e);
            },
        };
        proof {
            assert(t.skip(3)[0] == t[3]);
            assert(t.skip(3).skip(1) =~= t.skip(4));
        }
        Ok(Ordering::Ordered { channel, order_index })
    } else if sequenced {
        let seq_number = match reader.read_u24_le() {
            Ok(v) => v,
            Err(e) => {
                return Err(e);
            },
        };
        let order_index = match reader.read_u24_le() {
            Ok(v) => v,
            Err(e) => {
                return Err(e);
            },
        };
        let channel = match reader.read_u8() {
            Ok(v) => v,
            Err(e) => {
                return Err(e);
            },
        };
        proof {
            assert(t.skip(3).take(3) =~= t.subrange(3, 6));
            assert(t.skip(3).skip(3) =~= t.skip(6));
            assert(t.skip(6)[0] == t[6]);
            assert(t.skip(6).skip(1) =~= t.skip(7));
        }
        Ok(Ordering::Sequenced { channel, order_index, seq_number })
    } else {
        Ok(Ordering::Unordered)
    }
}

/// Read the fragmentation fields when the has-split flag is set.
fn read_split(reader: &mut BinaryReader, splitted: bool) -> (r: Result<
    Option<Split>,
    BytesCodingError,
>)
    ensures
        ({
            let t = old(reader).spec_remaining();
            if splitted {
                &&& r is Ok <==> t.len() >= 10
                &&& r is Ok ==> r->Ok_0 == Some(
                    Split {
                        count: parse_be(t.take(4)) as u32,
                        id: parse_be(t.subrange(4, 6)) as u16,
                        index: parse_be(t.subrange(6, 10)) as u32,
                    },
                ) && final(reader).spec_remaining() == t.skip(10)
                &&& r is Err ==> r->Err_0 == BytesCodingError::NotEnoughRemaining
            } else {
                r is Ok && r->Ok_0 == Option::<Split>::None && final(reader).spec_remaining()
                    == t
            }
        }),
        final(reader).spec_remaining().len() <= old(reader).spec_remaining().len(),
{
    let ghost t = reader.spec_remaining();
    if splitted {
        let count = match reader.read_u32_be() {
            Ok(v) => v,
            Err(e) => {
                return Err(e);
            },
        };
        let id = match reader.read_u16_be() {
            Ok(v) => v,
            Err(e) => {
                return Err(e);
            },
        };
        let index = match reader.read_u32_be() {
            Ok(v) => v,
            Err(e) => {
                return Err(e);
            },
        };
        proof {
            assert(t.skip(4).take(2) =~= t.subrange(4, 6));
            assert(t.skip(4).skip(2) =~= t.skip(6));
            assert(t.skip(6).take(4) =~= t.subrange(6, 10));
            assert(t.skip(6).skip(4) =~= t.skip(10));
        }
        Ok(Some(Split { id, count, index }))
    } else {
        Ok(None)
    }
}

impl BinaryDecode for InternalMessage {
    open spec fn spec_parse(s: Seq<u8>) -> Option<(InternalMessageView, nat)> {
        spec_parse_message(s)
    }

    /// The only way a message fails to decode is a short buffer.
    open spec fn spec_parse_err(s: Seq<u8>) -> BytesCodingError {
        BytesCodingError::NotEnoughRemaining
    }

    #[verifier::rlimit(100)]
    fn decode(reader: &mut BinaryReader) -> (r: Result<Self, BytesCodingError>) {
        let ghost s = reader.spec_remaining();
        let flags = match reader.read_u8() {
            Ok(b) => b,
            Err(e) => {
                return Err(e);
            },
        };
        proof {
            assert(flags / 32 < 8) by (bit_vector);
        }
        let code = match PacketReliability::from_u8(flags / 32) {
            Some(code) => code,
            None => {
                proof {
                    assert(false);
                }
                return Err(BytesCodingError::InvalidData);
            },
        };
        let splitted = (flags / 16) % 2 == 1;
        let bits = match reader.read_u16_be() {
            Ok(v) => v,
            Err(e) => {
                return Err(e);
            },
        };
        let plen = (bits / 8) as usize;
        proof {
            assert(s[0] == flags);
            assert(code == spec_msg_code(s));
            assert(splitted == spec_msg_splitted(s));
            assert(s.skip(1).take(2) =~= s.subrange(1, 3));
            assert(plen == spec_msg_plen(s));
            assert(s.skip(1).skip(2) =~= s.skip(3));
            assert(reader.spec_remaining() == s.skip(3));
            assert(spec_msg_total(s) >= 3 + spec_msg_n_rel(s) + spec_msg_n_ord(s)
                + spec_msg_n_split(s));
        }
        let reliability = match read_reliability(reader, code.is_reliable()) {
            Ok(v) => v,
            Err(e) => {
                proof {
                    assert(s.len() < spec_msg_total(s));
                }
                return Err(e);
            },
        };
        let ghost off_ord: int = 3 + spec_msg_n_rel(s);
        proof {
            assert(code.spec_is_reliable() ==> s.skip(3).take(3) =~= s.subrange(3, 6));
            assert(code.spec_is_reliable() ==> s.skip(3).skip(3) =~= s.skip(6));
            assert(reliability == spec_msg_reliability(s));
            assert(reader.spec_remaining() == s.skip(off_ord));
        }
        let ordering = match read_ordering(reader, code.is_ordered(), code.is_sequenced()) {
            Ok(v) => v,
            Err(e) => {
                proof {
                    assert(s.len() < spec_msg_total(s));
                }
                return Err(e);
            },
        };
        let ghost off_split: int = off_ord + spec_msg_n_ord(s);
        proof {
            assert(code.spec_is_ordered() || code.spec_is_sequenced() ==> s.skip(off_ord).take(3)
                =~= s.subrange(off_ord, off_ord + 3));
            assert(code.spec_is_sequenced() ==> s.skip(off_ord).subrange(3, 6) =~= s.subrange(
                off_ord + 3,
                off_ord + 6,
            ));
            assert(code.spec_is_ordered() ==> s.skip(off_ord)[3] == s[off_ord + 3]);
            assert(code.spec_is_sequenced() ==> s.skip(off_ord)[6] == s[off_ord + 6]);
            assert(code.spec_is_ordered() ==> s.skip(off_ord).skip(4) =~= s.skip(off_ord + 4));
            assert(code.spec_is_sequenced() ==> s.skip(off_ord).skip(7) =~= s.skip(off_ord + 7));
            assert(ordering == spec_msg_ordering(s));
            assert(reader.spec_remaining() == s.skip(off_split));
        }
        let split = match read_split(reader, splitted) {
            Ok(v) => v,
            Err(e) => {
                proof {
                    assert(s.len() < spec_msg_total(s));
                }
                return Err(e);
            },
        };
        let ghost off_payload: int = off_split + spec_msg_n_split(s);
        proof {
            assert(splitted ==> s.skip(off_split).take(4) =~= s.subrange(off_split, off_split + 4));
            assert(splitted ==> s.skip(off_split).subrange(4, 6) =~= s.subrange(
                off_split + 4,
                off_split + 6,
            ));
            assert(splitted ==> s.skip(off_split).subrange(6, 10) =~= s.subrange(
                off_split + 6,
                off_split + 10,
            ));
            assert(splitted ==> s.skip(off_split).skip(10) =~= s.skip(off_split + 10));
            assert(split == spec_msg_split(s));
            assert(reader.spec_remaining() == s.skip(off_payload));
        }
        let payload = match reader.read_bytes(plen) {
            Ok(v) => v,
            Err(e) => {
                proof {
                    assert(s.len() < spec_msg_total(s));
                }
                return Err(e);
            },
        };
        proof {
            assert(s.skip(off_payload).take(plen as int) =~= s.subrange(
                off_payload,
                off_payload + plen,
            ));
            assert(s.skip(off_payload).skip(plen as int) =~= s.skip(spec_msg_total(s)));
            assert(s.len() >= spec_msg_total(s));
            lemma_parse_message_wf(s);
            let mv = InternalMessageView {
                reliability,
                ordering,
                with_ack_receipt: code.spec_is_with_ack_receipt(),
                split,
                payload: payload@,
            };
            assert(mv =~= spec_msg_view(s));
            assert(spec_wire_valid(mv));
        }
        let message = InternalMessage {
            reliability,
            ordering,
            with_ack_receipt: code.is_with_ack_receipt(),
            split,
            payload,
        };
        Ok(message)
    }
}

/// The abstract value of a [`Datagram`].
#[verifier::ext_equal]
pub struct DatagramView {
    pub sequence_number: u32,
    pub packets: Seq<InternalMessageView>,
}

/// One UDP payload: a 24-bit sequence number and the internal packets it
/// carries, in wire transmission order.
#[derive(Debug)]
pub struct Datagram {
    sequence_number: u32,
    packets: Vec<InternalMessage>,
}

impl View for Datagram {
    type V = DatagramView;

    closed spec fn view(&self) -> DatagramView {
        DatagramView {
            sequence_number: self.sequence_number,
            packets: self.packets@.map_values(|m: InternalMessage| m@),
        }
    }
}

impl Datagram {
    /// The type invariant: the sequence number always fits its 24-bit
    /// wire field.
    #[verifier::type_invariant]
    pub open spec fn wf(self) -> bool {
        self@.sequence_number <= MAX_U24
    }

    /// Construct a datagram; rejected only when the sequence number does
    /// not fit in 24 bits.
    pub fn new(sequence_number: u32, packets: Vec<InternalMessage>) -> (r: Result<
        Datagram,
        ValidationError,
    >)
        ensures
            sequence_number <= MAX_U24 ==> r is Ok && r->Ok_0@ == (DatagramView {
                sequence_number,
                packets: packets@.map_values(|m: InternalMessage| m@),
            }),
            sequence_number > MAX_U24 ==> r is Err && r->Err_0 == ValidationError::U24Overflow,
    {
        if sequence_number > MAX_U24 {
            return Err(ValidationError::U24Overflow);
        }
        Ok(Datagram { sequence_number, packets })
    }

    pub fn sequence_number(&self) -> (r: u32)
        ensures
            r == self@.sequence_number,
    {
        self.sequence_number
    }

    pub fn packets(&self) -> (r: &Vec<InternalMessage>)
        ensures
            r@.map_values(|m: InternalMessage| m@) == self@.packets,
    {
        &self.packets
    }

    pub fn into_packets(self) -> (r: Vec<InternalMessage>)
        ensures
            r@.map_values(|m: InternalMessage| m@) == self@.packets,
    {
        self.packets
    }
}

/// The encodings of a list of packets, concatenated in list order.
pub open spec fn spec_encode_packets(ps: Seq<InternalMessageView>) -> Seq<u8>
    decreases ps.len(),
{
    if ps.len() == 0 {
        Seq::empty()
    } else {
        spec_encode_message(ps.first()) + spec_encode_packets(ps.drop_first())
    }
}

/// Appending one packet appends its encoding.
pub proof fn lemma_encode_packets_push(ps: Seq<InternalMessageView>, v: InternalMessageView)
    ensures
        spec_encode_packets(ps.push(v)) == spec_encode_packets(ps) + spec_encode_message(v),
    decreases ps.len(),
{
    if ps.len() == 0 {
        assert(ps.push(v).drop_first() =~= Seq::<InternalMessageView>::empty());
        assert(ps.push(v).first() == v);
        assert(spec_encode_packets(Seq::<InternalMessageView>::empty()) == Seq::<u8>::empty());
        assert(spec_encode_message(v) + Seq::<u8>::empty() =~= spec_encode_message(v));
        assert(Seq::<u8>::empty() + spec_encode_message(v) =~= spec_encode_message(v));
    } else {
        assert(ps.push(v).first() == ps.first());
        assert(ps.push(v).drop_first() =~= ps.drop_first().push(v));
        lemma_encode_packets_push(ps.drop_first(), v);
        assert(spec_encode_message(ps.first()) + (spec_encode_packets(ps.drop_first())
            + spec_encode_message(v)) =~= (spec_encode_message(ps.first()) + spec_encode_packets(
            ps.drop_first(),
        )) + spec_encode_message(v));
    }
}

/// The full encoding of a datagram.
pub open spec fn spec_encode_datagram(v: DatagramView) -> Seq<u8> {
    le_bytes(v.sequence_number as nat, 3) + spec_encode_packets(v.packets)
}

/// Parse packets until the buffer is exactly exhausted.  A trailing
/// partial packet makes the whole buffer unparseable.
pub open spec fn spec_parse_packets(s: Seq<u8>) -> Option<Seq<InternalMessageView>>
    decreases s.len(),
{
    if s.len() == 0 {
        Some(Seq::empty())
    } else {
        match spec_parse_message(s) {
            None => None,
            Some((v, n)) => if n < 1 || n > s.len() {
                None
            } else {
                match spec_parse_packets(s.skip(n as int)) {
                    None => None,
                    Some(rest) => Some(seq![v] + rest),
                }
            },
        }
    }
}

/// The datagram a whole buffer holds, if it parses completely.
pub open spec fn spec_parse_datagram(s: Seq<u8>) -> Option<DatagramView> {
    if s.len() < 3 {
        None
    } else {
        match spec_parse_packets(s.skip(3)) {
            Some(ps) => Some(
                DatagramView { sequence_number: parse_le(s.subrange(0, 3)) as u32, packets: ps },
            ),
            None => None,
        }
    }
}

impl BinaryEncode for Datagram {
    /// Every constructible datagram fits the wire format.
    open spec fn spec_encodable(&self) -> bool {
        true
    }

    open spec fn spec_encoding(&self) -> Seq<u8> {
        spec_encode_datagram(self@)
    }

    fn encode(&self, writer: &mut BinaryWriter) -> (r: Result<(), BytesCodingError>) {
        proof {
            use_type_invariant(self);
        }
        writer.write_u24_le(self.sequence_number);
        let ghost pre = writer@;
        let ghost views = self@.packets;
        let mut i: usize = 0;
        while i < self.packets.len()
            invariant
                i <= self.packets.len(),
                views == self@.packets,
                views.len() == self.packets.len(),
                writer@ =~= pre + spec_encode_packets(views.take(i as int)),
            decreases self.packets.len() - i,
        {
            let packet = &self.packets[i];
            match packet.encode(writer) {
                Ok(()) => {},
                Err(_) => {
                    proof {
                        assert(false);
                    }
                    return Err(BytesCodingError::InvalidInput);
                },
            }
            proof {
                assert(views.take(i + 1) =~= views.take(i as int).push(views[i as int]));
                lemma_encode_packets_push(views.take(i as int), views[i as int]);
            }
            i += 1;
        }
        proof {
            assert(views.take(self.packets.len() as int) =~= views);
            assert(writer@ =~= old(writer)@ + spec_encode_datagram(self@));
        }
        Ok(())
    }
}

impl BinaryDecode for Datagram {
    /// A datagram consumes the entire buffer; leftover bytes that do not
    /// form a packet fail the whole decode.
    open spec fn spec_parse(s: Seq<u8>) -> Option<(DatagramView, nat)> {
        match spec_parse_datagram(s) {
            Some(v) => Some((v, s.len())),
            None => None,
        }
    }

    /// The only way a datagram fails to decode is a short buffer.
    open spec fn spec_parse_err(s: Seq<u8>) -> BytesCodingError {
        BytesCodingError::NotEnoughRemaining
    }

    #[verifier::rlimit(100)]
    fn decode(reader: &mut BinaryReader) -> (r: Result<Self, BytesCodingError>) {
        let ghost s = reader.spec_remaining();
        let sequence_number = match reader.read_u24_le() {
            Ok(v) => v,
            Err(e) => {
                return Err(e);
            },
        };
        proof {
            assert(s.take(3) =~= s.subrange(0, 3));
            lemma_pow256_values();
            lemma_parse_le_bound(s.subrange(0, 3));
        }
        let ghost s_pkts = s.skip(3);
        let mut packets: Vec<InternalMessage> = Vec::new();
        proof {
            assert(packets@.map_values(|m: InternalMessage| m@) =~= Seq::<
                InternalMessageView,
            >::empty());
            match spec_parse_packets(s_pkts) {
                Some(rest) => {
                    assert(Seq::<InternalMessageView>::empty() + rest =~= rest);
                },
                None => {},
            }
        }
        while reader.remains() > 0
            invariant
                s == old(reader).spec_remaining(),
                s.len() >= 3,
                s_pkts == s.skip(3),
                reader.spec_remaining().len() <= s.len(),
                ({
                    let rem = reader.spec_remaining();
                    let acc = packets@.map_values(|m: InternalMessage| m@);
                    match spec_parse_packets(rem) {
                        Some(rest) => spec_parse_packets(s_pkts) == Some(acc + rest),
                        None => spec_parse_packets(s_pkts) is None,
                    }
                }),
            decreases reader.spec_remaining().len(),
        {
            let ghost rem = reader.spec_remaining();
            let ghost acc = packets@.map_values(|m: InternalMessage| m@);
            let packet = match reader.read::<InternalMessage>() {
                Ok(p) => p,
                Err(e) => {
                    proof {
                        assert(spec_parse_packets(rem) is None);
                        assert(spec_parse_datagram(s) is None);
                    }
                    return Err(e);
                },
            };
            proof {
                lemma_parse_message_wf(rem);
            }
            packets.push(packet);
            proof {
                let (v, n) = spec_parse_message(rem)->Some_0;
                assert(packets@.map_values(|m: InternalMessage| m@) =~= acc.push(v));
                match spec_parse_packets(rem.skip(n as int)) {
                    Some(rest) => {
                        assert(acc + (seq![v] + rest) =~= acc.push(v) + rest);
                    },
                    None => {},
                }
            }
        }
        proof {
            let rem = reader.spec_remaining();
            assert(rem.len() == 0);
            assert(rem =~= Seq::<u8>::empty());
            let acc = packets@.map_values(|m: InternalMessage| m@);
            assert(acc + Seq::<InternalMessageView>::empty() =~= acc);
            assert(spec_parse_packets(s_pkts) == Some(acc));
            assert(s.skip(s.len() as int) =~= Seq::<u8>::empty());
        }
        let datagram = Datagram { sequence_number, packets };
        proof {
            assert(datagram@ =~= spec_parse_datagram(s)->Some_0);
        }
        Ok(datagram)
    }
}


/// Round trip, message level: after encoding a wire-valid message, the
/// parser reads back exactly that message from the front of any buffer
/// that starts with the encoding, consuming exactly the encoding.
#[verifier::rlimit(100)]
pub proof fn lemma_message_round_trip(v: InternalMessageView, rest: Seq<u8>)
    requires
        spec_wire_valid(v),
    ensures
        spec_parse_message(spec_encode_message(v) + rest) == Some(
            (v, spec_encode_message(v).len() as nat),
        ),
{
    let e = spec_encode_message(v);
    let s = e + rest;
    let code = spec_classify(v.reliability, v.ordering, v.with_ack_receipt);
    crate::reliability::lemma_classify_inverse(v.reliability, v.ordering, v.with_ack_receipt);
    crate::constants::lemma_code_u8_round_trip(code);
    lemma_pow256_values();
    let p1 = be_bytes(v.payload.len() * 8, 2);
    let p2 = spec_encode_reliability(v.reliability);
    let p3 = spec_encode_ordering(v.ordering);
    let p4 = spec_encode_split(v.split);
    lemma_be_bytes_len(v.payload.len() * 8, 2);
    match v.reliability {
        Reliability::Reliable { message_index } => {
            lemma_le_bytes_len(message_index as nat, 3);
            lemma_parse_le_bytes(message_index as nat, 3);
        },
        Reliability::Unreliable => {},
    }
    match v.ordering {
        Ordering::Ordered { channel, order_index } => {
            lemma_le_bytes_len(order_index as nat, 3);
            lemma_parse_le_bytes(order_index as nat, 3);
        },
        Ordering::Sequenced { channel, order_index, seq_number } => {
            lemma_le_bytes_len(order_index as nat, 3);
            lemma_le_bytes_len(seq_number as nat, 3);
            lemma_parse_le_bytes(order_index as nat, 3);
            lemma_parse_le_bytes(seq_number as nat, 3);
        },
        Ordering::Unordered => {},
    }
    match v.split {
        Some(sp) => {
            lemma_be_bytes_len(sp.count as nat, 4);
            lemma_be_bytes_len(sp.id as nat, 2);
            lemma_be_bytes_len(sp.index as nat, 4);
            lemma_parse_be_bytes(sp.count as nat, 4);
            lemma_parse_be_bytes(sp.id as nat, 2);
            lemma_parse_be_bytes(sp.index as nat, 4);
        },
        None => {},
    }
    let n_rel: int = if code.spec_is_reliable() {
        3
    } else {
        0
    };
    let n_ord: int = if code.spec_is_ordered() {
        4
    } else if code.spec_is_sequenced() {
        7
    } else {
        0
    };
    let n_split: int = if v.split is Some {
        10
    } else {
        0
    };
    assert(p2.len() == n_rel);
    assert(p3.len() == n_ord);
    assert(p4.len() == n_split);
    assert(e.len() == 3 + n_rel + n_ord + n_split + v.payload.len());
    let flags = spec_flags_byte(v);
    let c = code.spec_to_u8();
    let f: u8 = if v.split is Some {
        16
    } else {
        0
    };
    assert(flags == c * 32 + f);
    assert(c < 8 && (f == 0 || f == 16) && flags == c * 32 + f ==> flags / 32 == c && ((flags
        / 16) % 2 == 1 <==> f == 16)) by (bit_vector);
    assert(s[0] == flags);
    assert(spec_msg_code(s) == code);
    assert(spec_msg_splitted(s) == (v.split is Some));
    assert(s.subrange(1, 3) =~= p1);
    lemma_parse_be_bytes(v.payload.len() * 8, 2);
    vstd::arithmetic::div_mod::lemma_div_multiples_vanish(v.payload.len() as int, 8);
    assert(spec_msg_plen(s) == v.payload.len());
    assert(spec_msg_n_rel(s) == n_rel);
    assert(spec_msg_n_ord(s) == n_ord);
    assert(spec_msg_n_split(s) == n_split);
    assert(spec_msg_total(s) == e.len());
    assert(s.len() >= spec_msg_total(s));
    if code.spec_is_reliable() {
        assert(s.subrange(3, 6) =~= p2);
    }
    assert(spec_msg_reliability(s) == v.reliability);
    let off_ord: int = 3 + n_rel;
    match v.ordering {
        Ordering::Ordered { channel, order_index } => {
            assert(s.subrange(off_ord, off_ord + 3) =~= le_bytes(order_index as nat, 3));
            assert(s[off_ord + 3] == channel);
        },
        Ordering::Sequenced { channel, order_index, seq_number } => {
            assert(s.subrange(off_ord, off_ord + 3) =~= le_bytes(seq_number as nat, 3));
            assert(s.subrange(off_ord + 3, off_ord + 6) =~= le_bytes(order_index as nat, 3));
            assert(s[off_ord + 6] == channel);
        },
        Ordering::Unordered => {},
    }
    assert(spec_msg_ordering(s) == v.ordering);
    let off_split: int = 3 + n_rel + n_ord;
    match v.split {
        Some(sp) => {
            assert(s.subrange(off_split, off_split + 4) =~= be_bytes(sp.count as nat, 4));
            assert(s.subrange(off_split + 4, off_split + 6) =~= be_bytes(sp.id as nat, 2));
            assert(s.subrange(off_split + 6, off_split + 10) =~= be_bytes(sp.index as nat, 4));
        },
        None => {},
    }
    assert(spec_msg_split(s) == v.split);
    let off_payload: int = 3 + n_rel + n_ord + n_split;
    assert(s.subrange(off_payload, off_payload + v.payload.len()) =~= v.payload);
    assert(spec_msg_view(s) =~= v);
}

/// Round trip, packet-list level: a concatenation of encodings parses
/// back to exactly the encoded packets, in their original order.
pub proof fn lemma_packets_round_trip(ps: Seq<InternalMessageView>)
    requires
        forall|i: int| 0 <= i < ps.len() ==> spec_wire_valid(#[trigger] ps[i]),
    ensures
        spec_parse_packets(spec_encode_packets(ps)) == Some(ps),
    decreases ps.len(),
{
    if ps.len() == 0 {
        assert(spec_encode_packets(ps) =~= Seq::<u8>::empty());
        assert(ps =~= Seq::<InternalMessageView>::empty());
    } else {
        let first = ps.first();
        let tail = ps.drop_first();
        let e0 = spec_encode_message(first);
        let etail = spec_encode_packets(tail);
        let s = spec_encode_packets(ps);
        assert(ps[0] == first);
        assert(s == e0 + etail);
        lemma_message_round_trip(first, etail);
        lemma_parse_message_wf(s);
        assert(s.skip(e0.len() as int) =~= etail);
        assert forall|i: int| 0 <= i < tail.len() implies spec_wire_valid(#[trigger] tail[i]) by {
            assert(tail[i] == ps[i + 1]);
        }
        lemma_packets_round_trip(tail);
        assert(seq![first] + tail =~= ps);
    }
}

/// Round trip, datagram level: for every datagram whose sequence number
/// fits 24 bits and whose packets are wire-valid, decoding the encoding
/// yields the identical datagram, every field of every packet included.
pub proof fn lemma_datagram_round_trip(v: DatagramView)
    requires
        v.sequence_number <= MAX_U24,
        forall|i: int| 0 <= i < v.packets.len() ==> spec_wire_valid(#[trigger] v.packets[i]),
    ensures
        spec_parse_datagram(spec_encode_datagram(v)) == Some(v),
{
    let h = le_bytes(v.sequence_number as nat, 3);
    let s = spec_encode_datagram(v);
    lemma_le_bytes_len(v.sequence_number as nat, 3);
    lemma_pow256_values();
    lemma_parse_le_bytes(v.sequence_number as nat, 3);
    assert(s.subrange(0, 3) =~= h);
    assert(s.skip(3) =~= spec_encode_packets(v.packets));
    lemma_packets_round_trip(v.packets);
    assert(spec_parse_datagram(s)->Some_0 =~= v);
}

} // verus!
