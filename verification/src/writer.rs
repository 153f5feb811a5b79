//! An append-only byte buffer and the encoding side of the wire codec.

use vstd::prelude::*;

verus! {

use crate::codable::BytesCodingError;
use crate::wire::be_bytes;
use crate::wire::le_bytes;
use crate::wire::pow256;
use crate::wire::lemma_be_bytes_index;
use crate::wire::lemma_be_bytes_len;
use crate::wire::lemma_le_bytes_index;
use crate::wire::lemma_le_bytes_len;
use crate::wire::lemma_pow256_pos;
use crate::wire::lemma_pow256_values;

/// A growable buffer that values are encoded into, most significant part
/// first or last depending on the operation.  Its view is the byte string
/// written so far.
pub struct BinaryWriter {
    buf: Vec<u8>,
}

impl View for BinaryWriter {
    type V = Seq<u8>;

    closed spec fn view(&self) -> Seq<u8> {
        self.buf@
    }
}

/// A value that can be written into a [`BinaryWriter`].
///
/// `spec_encoding` is the byte string the value stands for on the wire;
/// `spec_encodable` says when the value fits the format at all.
pub trait BinaryEncode: View {
    /// Whether the value can be written in the wire format.
    spec fn spec_encodable(&self) -> bool;

    /// The byte string the value encodes to.
    spec fn spec_encoding(&self) -> Seq<u8>;

    /// Append the value's encoding to `writer`.
    fn encode(&self, writer: &mut BinaryWriter) -> (r: Result<(), BytesCodingError>)
        ensures
            r is Ok <==> self.spec_encodable(),
            r is Ok ==> final(writer)@ == old(writer)@ + self.spec_encoding(),
            r is Err ==> final(writer)@ == old(writer)@ && r->Err_0
                == BytesCodingError::InvalidInput,
    ;
}

impl BinaryWriter {
    pub fn new() -> (w: BinaryWriter)
        ensures
            w@ == Seq::<u8>::empty(),
    {
        BinaryWriter { buf: Vec::new() }
    }

    /// Hand back everything written so far.
    pub fn into_vec(self) -> (r: Vec<u8>)
        ensures
            r@ == self@,
    {
        self.buf
    }

    /// Write any encodable value.
    pub fn write<T: BinaryEncode>(&mut self, value: &T) -> (r: Result<(), BytesCodingError>)
        ensures
            r is Ok <==> value.spec_encodable(),
            r is Ok ==> final(self)@ == old(self)@ + value.spec_encoding(),
            r is Err ==> final(self)@ == old(self)@ && r->Err_0 == BytesCodingError::InvalidInput,
    {
        value.encode(self)
    }

    /// Append raw bytes unchanged.
    pub fn write_bytes(&mut self, value: &[u8])
        ensures
            final(self)@ == old(self)@ + value@,
    {
        self.buf.extend_from_slice(value);
    }

    /// Append one byte.
    pub fn write_u8(&mut self, value: u8)
        ensures
            final(self)@ == old(self)@.push(value),
    {
        self.buf.push(value);
    }

    /// Append `n` bytes holding `value` big-endian.
    fn write_be(&mut self, value: u128, n: usize)
        requires
            n <= 16,
            (value as nat) < pow256(n as nat),
        ensures
            final(self)@ == old(self)@ + be_bytes(value as nat, n as nat),
    {
        let digits = le_digits(value, n);
        let ghost pre = self@;
        let mut j: usize = 0;
        while j < n
            invariant
                j <= n <= 16,
                (value as nat) < pow256(n as nat),
                digits@.len() == n,
                forall|k: int|
                    0 <= k < n ==> digits@[k] == ((value as nat / pow256(k as nat)) % 256) as u8,
                self@ =~= pre + be_bytes(value as nat, n as nat).take(j as int),
            decreases n - j,
        {
            proof {
                lemma_be_bytes_index(value as nat, n as nat, j as int);
                assert(be_bytes(value as nat, n as nat).take(j + 1) =~= be_bytes(
                    value as nat,
                    n as nat,
                ).take(j as int).push(digits@[n - 1 - j]));
            }
            let b = digits[n - 1 - j];
            self.buf.push(b);
            j += 1;
        }
        proof {
            lemma_be_bytes_len(value as nat, n as nat);
            assert(be_bytes(value as nat, n as nat).take(n as int) =~= be_bytes(
                value as nat,
                n as nat,
            ));
        }
    }

    /// Append `n` bytes holding `value` little-endian.
    fn write_le(&mut self, value: u128, n: usize)
        requires
            n <= 16,
            (value as nat) < pow256(n as nat),
        ensures
            final(self)@ == old(self)@ + le_bytes(value as nat, n as nat),
    {
        let digits = le_digits(value, n);
        let ghost pre = self@;
        let mut j: usize = 0;
        while j < n
            invariant
                j <= n <= 16,
                (value as nat) < pow256(n as nat),
                digits@.len() == n,
                forall|k: int|
                    0 <= k < n ==> digits@[k] == ((value as nat / pow256(k as nat)) % 256) as u8,
                self@ =~= pre + le_bytes(value as nat, n as nat).take(j as int),
            decreases n - j,
        {
            proof {
                lemma_le_bytes_index(value as nat, n as nat, j as int);
                assert(le_bytes(value as nat, n as nat).take(j + 1) =~= le_bytes(
                    value as nat,
                    n as nat,
                ).take(j as int).push(digits@[j as int]));
            }
            let b = digits[j];
            self.buf.push(b);
            j += 1;
        }
        proof {
            lemma_le_bytes_len(value as nat, n as nat);
            assert(le_bytes(value as nat, n as nat).take(n as int) =~= le_bytes(
                value as nat,
                n as nat,
            ));
        }
    }
}

/// The `n` base-256 digits of `value`, least significant first.
fn le_digits(value: u128, n: usize) -> (digits: Vec<u8>)
    requires
        n <= 16,
    ensures
        digits@.len() == n,
        forall|k: int|
            0 <= k < n ==> digits@[k] == ((value as nat / pow256(k as nat)) % 256) as u8,
{
    let mut digits: Vec<u8> = Vec::new();
    let mut x = value;
    let mut i: usize = 0;
    proof {
        vstd::arithmetic::div_mod::lemma_div_basics(value as int);
    }
    while i < n
        invariant
            i <= n,
            x as nat == (value as nat) / pow256(i as nat),
            digits@.len() == i,
            forall|k: int|
                0 <= k < i ==> digits@[k] == ((value as nat / pow256(k as nat)) % 256) as u8,
        decreases n - i,
    {
        digits.push((x % 256) as u8);
        proof {
            lemma_pow256_pos(i as nat);
            vstd::arithmetic::div_mod::lemma_div_denominator(
                value as int,
                pow256(i as nat) as int,
                256,
            );
            assert(pow256(i as nat) * 256 == 256 * pow256(i as nat));
        }
        x = x / 256;
        i += 1;
    }
    digits
}

/// Writing fixed-width integers in either byte order.
pub trait WriteBytesExt: View<V = Seq<u8>> {
    fn write_u16_be(&mut self, v: u16)
        ensures
            final(self)@ == old(self)@ + be_bytes(v as nat, 2),
    ;

    fn write_u24_be(&mut self, v: u32)
        requires
            v < 0x1000000,
        ensures
            final(self)@ == old(self)@ + be_bytes(v as nat, 3),
    ;

    fn write_u32_be(&mut self, v: u32)
        ensures
            final(self)@ == old(self)@ + be_bytes(v as nat, 4),
    ;

    fn write_u64_be(&mut self, v: u64)
        ensures
            final(self)@ == old(self)@ + be_bytes(v as nat, 8),
    ;

    fn write_u128_be(&mut self, v: u128)
        ensures
            final(self)@ == old(self)@ + be_bytes(v as nat, 16),
    ;

    fn write_u16_le(&mut self, v: u16)
        ensures
            final(self)@ == old(self)@ + le_bytes(v as nat, 2),
    ;

    fn write_u24_le(&mut self, v: u32)
        requires
            v < 0x1000000,
        ensures
            final(self)@ == old(self)@ + le_bytes(v as nat, 3),
    ;

    fn write_u32_le(&mut self, v: u32)
        ensures
            final(self)@ == old(self)@ + le_bytes(v as nat, 4),
    ;

    fn write_u64_le(&mut self, v: u64)
        ensures
            final(self)@ == old(self)@ + le_bytes(v as nat, 8),
    ;

    fn write_u128_le(&mut self, v: u128)
        ensures
            final(self)@ == old(self)@ + le_bytes(v as nat, 16),
    ;

    fn write_all(&mut self, data: &[u8])
        ensures
            final(self)@ == old(self)@ + data@,
    ;
}

impl WriteBytesExt for BinaryWriter {
    fn write_u16_be(&mut self, v: u16) {
        proof { lemma_pow256_values() }
        self.write_be(v as u128, 2);
    }

    fn write_u24_be(&mut self, v: u32) {
        proof { lemma_pow256_values() }
        self.write_be(v as u128, 3);
    }

    fn write_u32_be(&mut self, v: u32) {
        proof { lemma_pow256_values() }
        self.write_be(v as u128, 4);
    }

    fn write_u64_be(&mut self, v: u64) {
        proof { lemma_pow256_values() }
        self.write_be(v as u128, 8);
    }

    fn write_u128_be(&mut self, v: u128) {
        proof { lemma_pow256_values() }
        self.write_be(v, 16);
    }

    fn write_u16_le(&mut self, v: u16) {
        proof { lemma_pow256_values() }
        self.write_le(v as u128, 2);
    }

    fn write_u24_le(&mut self, v: u32) {
        proof { lemma_pow256_values() }
        self.write_le(v as u128, 3);
    }

    fn write_u32_le(&mut self, v: u32) {
        proof { lemma_pow256_values() }
        self.write_le(v as u128, 4);
    }

    fn write_u64_le(&mut self, v: u64) {
        proof { lemma_pow256_values() }
        self.write_le(v as u128, 8);
    }

    fn write_u128_le(&mut self, v: u128) {
        proof { lemma_pow256_values() }
        self.write_le(v, 16);
    }

    fn write_all(&mut self, data: &[u8]) {
        self.write_bytes(data);
    }
}

/// Encode a value into a fresh byte vector.
pub fn encode_to_vec<T: BinaryEncode>(value: &T) -> (r: Result<Vec<u8>, BytesCodingError>)
    ensures
        r is Ok <==> value.spec_encodable(),
        r is Ok ==> r->Ok_0@ == value.spec_encoding(),
        r is Err ==> r->Err_0 == BytesCodingError::InvalidInput,
{
    let mut writer = BinaryWriter::new();
    match value.encode(&mut writer) {
        Ok(()) => {
            proof {
                assert(Seq::<u8>::empty() + value.spec_encoding() =~= value.spec_encoding());
            }
            Ok(writer.into_vec())
        },
        Err(e) => Err(e),
    }
}

} // verus!
