//! A bounded byte cursor and the decoding side of the wire codec.

use vstd::prelude::*;

verus! {

use crate::codable::BytesCodingError;
use crate::wire::parse_be;
use crate::wire::parse_le;
use crate::wire::pow256;
use crate::wire::lemma_parse_be_bound;
use crate::wire::lemma_parse_le_bound;
use crate::wire::lemma_pow256_monotone;
use crate::wire::lemma_pow256_values;

/// A cursor over an owned byte buffer.  Reads move a position forward and
/// fail with [`BytesCodingError::NotEnoughRemaining`] instead of running
/// past the end.
pub struct BinaryReader {
    data: Vec<u8>,
    pos: usize,
}

/// A value that can be read from a [`BinaryReader`].
///
/// `spec_parse` is the one parsing function both the implementation and
/// its callers reason about: given the bytes still unread it yields the
/// parsed abstract value and the number of bytes it takes, or nothing when
/// the bytes hold no such value.  `spec_parse_err` names the error
/// returned in the latter case.
pub trait BinaryDecode: Sized + View {
    /// The value at the front of `s`, with the number of bytes it occupies.
    spec fn spec_parse(s: Seq<u8>) -> Option<(Self::V, nat)>;

    /// The error reported when `s` holds no value.
    spec fn spec_parse_err(s: Seq<u8>) -> BytesCodingError;

    /// Read one value, advancing the reader over exactly its bytes.
    fn decode(reader: &mut BinaryReader) -> (r: Result<Self, BytesCodingError>)
        ensures
            match Self::spec_parse(old(reader).spec_remaining()) {
                Some((v, n)) => r is Ok && r->Ok_0@ == v && final(reader).spec_remaining()
                    == old(reader).spec_remaining().skip(n as int),
                None => r is Err && r->Err_0 == Self::spec_parse_err(
                    old(reader).spec_remaining(),
                ),
            },
            final(reader).spec_remaining().len() <= old(reader).spec_remaining().len(),
    ;
}

impl BinaryReader {
    #[verifier::type_invariant]
    spec fn type_inv(self) -> bool {
        self.pos <= self.data@.len()
    }

    /// The bytes not yet consumed.
    pub closed spec fn spec_remaining(self) -> Seq<u8> {
        self.data@.skip(self.pos as int)
    }

    pub fn new(buf: Vec<u8>) -> (r: BinaryReader)
        ensures
            r.spec_remaining() == buf@,
    {
        proof {
            assert(buf@.skip(0) =~= buf@);
        }
        BinaryReader { data: buf, pos: 0 }
    }

    /// How many bytes are left to read.
    pub fn remains(&self) -> (n: usize)
        ensures
            n == self.spec_remaining().len(),
    {
        proof {
            use_type_invariant(self);
        }
        self.data.len() - self.pos
    }

    /// Read one value of any decodable type.
    pub fn read<T: BinaryDecode>(&mut self) -> (r: Result<T, BytesCodingError>)
        ensures
            match T::spec_parse(old(self).spec_remaining()) {
                Some((v, n)) => r is Ok && r->Ok_0@ == v && final(self).spec_remaining()
                    == old(self).spec_remaining().skip(n as int),
                None => r is Err && r->Err_0 == T::spec_parse_err(old(self).spec_remaining()),
            },
            final(self).spec_remaining().len() <= old(self).spec_remaining().len(),
    {
        T::decode(self)
    }

    /// Read `n` raw bytes.
    pub fn read_bytes(&mut self, n: usize) -> (r: Result<Vec<u8>, BytesCodingError>)
        ensures
            r is Ok <==> n <= old(self).spec_remaining().len(),
            r is Ok ==> r->Ok_0@ == old(self).spec_remaining().take(n as int) && final(self).spec_remaining() == old(self).spec_remaining().skip(n as int),
            r is Err ==> r->Err_0 == BytesCodingError::NotEnoughRemaining && *final(self) == *old(self),
    {
        proof {
            use_type_invariant(&*self);
        }
        if self.data.len() - self.pos < n {
            return Err(BytesCodingError::NotEnoughRemaining);
        }
        let mut out: Vec<u8> = Vec::new();
        let end = self.pos + n;
        let mut idx = self.pos;
        while idx < end
            invariant
                self.pos <= idx <= end,
                end == self.pos + n,
                end <= self.data@.len(),
                out@ =~= self.data@.skip(self.pos as int).take(n as int).take(
                    idx - self.pos as int,
                ),
            decreases end - idx,
        {
            let b = self.data[idx];
            out.push(b);
            idx += 1;
        }
        self.pos = self.pos + n;
        proof {
            assert(old(self).spec_remaining().take(n as int).take(n as int) =~= old(self).spec_remaining().take(n as int));
            assert(self.data@.skip((old(self).pos + n) as int) =~= old(self).spec_remaining().skip(n as int));
        }
        Ok(out)
    }

    /// Read one byte.
    pub fn read_u8(&mut self) -> (r: Result<u8, BytesCodingError>)
        ensures
            r is Ok <==> old(self).spec_remaining().len() >= 1,
            r is Ok ==> r->Ok_0 == old(self).spec_remaining()[0] && final(self).spec_remaining()
                == old(self).spec_remaining().skip(1),
            r is Err ==> r->Err_0 == BytesCodingError::NotEnoughRemaining && *final(self) == *old(self),
    {
        proof {
            use_type_invariant(&*self);
        }
        if self.pos >= self.data.len() {
            return Err(BytesCodingError::NotEnoughRemaining);
        }
        let b = self.data[self.pos];
        self.pos = self.pos + 1;
        proof {
            assert(self.data@.skip(self.pos as int) =~= old(self).spec_remaining().skip(1));
        }
        Ok(b)
    }

    /// Read `n` bytes as one big-endian value.
    fn read_be(&mut self, n: usize) -> (r: Result<u128, BytesCodingError>)
        requires
            n <= 16,
        ensures
            r is Ok <==> n <= old(self).spec_remaining().len(),
            r is Ok ==> r->Ok_0 as nat == parse_be(old(self).spec_remaining().take(n as int))
                && final(self).spec_remaining() == old(self).spec_remaining().skip(n as int),
            r is Err ==> r->Err_0 == BytesCodingError::NotEnoughRemaining && *final(self) == *old(self),
    {
        let bytes = match self.read_bytes(n) {
            Ok(bytes) => bytes,
            Err(e) => {
                return Err(e);
            },
        };
        let mut acc: u128 = 0;
        let mut i: usize = 0;
        while i < n
            invariant
                i <= n <= 16,
                bytes@.len() == n,
                acc as nat == parse_be(bytes@.take(i as int)),
                (acc as nat) < pow256(i as nat),
            decreases n - i,
        {
            proof {
                lemma_pow256_values();
                lemma_pow256_monotone((i + 1) as nat, 16);
                assert(bytes@.take(i + 1).drop_last() =~= bytes@.take(i as int));
                assert(bytes@.take(i + 1).last() == bytes@[i as int]);
            }
            acc = acc * 256 + (bytes[i] as u128);
            i += 1;
        }
        proof {
            assert(bytes@.take(n as int) =~= bytes@);
        }
        Ok(acc)
    }

    /// Read `n` bytes as one little-endian value.
    fn read_le(&mut self, n: usize) -> (r: Result<u128, BytesCodingError>)
        requires
            n <= 16,
        ensures
            r is Ok <==> n <= old(self).spec_remaining().len(),
            r is Ok ==> r->Ok_0 as nat == parse_le(old(self).spec_remaining().take(n as int))
                && final(self).spec_remaining() == old(self).spec_remaining().skip(n as int),
            r is Err ==> r->Err_0 == BytesCodingError::NotEnoughRemaining && *final(self) == *old(self),
    {
        let bytes = match self.read_bytes(n) {
            Ok(bytes) => bytes,
            Err(e) => {
                return Err(e);
            },
        };
        let mut acc: u128 = 0;
        let mut i: usize = n;
        while i > 0
            invariant
                i <= n <= 16,
                bytes@.len() == n,
                acc as nat == parse_le(bytes@.skip(i as int)),
                (acc as nat) < pow256((n - i) as nat),
            decreases i,
        {
            proof {
                lemma_pow256_values();
                lemma_pow256_monotone((n - i + 1) as nat, 16);
                assert(bytes@.skip(i - 1).drop_first() =~= bytes@.skip(i as int));
                assert(bytes@.skip(i - 1).first() == bytes@[i - 1]);
            }
            acc = acc * 256 + (bytes[i - 1] as u128);
            i -= 1;
        }
        proof {
            assert(bytes@.skip(0) =~= bytes@);
        }
        Ok(acc)
    }
}

/// Reading fixed-width integers in either byte order.
pub trait ReadBytesExt {
    /// The bytes the source has not yet handed out.
    spec fn stream(&self) -> Seq<u8>;

    fn read_u16_be(&mut self) -> (r: Result<u16, BytesCodingError>)
        ensures
            r is Ok <==> old(self).stream().len() >= 2,
            r is Ok ==> r->Ok_0 as nat == parse_be(old(self).stream().take(2)) && final(self).stream() == old(self).stream().skip(2),
            r is Err ==> r->Err_0 == BytesCodingError::NotEnoughRemaining && final(self).stream()
                == old(self).stream(),
    ;

    fn read_u24_be(&mut self) -> (r: Result<u32, BytesCodingError>)
        ensures
            r is Ok <==> old(self).stream().len() >= 3,
            r is Ok ==> r->Ok_0 as nat == parse_be(old(self).stream().take(3)) && final(self).stream() == old(self).stream().skip(3),
            r is Err ==> r->Err_0 == BytesCodingError::NotEnoughRemaining && final(self).stream()
                == old(self).stream(),
    ;

    fn read_u32_be(&mut self) -> (r: Result<u32, BytesCodingError>)
        ensures
            r is Ok <==> old(self).stream().len() >= 4,
            r is Ok ==> r->Ok_0 as nat == parse_be(old(self).stream().take(4)) && final(self).stream() == old(self).stream().skip(4),
            r is Err ==> r->Err_0 == BytesCodingError::NotEnoughRemaining && final(self).stream()
                == old(self).stream(),
    ;

    fn read_u64_be(&mut self) -> (r: Result<u64, BytesCodingError>)
        ensures
            r is Ok <==> old(self).stream().len() >= 8,
            r is Ok ==> r->Ok_0 as nat == parse_be(old(self).stream().take(8)) && final(self).stream() == old(self).stream().skip(8),
            r is Err ==> r->Err_0 == BytesCodingError::NotEnoughRemaining && final(self).stream()
                == old(self).stream(),
    ;

    fn read_u128_be(&mut self) -> (r: Result<u128, BytesCodingError>)
        ensures
            r is Ok <==> old(self).stream().len() >= 16,
            r is Ok ==> r->Ok_0 as nat == parse_be(old(self).stream().take(16)) && final(self).stream() == old(self).stream().skip(16),
            r is Err ==> r->Err_0 == BytesCodingError::NotEnoughRemaining && final(self).stream()
                == old(self).stream(),
    ;

    fn read_u16_le(&mut self) -> (r: Result<u16, BytesCodingError>)
        ensures
            r is Ok <==> old(self).stream().len() >= 2,
            r is Ok ==> r->Ok_0 as nat == parse_le(old(self).stream().take(2)) && final(self).stream() == old(self).stream().skip(2),
            r is Err ==> r->Err_0 == BytesCodingError::NotEnoughRemaining && final(self).stream()
                == old(self).stream(),
    ;

    fn read_u24_le(&mut self) -> (r: Result<u32, BytesCodingError>)
        ensures
            r is Ok <==> old(self).stream().len() >= 3,
            r is Ok ==> r->Ok_0 as nat == parse_le(old(self).stream().take(3)) && final(self).stream() == old(self).stream().skip(3),
            r is Err ==> r->Err_0 == BytesCodingError::NotEnoughRemaining && final(self).stream()
                == old(self).stream(),
    ;

    fn read_u32_le(&mut self) -> (r: Result<u32, BytesCodingError>)
        ensures
            r is Ok <==> old(self).stream().len() >= 4,
            r is Ok ==> r->Ok_0 as nat == parse_le(old(self).stream().take(4)) && final(self).stream() == old(self).stream().skip(4),
            r is Err ==> r->Err_0 == BytesCodingError::NotEnoughRemaining && final(self).stream()
                == old(self).stream(),
    ;

    fn read_u64_le(&mut self) -> (r: Result<u64, BytesCodingError>)
        ensures
            r is Ok <==> old(self).stream().len() >= 8,
            r is Ok ==> r->Ok_0 as nat == parse_le(old(self).stream().take(8)) && final(self).stream() == old(self).stream().skip(8),
            r is Err ==> r->Err_0 == BytesCodingError::NotEnoughRemaining && final(self).stream()
                == old(self).stream(),
    ;

    fn read_u128_le(&mut self) -> (r: Result<u128, BytesCodingError>)
        ensures
            r is Ok <==> old(self).stream().len() >= 16,
            r is Ok ==> r->Ok_0 as nat == parse_le(old(self).stream().take(16)) && final(self).stream() == old(self).stream().skip(16),
            r is Err ==> r->Err_0 == BytesCodingError::NotEnoughRemaining && final(self).stream()
                == old(self).stream(),
    ;

    fn read_exact(&mut self, n: usize) -> (r: Result<Vec<u8>, BytesCodingError>)
        ensures
            r is Ok <==> old(self).stream().len() >= n,
            r is Ok ==> r->Ok_0@ == old(self).stream().take(n as int) && final(self).stream()
                == old(self).stream().skip(n as int),
            r is Err ==> r->Err_0 == BytesCodingError::NotEnoughRemaining && final(self).stream()
                == old(self).stream(),
    ;
}

impl ReadBytesExt for BinaryReader {
    open spec fn stream(&self) -> Seq<u8> {
        self.spec_remaining()
    }

    fn read_u16_be(&mut self) -> (r: Result<u16, BytesCodingError>) {
        proof {
            lemma_pow256_values();
            lemma_parse_be_bound(old(self).spec_remaining().take(2));
        }
        match self.read_be(2) {
            Ok(v) => Ok(v as u16),
            Err(e) => Err(e),
        }
    }

    fn read_u24_be(&mut self) -> (r: Result<u32, BytesCodingError>) {
        proof {
            lemma_pow256_values();
            lemma_parse_be_bound(old(self).spec_remaining().take(3));
        }
        match self.read_be(3) {
            Ok(v) => Ok(v as u32),
            Err(e) => Err(e),
        }
    }

    fn read_u32_be(&mut self) -> (r: Result<u32, BytesCodingError>) {
        proof {
            lemma_pow256_values();
            lemma_parse_be_bound(old(self).spec_remaining().take(4));
        }
        match self.read_be(4) {
            Ok(v) => Ok(v as u32),
            Err(e) => Err(e),
        }
    }

    fn read_u64_be(&mut self) -> (r: Result<u64, BytesCodingError>) {
        proof {
            lemma_pow256_values();
            lemma_parse_be_bound(old(self).spec_remaining().take(8));
        }
        match self.read_be(8) {
            Ok(v) => Ok(v as u64),
            Err(e) => Err(e),
        }
    }

    fn read_u128_be(&mut self) -> (r: Result<u128, BytesCodingError>) {
        self.read_be(16)
    }

    fn read_u16_le(&mut self) -> (r: Result<u16, BytesCodingError>) {
        proof {
            lemma_pow256_values();
            lemma_parse_le_bound(old(self).spec_remaining().take(2));
        }
        match self.read_le(2) {
            Ok(v) => Ok(v as u16),
            Err(e) => Err(e),
        }
    }

    fn read_u24_le(&mut self) -> (r: Result<u32, BytesCodingError>) {
        proof {
            lemma_pow256_values();
            lemma_parse_le_bound(old(self).spec_remaining().take(3));
        }
        match self.read_le(3) {
            Ok(v) => Ok(v as u32),
            Err(e) => Err(e),
        }
    }

    fn read_u32_le(&mut self) -> (r: Result<u32, BytesCodingError>) {
        proof {
            lemma_pow256_values();
            lemma_parse_le_bound(old(self).spec_remaining().take(4));
        }
        match self.read_le(4) {
            Ok(v) => Ok(v as u32),
            Err(e) => Err(e),
        }
    }

    fn read_u64_le(&mut self) -> (r: Result<u64, BytesCodingError>) {
        proof {
            lemma_pow256_values();
            lemma_parse_le_bound(old(self).spec_remaining().take(8));
        }
        match self.read_le(8) {
            Ok(v) => Ok(v as u64),
            Err(e) => Err(e),
        }
    }

    fn read_u128_le(&mut self) -> (r: Result<u128, BytesCodingError>) {
        self.read_le(16)
    }

    fn read_exact(&mut self, n: usize) -> (r: Result<Vec<u8>, BytesCodingError>) {
        self.read_bytes(n)
    }
}

} // verus!
