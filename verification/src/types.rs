//! Wire-level string and socket-address values.

use vstd::prelude::*;

verus! {

use vstd::utf8::valid_utf8;
use vstd::utf8::decode_utf8;
use vstd::utf8::encode_utf8;
use vstd::utf8::encode_utf8_valid_utf8;
use vstd::utf8::encode_utf8_decode_utf8;
use crate::codable::BytesCodingError;
use crate::reader::BinaryDecode;
use crate::reader::BinaryReader;
use crate::reader::ReadBytesExt;
use crate::wire::be_bytes;
use crate::wire::le_bytes;
use crate::wire::parse_be;
use crate::wire::parse_le;
use crate::wire::lemma_be_bytes_len;
use crate::wire::lemma_le_bytes_len;
use crate::wire::lemma_parse_be_bound;
use crate::wire::lemma_parse_be_bytes;
use crate::wire::lemma_parse_le_bytes;
use crate::wire::lemma_pow256_values;
use crate::writer::BinaryEncode;
use crate::writer::BinaryWriter;
use crate::writer::WriteBytesExt;

/// A string as the wire carries it: a two-byte big-endian length followed
/// by that many bytes of UTF-8.  Strings longer than the length field can
/// describe are rejected at encoding time.
#[derive(Debug)]
pub struct RakString(pub String);

impl RakString {
    /// The longest byte length the two-byte length field can describe.
    pub open spec fn max_len() -> nat {
        65535
    }

    pub fn into_inner(self) -> (r: String)
        ensures
            r@ == self@,
    {
        self.0
    }
}

impl View for RakString {
    type V = Seq<char>;

    open spec fn view(&self) -> Seq<char> {
        self.0@
    }
}

/// Relies on `String::from_utf8`: it succeeds exactly on valid UTF-8 and
/// returns the string those bytes spell.
#[verifier::external_body]
fn string_from_utf8(bytes: Vec<u8>) -> (r: Option<String>)
    ensures
        r is Some <==> valid_utf8(bytes@),
        r is Some ==> r->Some_0@ == decode_utf8(bytes@),
{
    String::from_utf8(bytes).ok()
}

/// The byte string a text value encodes to.
pub open spec fn spec_encode_rakstring(chars: Seq<char>) -> Seq<u8> {
    be_bytes(encode_utf8(chars).len(), 2) + encode_utf8(chars)
}

/// The text value at the front of `s` with the bytes it occupies.
pub open spec fn spec_parse_rakstring(s: Seq<u8>) -> Option<(Seq<char>, nat)> {
    if s.len() < 2 {
        None
    } else {
        let len = parse_be(s.subrange(0, 2));
        if s.len() < 2 + len {
            None
        } else if valid_utf8(s.subrange(2, 2 + len as int)) {
            Some((decode_utf8(s.subrange(2, 2 + len as int)), (2 + len) as nat))
        } else {
            None
        }
    }
}

/// The error a failed text parse reports: a short buffer, or bytes that
/// are not UTF-8.
pub open spec fn spec_parse_rakstring_err(s: Seq<u8>) -> BytesCodingError {
    if s.len() < 2 || s.len() < 2 + parse_be(s.subrange(0, 2)) {
        BytesCodingError::NotEnoughRemaining
    } else {
        BytesCodingError::InvalidData
    }
}

impl BinaryEncode for RakString {
    /// The string's UTF-8 form must fit the 16-bit length field.
    open spec fn spec_encodable(&self) -> bool {
        encode_utf8(self@).len() <= RakString::max_len()
    }

    open spec fn spec_encoding(&self) -> Seq<u8> {
        spec_encode_rakstring(self@)
    }

    fn encode(&self, writer: &mut BinaryWriter) -> (r: Result<(), BytesCodingError>) {
        let bytes = self.0.as_str().as_bytes();
        if bytes.len() > 65535 {
            return Err(BytesCodingError::InvalidInput);
        }
        writer.write_u16_be(bytes.len() as u16);
        writer.write_bytes(bytes);
        proof {
            assert(writer@ =~= old(writer)@ + spec_encode_rakstring(self@));
        }
        Ok(())
    }
}

impl BinaryDecode for RakString {
    open spec fn spec_parse(s: Seq<u8>) -> Option<(Seq<char>, nat)> {
        spec_parse_rakstring(s)
    }

    open spec fn spec_parse_err(s: Seq<u8>) -> BytesCodingError {
        spec_parse_rakstring_err(s)
    }

    fn decode(reader: &mut BinaryReader) -> (r: Result<Self, BytesCodingError>) {
        let ghost s = reader.spec_remaining();
        let len = match reader.read_u16_be() {
            Ok(v) => v,
            Err(e) => {
                return Err(e);
            },
        };
        proof {
            assert(s.skip(0).take(2) =~= s.subrange(0, 2));
            assert(s.skip(0) =~= s);
            lemma_pow256_values();
            lemma_parse_be_bound(s.subrange(0, 2));
        }
        let bytes = match reader.read_bytes(len as usize) {
            Ok(v) => v,
            Err(e) => {
                return Err(e);
            },
        };
        proof {
            assert(s.skip(2).take(len as int) =~= s.subrange(2, 2 + len));
            assert(s.skip(2).skip(len as int) =~= s.skip(2 + len));
        }
        match string_from_utf8(bytes) {
            Some(content) => Ok(RakString(content)),
            None => Err(BytesCodingError::InvalidData),
        }
    }
}

/// Encoding a string that fits the length field and parsing it back gives
/// the same text, with any trailing bytes untouched.
pub proof fn lemma_rakstring_round_trip(chars: Seq<char>, rest: Seq<u8>)
    requires
        encode_utf8(chars).len() <= RakString::max_len(),
    ensures
        spec_parse_rakstring(spec_encode_rakstring(chars) + rest) == Some(
            (chars, (2 + encode_utf8(chars).len()) as nat),
        ),
{
    let bytes = encode_utf8(chars);
    let e = spec_encode_rakstring(chars);
    let s = e + rest;
    lemma_pow256_values();
    lemma_be_bytes_len(bytes.len(), 2);
    lemma_parse_be_bytes(bytes.len(), 2);
    assert(s.subrange(0, 2) =~= be_bytes(bytes.len(), 2));
    assert(s.subrange(2, 2 + bytes.len() as int) =~= bytes);
    broadcast use encode_utf8_valid_utf8, encode_utf8_decode_utf8;

}

/// A socket address as plain values, shaped as the wire format stores it:
/// either an IPv4 address and port, or an IPv6 port, flow label, address
/// and scope.  IPv4 address bytes travel ones-complemented, as the
/// protocol requires.
#[derive(Clone, Copy, Debug, PartialEq, Eq, Structural)]
pub enum SystemAddress {
    V4 { ip: u32, port: u16 },
    V6 { port: u16, flowinfo: u32, ip: u128, scope_id: u32 },
}

impl View for SystemAddress {
    type V = SystemAddress;

    open spec fn view(&self) -> SystemAddress {
        *self
    }
}

/// The address-family byte for IPv6 on the wire.
pub const AF_INET6: u16 = 10;

/// The byte string an address encodes to.
pub open spec fn spec_encode_sysaddr(a: SystemAddress) -> Seq<u8> {
    match a {
        SystemAddress::V4 { ip, port } => seq![4u8] + be_bytes((!ip) as nat, 4) + be_bytes(
            port as nat,
            2,
        ),
        SystemAddress::V6 { port, flowinfo, ip, scope_id } => seq![6u8] + le_bytes(
            AF_INET6 as nat,
            2,
        ) + be_bytes(port as nat, 2) + le_bytes(flowinfo as nat, 4) + be_bytes(ip as nat, 16)
            + le_bytes(scope_id as nat, 4),
    }
}

/// The address at the front of `s` with the bytes it occupies.  The
/// leading byte selects the family; 4 and 6 are the only known ones.
pub open spec fn spec_parse_sysaddr(s: Seq<u8>) -> Option<(SystemAddress, nat)> {
    if s.len() < 1 {
        None
    } else if s[0] == 4 {
        if s.len() < 7 {
            None
        } else {
            Some(
                (
                    SystemAddress::V4 {
                        ip: !(parse_be(s.subrange(1, 5)) as u32),
                        port: parse_be(s.subrange(5, 7)) as u16,
                    },
                    7,
                ),
            )
        }
    } else if s[0] == 6 {
        if s.len() < 29 {
            None
        } else {
            Some(
                (
                    SystemAddress::V6 {
                        port: parse_be(s.subrange(3, 5)) as u16,
                        flowinfo: parse_le(s.subrange(5, 9)) as u32,
                        ip: parse_be(s.subrange(9, 25)) as u128,
                        scope_id: parse_le(s.subrange(25, 29)) as u32,
                    },
                    29,
                ),
            )
        }
    } else {
        None
    }
}

/// The error a failed address parse reports: an unknown family, or a
/// short buffer.
pub open spec fn spec_parse_sysaddr_err(s: Seq<u8>) -> BytesCodingError {
    if s.len() < 1 {
        BytesCodingError::NotEnoughRemaining
    } else if s[0] == 4 || s[0] == 6 {
        BytesCodingError::NotEnoughRemaining
    } else {
        BytesCodingError::InvalidData
    }
}

impl BinaryEncode for SystemAddress {
    open spec fn spec_encodable(&self) -> bool {
        true
    }

    open spec fn spec_encoding(&self) -> Seq<u8> {
        spec_encode_sysaddr(*self)
    }

    fn encode(&self, writer: &mut BinaryWriter) -> (r: Result<(), BytesCodingError>) {
        match *self {
            SystemAddress::V4 { ip, port } => {
                writer.write_u8(4);
                writer.write_u32_be(!ip);
                writer.write_u16_be(port);
            },
            SystemAddress::V6 { port, flowinfo, ip, scope_id } => {
                writer.write_u8(6);
                writer.write_u16_le(AF_INET6);
                writer.write_u16_be(port);
                writer.write_u32_le(flowinfo);
                writer.write_u128_be(ip);
                writer.write_u32_le(scope_id);
            },
        }
        proof {
            assert(writer@ =~= old(writer)@ + spec_encode_sysaddr(*self));
        }
        Ok(())
    }
}

impl BinaryDecode for SystemAddress {
    open spec fn spec_parse(s: Seq<u8>) -> Option<(SystemAddress, nat)> {
        spec_parse_sysaddr(s)
    }

    open spec fn spec_parse_err(s: Seq<u8>) -> BytesCodingError {
        spec_parse_sysaddr_err(s)
    }

    fn decode(reader: &mut BinaryReader) -> (r: Result<Self, BytesCodingError>) {
        let ghost s = reader.spec_remaining();
        let family = match reader.read_u8() {
            Ok(v) => v,
            Err(e) => {
                return Err(e);
            },
        };
        if family == 4 {
            let raw_ip = match reader.read_u32_be() {
                Ok(v) => v,
                Err(e) => {
                    return Err(e);
                },
            };
            proof {
                assert(s.skip(1).take(4) =~= s.subrange(1, 5));
                assert(s.skip(1).skip(4) =~= s.skip(5));
            }
            let port = match reader.read_u16_be() {
                Ok(v) => v,
                Err(e) => {
                    return Err(e);
                },
            };
            proof {
                assert(s.skip(5).take(2) =~= s.subrange(5, 7));
                assert(s.skip(5).skip(2) =~= s.skip(7));
            }
            Ok(SystemAddress::V4 { ip: !raw_ip, port })
        } else if family == 6 {
            let _family16 = match reader.read_u16_le() {
                Ok(v) => v,
                Err(e) => {
                    return Err(e);
                },
            };
            proof {
                assert(s.skip(1).skip(2) =~= s.skip(3));
            }
            let port = match reader.read_u16_be() {
                Ok(v) => v,
                Err(e) => {
                    return Err(e);
                },
            };
            proof {
                assert(s.skip(3).take(2) =~= s.subrange(3, 5));
                assert(s.skip(3).skip(2) =~= s.skip(5));
            }
            let flowinfo = match reader.read_u32_le() {
                Ok(v) => v,
                Err(e) => {
                    return Err(e);
                },
            };
            proof {
                assert(s.skip(5).take(4) =~= s.subrange(5, 9));
                assert(s.skip(5).skip(4) =~= s.skip(9));
            }
            let ip = match reader.read_u128_be() {
                Ok(v) => v,
                Err(e) => {
                    return Err(e);
                },
            };
            proof {
                assert(s.skip(9).take(16) =~= s.subrange(9, 25));
                assert(s.skip(9).skip(16) =~= s.skip(25));
            }
            let scope_id = match reader.read_u32_le() {
                Ok(v) => v,
                Err(e) => {
                    return Err(e);
                },
            };
            proof {
                assert(s.skip(25).take(4) =~= s.subrange(25, 29));
                assert(s.skip(25).skip(4) =~= s.skip(29));
            }
            Ok(SystemAddress::V6 { port, flowinfo, ip, scope_id })
        } else {
            Err(BytesCodingError::InvalidData)
        }
    }
}

/// Encoding an address and parsing it back gives the same address, with
/// any trailing bytes untouched.
pub proof fn lemma_sysaddr_round_trip(a: SystemAddress, rest: Seq<u8>)
    ensures
        spec_parse_sysaddr(spec_encode_sysaddr(a) + rest) == Some(
            (a, spec_encode_sysaddr(a).len() as nat),
        ),
{
    let e = spec_encode_sysaddr(a);
    let s = e + rest;
    lemma_pow256_values();
    match a {
        SystemAddress::V4 { ip, port } => {
            lemma_be_bytes_len((!ip) as nat, 4);
            lemma_be_bytes_len(port as nat, 2);
            lemma_parse_be_bytes((!ip) as nat, 4);
            lemma_parse_be_bytes(port as nat, 2);
            assert(s[0] == 4);
            assert(s.subrange(1, 5) =~= be_bytes((!ip) as nat, 4));
            assert(s.subrange(5, 7) =~= be_bytes(port as nat, 2));
            assert(!(!ip) == ip) by (bit_vector);
        },
        SystemAddress::V6 { port, flowinfo, ip, scope_id } => {
            lemma_le_bytes_len(AF_INET6 as nat, 2);
            lemma_be_bytes_len(port as nat, 2);
            lemma_le_bytes_len(flowinfo as nat, 4);
            lemma_be_bytes_len(ip as nat, 16);
            lemma_le_bytes_len(scope_id as nat, 4);
            lemma_parse_be_bytes(port as nat, 2);
            lemma_parse_le_bytes(flowinfo as nat, 4);
            lemma_parse_be_bytes(ip as nat, 16);
            lemma_parse_le_bytes(scope_id as nat, 4);
            assert(s[0] == 6);
            assert(s.subrange(3, 5) =~= be_bytes(port as nat, 2));
            assert(s.subrange(5, 9) =~= le_bytes(flowinfo as nat, 4));
            assert(s.subrange(9, 25) =~= be_bytes(ip as nat, 16));
            assert(s.subrange(25, 29) =~= le_bytes(scope_id as nat, 4));
        },
    }
}

} // verus!
