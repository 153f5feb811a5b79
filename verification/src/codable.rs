//! Errors shared by everything that reads or writes the wire format.

use vstd::prelude::*;

verus! {

/// Why a value could not be read from, or written to, a byte buffer.
#[derive(Clone, Copy, Debug, PartialEq, Eq, Structural)]
pub enum BytesCodingError {
    /// The buffer holds fewer bytes than the value needs.
    NotEnoughRemaining,
    /// The value cannot be written in the wire format, for instance a
    /// string longer than its 16-bit length field can describe.
    InvalidInput,
    /// The bytes are well delimited but hold no legal value, for instance
    /// text that is not UTF-8 or an unknown address family.
    InvalidData,
}

} // verus!
