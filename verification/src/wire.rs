//! Byte strings for fixed-width unsigned integers, in both byte orders.
//!
//! The wire format stores multi-byte integers either big-endian or
//! little-endian.  `be_bytes` / `le_bytes` give the byte string of a value,
//! `parse_be` / `parse_le` read a value back, and the lemmas here show that
//! the two directions are inverse to each other.

use vstd::prelude::*;

verus! {

use vstd::arithmetic::div_mod::lemma_fundamental_div_mod;
use vstd::arithmetic::div_mod::lemma_div_denominator;
use vstd::arithmetic::div_mod::lemma_multiply_divide_lt;

/// 256 raised to the `n`-th power: the number of byte strings of length `n`.
pub open spec fn pow256(n: nat) -> nat
    decreases n,
{
    if n == 0 {
        1
    } else {
        256 * pow256((n - 1) as nat)
    }
}

/// The values of `pow256` for every width the wire format uses.
pub proof fn lemma_pow256_values()
    ensures
        pow256(0) == 1,
        pow256(1) == 0x100,
        pow256(2) == 0x10000,
        pow256(3) == 0x1000000,
        pow256(4) == 0x100000000,
        pow256(8) == 0x10000000000000000,
        pow256(16) == 0x100000000000000000000000000000000,
{
    reveal_with_fuel(pow256, 17);
}

/// `pow256` is always positive.
pub proof fn lemma_pow256_pos(n: nat)
    ensures
        pow256(n) >= 1,
    decreases n,
{
    if n > 0 {
        lemma_pow256_pos((n - 1) as nat);
    }
}

/// `pow256` never shrinks as the width grows.
pub proof fn lemma_pow256_monotone(m: nat, n: nat)
    requires
        m <= n,
    ensures
        pow256(m) <= pow256(n),
    decreases n,
{
    if m < n {
        lemma_pow256_monotone(m, (n - 1) as nat);
    }
}

/// The big-endian byte string of length `n` for the value `v`.
pub open spec fn be_bytes(v: nat, n: nat) -> Seq<u8>
    decreases n,
{
    if n == 0 {
        Seq::empty()
    } else {
        be_bytes(v / 256, (n - 1) as nat).push((v % 256) as u8)
    }
}

/// The little-endian byte string of length `n` for the value `v`.
pub open spec fn le_bytes(v: nat, n: nat) -> Seq<u8>
    decreases n,
{
    if n == 0 {
        Seq::empty()
    } else {
        seq![(v % 256) as u8] + le_bytes(v / 256, (n - 1) as nat)
    }
}

/// The value stored big-endian in the byte string `s`.
pub open spec fn parse_be(s: Seq<u8>) -> nat
    decreases s.len(),
{
    if s.len() == 0 {
        0
    } else {
        parse_be(s.drop_last()) * 256 + (s.last() as nat)
    }
}

/// The value stored little-endian in the byte string `s`.
pub open spec fn parse_le(s: Seq<u8>) -> nat
    decreases s.len(),
{
    if s.len() == 0 {
        0
    } else {
        (s.first() as nat) + 256 * parse_le(s.drop_first())
    }
}

pub proof fn lemma_be_bytes_len(v: nat, n: nat)
    ensures
        be_bytes(v, n).len() == n,
    decreases n,
{
    if n > 0 {
        lemma_be_bytes_len(v / 256, (n - 1) as nat);
    }
}

pub proof fn lemma_le_bytes_len(v: nat, n: nat)
    ensures
        le_bytes(v, n).len() == n,
    decreases n,
{
    if n > 0 {
        lemma_le_bytes_len(v / 256, (n - 1) as nat);
    }
}

/// A value read from `n` bytes is below `pow256(n)`.
pub proof fn lemma_parse_be_bound(s: Seq<u8>)
    ensures
        parse_be(s) < pow256(s.len()),
    decreases s.len(),
{
    if s.len() > 0 {
        lemma_parse_be_bound(s.drop_last());
    }
}

/// A value read from `n` bytes is below `pow256(n)`.
pub proof fn lemma_parse_le_bound(s: Seq<u8>)
    ensures
        parse_le(s) < pow256(s.len()),
    decreases s.len(),
{
    if s.len() > 0 {
        lemma_parse_le_bound(s.drop_first());
    }
}

/// Reading back the big-endian byte string of `v` yields `v`.
pub proof fn lemma_parse_be_bytes(v: nat, n: nat)
    requires
        v < pow256(n),
    ensures
        parse_be(be_bytes(v, n)) == v,
    decreases n,
{
    if n > 0 {
        let rest = be_bytes(v / 256, (n - 1) as nat);
        let b = (v % 256) as u8;
        lemma_be_bytes_len(v / 256, (n - 1) as nat);
        assert(rest.push(b).drop_last() =~= rest);
        lemma_multiply_divide_lt(v as int, 256, pow256((n - 1) as nat) as int);
        lemma_parse_be_bytes(v / 256, (n - 1) as nat);
        lemma_fundamental_div_mod(v as int, 256);
    }
}

/// Reading back the little-endian byte string of `v` yields `v`.
pub proof fn lemma_parse_le_bytes(v: nat, n: nat)
    requires
        v < pow256(n),
    ensures
        parse_le(le_bytes(v, n)) == v,
    decreases n,
{
    if n > 0 {
        let rest = le_bytes(v / 256, (n - 1) as nat);
        let b = (v % 256) as u8;
        lemma_le_bytes_len(v / 256, (n - 1) as nat);
        assert((seq![b] + rest).drop_first() =~= rest);
        assert((seq![b] + rest).first() == b);
        lemma_multiply_divide_lt(v as int, 256, pow256((n - 1) as nat) as int);
        lemma_parse_le_bytes(v / 256, (n - 1) as nat);
        lemma_fundamental_div_mod(v as int, 256);
    }
}

/// The byte at position `i` of a big-endian byte string.
pub proof fn lemma_be_bytes_index(v: nat, n: nat, i: int)
    requires
        0 <= i < n,
    ensures
        be_bytes(v, n).len() == n,
        be_bytes(v, n)[i] == ((v / pow256((n - 1 - i) as nat)) % 256) as u8,
    decreases n,
{
    lemma_be_bytes_len(v, n);
    lemma_be_bytes_len(v / 256, (n - 1) as nat);
    if i == n - 1 {
        assert(pow256(0) == 1);
        assert(v / 1 == v) by (nonlinear_arith);
    } else {
        lemma_be_bytes_index(v / 256, (n - 1) as nat, i);
        let k = (n - 2 - i) as nat;
        lemma_pow256_pos(k);
        lemma_div_denominator(v as int, 256, pow256(k) as int);
        assert(256 * pow256(k) == pow256((k + 1) as nat));
    }
}

/// The byte at position `i` of a little-endian byte string.
pub proof fn lemma_le_bytes_index(v: nat, n: nat, i: int)
    requires
        0 <= i < n,
    ensures
        le_bytes(v, n).len() == n,
        le_bytes(v, n)[i] == ((v / pow256(i as nat)) % 256) as u8,
    decreases n,
{
    lemma_le_bytes_len(v, n);
    lemma_le_bytes_len(v / 256, (n - 1) as nat);
    if i == 0 {
        assert(pow256(0) == 1);
        assert(v / 1 == v) by (nonlinear_arith);
    } else {
        lemma_le_bytes_index(v / 256, (n - 1) as nat, i - 1);
        let k = (i - 1) as nat;
        lemma_pow256_pos(k);
        lemma_div_denominator(v as int, 256, pow256(k) as int);
        assert(256 * pow256(k) == pow256((k + 1) as nat));
    }
}

} // verus!
