//! Specification-level description of the wire integer formats.
//!
//! Every multi-byte integer on the wire is big-endian. These spec functions
//! are the single definition of that layout; the parser and the encoder are
//! both proved against them.
use vstd::prelude::*;

verus! {

/// The one-byte encoding of `n` (`n < 256`).
pub open spec fn be_u8(n: nat) -> Seq<u8> {
    seq![n as u8]
}

/// The two-byte big-endian encoding of `n` (`n < 0x10000`).
pub open spec fn be_u16(n: nat) -> Seq<u8> {
    seq![((n / 256) % 256) as u8, (n % 256) as u8]
}

/// The three-byte big-endian encoding of `n` (`n < 0x1000000`).
pub open spec fn be_u24(n: nat) -> Seq<u8> {
    seq![((n / 65536) % 256) as u8, ((n / 256) % 256) as u8, (n % 256) as u8]
}

/// The value denoted by two big-endian bytes.
pub open spec fn u16_value(hi: u8, lo: u8) -> nat {
    hi as nat * 256 + lo as nat
}

/// The value denoted by three big-endian bytes.
pub open spec fn u24_value(b0: u8, b1: u8, b2: u8) -> nat {
    b0 as nat * 65536 + b1 as nat * 256 + b2 as nat
}

/// Reading back the two-byte encoding gives the value, and the encoding is
/// the only two-byte sequence that does: `be_u16` and `u16_value` are
/// mutually inverse below `0x10000`.
pub proof fn lemma_be_u16_value(n: nat)
    requires
        n < 0x10000,
    ensures
        u16_value(be_u16(n)[0], be_u16(n)[1]) == n,
        be_u16(n).len() == 2,
{
}

/// `be_u16` applied to the value of two bytes gives those bytes back.
pub proof fn lemma_u16_value_be(hi: u8, lo: u8)
    ensures
        u16_value(hi, lo) < 0x10000,
        be_u16(u16_value(hi, lo)) =~= seq![hi, lo],
{
}

/// A byte sequence is ASCII when every byte is below 128.
pub open spec fn ascii_bytes(s: Seq<u8>) -> bool {
    forall|i: int| 0 <= i < s.len() ==> s[i] < 128
}

} // verus!
