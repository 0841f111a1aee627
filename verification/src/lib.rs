//! Handshake and wire-codec core of a TLS 1.3 client sized for
//! memory-constrained environments: fixed-capacity buffers, a zero-copy
//! parser, a bounded extension codec, a key schedule, an authenticated
//! record layer and the handshake state machine, all with verified
//! contracts. Transport I/O, randomness and the concrete cryptographic
//! primitives stay outside, behind the [`cipher_suite::CipherSuite`]
//! boundary.
use vstd::prelude::*;

pub mod wire;
pub mod parse_buffer;
pub mod buffer;
pub mod extensions;
pub mod cipher_suite;
pub mod key_schedule;
pub mod record;
pub mod handshake;

use crate::parse_buffer::ParseError;

verus! {

/// A failure anywhere in the TLS core.
#[derive(Clone, Copy, Debug, PartialEq, Eq, Structural)]
pub enum TlsError {
    /// A wire structure could not be read.
    ParseError(ParseError),
    /// An encoding would not fit its buffer or its length field.
    EncodeError,
    /// A handshake message arrived out of order.
    UnexpectedMessage,
    /// A signature, verify-data or record authentication check failed.
    CryptoError,
    /// A record header was malformed.
    InvalidRecord,
    /// The per-direction record sequence number would wrap.
    RecordSequenceOverflow,
    /// A fixed-capacity reassembly or transcript area is full.
    InsufficientSpace,
    /// The connection is closed or failed; no further data moves.
    ConnectionClosed,
}

} // verus!
