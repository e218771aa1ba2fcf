//! Why a datagram was not decoded.

use vstd::prelude::*;

verus! {

/// The ways in which decoding a packet fails. Each failure concerns the one
/// packet that was given.
#[derive(Debug, Clone, Copy, PartialEq, Eq, Structural)]
pub enum DecodeError {
    /// The four bytes after the header's length byte are not `LSDP`.
    BadMagic,
    /// The input ends before the item that is being read is complete.
    Truncated,
    /// An address field holds this many octets, which is neither 4 nor 16.
    BadAddressLength(usize),
    /// The bytes of a string field are not well-formed UTF-8.
    InvalidUtf8,
}

} // verus!
