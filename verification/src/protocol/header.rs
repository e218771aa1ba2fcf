//! The six bytes in front of every packet.

use crate::protocol::error::DecodeError;
use crate::protocol::wire::{be_u8, parsed_view, put_bytes, spec_u8, Parsed};
use vstd::prelude::*;
use vstd::slice::slice_subrange;

verus! {

/// The header of a packet. Between its two bytes the wire carries the four
/// letters `LSDP`.
#[derive(Debug, Clone, Copy, PartialEq, Eq, Structural)]
pub struct Header {
    /// The length that the header states. It is kept as it was read and is
    /// not held against the bytes that follow.
    pub length: u8,
    pub protocol_version: u8,
}

impl View for Header {
    type V = Header;

    open spec fn view(&self) -> Header {
        *self
    }
}

/// The letters `LSDP` in ASCII, by which a packet of this protocol is known.
pub open spec fn spec_magic() -> Seq<u8> {
    seq![0x4c, 0x53, 0x44, 0x50]
}

/// The four letters `LSDP`. Fewer than four bytes are too few, whatever they
/// are.
pub open spec fn spec_tag(s: Seq<u8>) -> Parsed<()> {
    if s.len() < 4 {
        Err(DecodeError::Truncated)
    } else if s.take(4) != spec_magic() {
        Err(DecodeError::BadMagic)
    } else {
        Ok((s.skip(4), ()))
    }
}

/// Reads the four letters `LSDP`.
fn tag(input: &[u8]) -> (r: Result<(&[u8], ()), DecodeError>)
    ensures
        parsed_view(r) == spec_tag(input@),
{
    if input.len() < 4 {
        return Err(DecodeError::Truncated);
    }
    if input[0] == 0x4c && input[1] == 0x53 && input[2] == 0x44 && input[3] == 0x50 {
        assert(input@.take(4) =~= spec_magic());
        Ok((slice_subrange(input, 4, input.len()), ()))
    } else {
        assert(input@.take(4)[0] == input@[0]);
        assert(input@.take(4)[1] == input@[1]);
        assert(input@.take(4)[2] == input@[2]);
        assert(input@.take(4)[3] == input@[3]);
        Err(DecodeError::BadMagic)
    }
}

impl Header {
    /// A header at the front of `s`: the length byte, the four letters, the
    /// version byte.
    pub open spec fn spec_decode(s: Seq<u8>) -> Parsed<Header> {
        match spec_u8(s) {
            Ok((after_length, length)) => match spec_tag(after_length) {
                Ok((after_tag, _)) => match spec_u8(after_tag) {
                    Ok((rest, protocol_version)) => Ok((rest, Header { length, protocol_version })),
                    Err(e) => Err(e),
                },
                Err(e) => Err(e),
            },
            Err(e) => Err(e),
        }
    }

    /// The six bytes of a header.
    pub open spec fn spec_bytes(self) -> Seq<u8> {
        seq![self.length] + spec_magic() + seq![self.protocol_version]
    }

    /// Reads a header. The input is `Truncated` where it ends before the
    /// item that is being read, and has `BadMagic` where all four bytes after
    /// the length byte are there and are not `LSDP`.
    pub fn header(input: &[u8]) -> (r: Result<(&[u8], Header), DecodeError>)
        ensures
            parsed_view(r) == Header::spec_decode(input@),
    {
        let (after_length, length) = match be_u8(input) {
            Ok(found) => found,
            Err(e) => { return Err(e); },
        };
        let (after_tag, _) = match tag(after_length) {
            Ok(found) => found,
            Err(e) => { return Err(e); },
        };
        match be_u8(after_tag) {
            Ok((rest, protocol_version)) => Ok((rest, Header { length, protocol_version })),
            Err(e) => Err(e),
        }
    }

    /// The header of a packet that this library makes: length 6, version 1.
    pub fn new() -> (r: Header)
        ensures
            r == (Header { length: 6, protocol_version: 1 }),
    {
        Header { length: 6, protocol_version: 1 }
    }

    /// The six bytes of this header.
    pub fn bytes(self) -> (r: Vec<u8>)
        ensures
            r@ == self.spec_bytes(),
    {
        let mut r: Vec<u8> = Vec::new();
        r.push(self.length);
        let magic: [u8; 4] = [0x4c, 0x53, 0x44, 0x50];
        put_bytes(&mut r, magic.as_slice());
        r.push(self.protocol_version);
        assert(magic@ =~= spec_magic());
        r
    }
}

} // verus!
