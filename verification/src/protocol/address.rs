//! The address that a node announces: four octets for IPv4, sixteen for IPv6.

use crate::protocol::error::DecodeError;
use crate::protocol::wire::{parsed_view, spec_field, take_field, Parsed};
use vstd::prelude::*;

verus! {

/// An IP address, held as the octets that stand on the wire.
#[derive(Debug, Clone, Copy, PartialEq, Eq, Hash)]
pub enum IpAddress {
    V4([u8; 4]),
    V6([u8; 16]),
}

impl View for IpAddress {
    type V = Seq<u8>;

    /// The octets of the address: four of them, or sixteen.
    open spec fn view(&self) -> Seq<u8> {
        match self {
            IpAddress::V4(octets) => octets@,
            IpAddress::V6(octets) => octets@,
        }
    }
}

/// Why a run of octets is no address.
#[derive(Debug, Clone, Copy, PartialEq, Eq, Structural)]
pub enum IpParseError {
    /// The run has this many octets, which is neither 4 nor 16.
    UnknownLength(usize),
}

/// An address field: a field of 4 or of 16 octets. The value is the octets.
pub open spec fn spec_ip(s: Seq<u8>) -> Parsed<Seq<u8>> {
    match spec_field(s) {
        Ok((rest, octets)) => if octets.len() == 4 || octets.len() == 16 {
            Ok((rest, octets))
        } else {
            Err(DecodeError::BadAddressLength(octets.len() as usize))
        },
        Err(e) => Err(e),
    }
}

/// Makes an address of 4 or 16 octets, and refuses any other number of them.
pub fn to_ip(v: &[u8]) -> (r: Result<IpAddress, IpParseError>)
    ensures
        match r {
            Ok(address) => {
                &&& address@ == v@
                &&& address is V4 <==> v@.len() == 4
                &&& address is V6 <==> v@.len() == 16
            },
            Err(e) => v@.len() != 4 && v@.len() != 16 && e == IpParseError::UnknownLength(
                v@.len() as usize,
            ),
        },
{
    if v.len() == 4 {
        let octets: [u8; 4] = [v[0], v[1], v[2], v[3]];
        assert(octets@ =~= v@);
        Ok(IpAddress::V4(octets))
    } else if v.len() == 16 {
        let octets: [u8; 16] = [
            v[0],
            v[1],
            v[2],
            v[3],
            v[4],
            v[5],
            v[6],
            v[7],
            v[8],
            v[9],
            v[10],
            v[11],
            v[12],
            v[13],
            v[14],
            v[15],
        ];
        assert(octets@ =~= v@);
        Ok(IpAddress::V6(octets))
    } else {
        Err(IpParseError::UnknownLength(v.len()))
    }
}

/// Reads an address field.
pub fn parse_ip(input: &[u8]) -> (r: Result<(&[u8], IpAddress), DecodeError>)
    ensures
        parsed_view(r) == spec_ip(input@),
{
    let (rest, octets) = match take_field(input) {
        Ok(found) => found,
        Err(e) => { return Err(e); },
    };
    match to_ip(octets) {
        Ok(address) => Ok((rest, address)),
        Err(IpParseError::UnknownLength(length)) => Err(DecodeError::BadAddressLength(length)),
    }
}

impl IpAddress {
    /// The octets of this address, in the order of the wire.
    pub fn octets(&self) -> (r: Vec<u8>)
        ensures
            r@ == self@,
    {
        let mut r: Vec<u8> = Vec::new();
        match self {
            IpAddress::V4(octets) => {
                let mut i: usize = 0;
                while i < 4
                    invariant
                        i <= 4,
                        r@ == octets@.take(i as int),
                    decreases 4 - i,
                {
                    r.push(octets[i]);
                    i += 1;
                }
            },
            IpAddress::V6(octets) => {
                let mut i: usize = 0;
                while i < 16
                    invariant
                        i <= 16,
                        r@ == octets@.take(i as int),
                    decreases 16 - i,
                {
                    r.push(octets[i]);
                    i += 1;
                }
            },
        }
        r
    }
}

} // verus!
