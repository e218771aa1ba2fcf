//! The address that queries are sent to: the broadcast address of the
//! default interface's IPv4 network.

use crate::net::error::DiscoverError;
use crate::protocol::address::IpAddress;
use vstd::prelude::*;

verus! {

/// An IPv4 address of an interface, with the length of its network's prefix.
#[derive(Debug, Clone, Copy, PartialEq, Eq)]
pub struct Ipv4Net {
    pub addr: [u8; 4],
    pub prefix_len: u8,
}

/// The 32-bit number of four octets, the first being the most significant.
pub open spec fn spec_word(octets: Seq<u8>) -> u32 {
    (octets[0] as u32) << 24 | (octets[1] as u32) << 16 | (octets[2] as u32) << 8 | (
    octets[3] as u32)
}

/// The four octets of a 32-bit number, the most significant first.
pub open spec fn spec_octets(word: u32) -> Seq<u8> {
    seq![
        (word >> 24) as u8,
        ((word >> 16) & 0xff) as u8,
        ((word >> 8) & 0xff) as u8,
        (word & 0xff) as u8,
    ]
}

/// The netmask of a prefix: its first `prefix_len` bits are set. A length of
/// 32 or more gives the full mask.
pub open spec fn spec_netmask(prefix_len: u8) -> u32 {
    if prefix_len >= 32 {
        0xffff_ffffu32
    } else {
        !(0xffff_ffffu32 >> (prefix_len as u32))
    }
}

/// The broadcast address of the network that `addr` lies in: the network's
/// address with every bit outside the netmask set.
pub open spec fn spec_broadcast(addr: Seq<u8>, prefix_len: u8) -> Seq<u8> {
    spec_octets((spec_word(addr) & spec_netmask(prefix_len)) | !spec_netmask(prefix_len))
}

/// Calls `netaddr2`: parses the network written as `a.b.c.d/prefix_len` into
/// a `NetAddr` and asks the IPv4 network in it for its `broadcast()`. The
/// contract claims what the crate's source shows: such a text always parses,
/// to an IPv4 network whose mask has the first `prefix_len` bits set (all 32
/// from a length of 32 on) and whose address is `addr` under that mask; and
/// the broadcast address is that address with the bits outside the mask set.
#[verifier::external_body]
fn network_broadcast(addr: &[u8; 4], prefix_len: u8) -> (r: Option<[u8; 4]>)
    ensures
        r is Some,
        r matches Some(octets) ==> octets@ == spec_broadcast(addr@, prefix_len),
{
    let text = format!("{}.{}.{}.{}/{}", addr[0], addr[1], addr[2], addr[3], prefix_len);
    match text.parse::<netaddr2::NetAddr>() {
        Ok(netaddr2::NetAddr::V4(net)) => Some(netaddr2::Broadcast::broadcast(&net).octets()),
        _ => None,
    }
}

/// The octets of the broadcast address for outbound queries, from what
/// listing the default interface gave: the broadcast address of the first
/// IPv4 network of the interface. Where the listing failed, its reason is
/// handed on; where the interface has no IPv4 network, there is no such
/// address.
pub open spec fn spec_broadcast_address(default_interface: Result<Vec<Ipv4Net>, String>) -> Result<
    Seq<u8>,
    DiscoverError,
> {
    match default_interface {
        Ok(networks) => if networks@.len() == 0 {
            Err(DiscoverError::CouldNotFindBroadcastInterface)
        } else {
            Ok(spec_broadcast(networks@[0].addr@, networks@[0].prefix_len))
        },
        Err(reason) => Err(DiscoverError::InterfaceError(reason)),
    }
}

/// The broadcast address for outbound queries, from what listing the default
/// interface gave. It is an IPv4 address.
#[verifier::loop_isolation(false)]
pub fn get_broadcast_address(default_interface: Result<Vec<Ipv4Net>, String>) -> (r: Result<
    IpAddress,
    DiscoverError,
>)
    ensures
        match r {
            Ok(address) => address is V4 && spec_broadcast_address(default_interface) == Ok::<
                Seq<u8>,
                DiscoverError,
            >(address@),
            Err(e) => spec_broadcast_address(default_interface) == Err::<Seq<u8>, DiscoverError>(e),
        },
{
    match default_interface {
        Ok(networks) => {
            let mut i: usize = 0;
            while i < networks.len()
                invariant
                    i == 0,
                decreases networks.len() - i,
            {
                match network_broadcast(&networks[i].addr, networks[i].prefix_len) {
                    Some(octets) => { return Ok(IpAddress::V4(octets)); },
                    None => {},
                }
                i += 1;
            }
            Err(DiscoverError::CouldNotFindBroadcastInterface)
        },
        Err(reason) => Err(DiscoverError::InterfaceError(reason)),
    }
}

} // verus!
