//! What goes wrong in discovery.

use vstd::prelude::*;

verus! {

/// The failures of discovery that are decided here. Those of the socket and
/// of the channels arise where these are driven.
#[derive(Debug, Clone, PartialEq, Eq)]
pub enum DiscoverError {
    /// The interfaces could not be listed. The text is the reason that was
    /// given.
    InterfaceError(String),
    /// The default interface has no IPv4 network to broadcast on.
    CouldNotFindBroadcastInterface,
    /// A datagram is no packet.
    ParseError,
}

} // verus!
