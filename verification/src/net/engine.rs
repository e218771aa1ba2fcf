//! What the two background units of the engine decide. The transport unit
//! owns the socket: it takes datagrams and queries and says what is to be
//! done with them. The indexer takes the packets that were published and
//! keeps the inventory. Neither touches a socket or a channel here: each
//! step takes what has happened and gives what is to be done.

use crate::net::broadcast::{get_broadcast_address, spec_broadcast_address, Ipv4Net};
use crate::net::error::DiscoverError;
use crate::net::inventory::{spec_index, Inventory};
use crate::protocol::address::IpAddress;
use crate::protocol::class_id::ClassID;
use crate::protocol::error::DecodeError;
use crate::protocol::header::Header;
use crate::protocol::message::{MessageType, MessageTypeView};
use crate::protocol::packet::{Packet, PacketView};
use crate::protocol::query::QueryMessage;
use vstd::prelude::*;

verus! {

/// The UDP port of the protocol.
pub const PORT: u16 = 11430;

/// A datagram that is to be sent.
#[derive(Debug, Clone, PartialEq, Eq)]
pub struct Outbound {
    pub datagram: Vec<u8>,
    pub address: IpAddress,
    pub port: u16,
}

/// The bytes of the packet that asks everyone for `classes`.
pub open spec fn spec_query_datagram(classes: Seq<ClassID>) -> Seq<u8> {
    Packet::spec_bytes(
        PacketView {
            header: Header { length: 6, protocol_version: 1 },
            message: MessageTypeView::BroadcastQuery(classes),
        },
    )
}

/// Prepares the broadcast of a query: the query is wrapped as a broadcast
/// query and encoded, and is to go to the broadcast address of the default
/// interface on the port of the protocol. Where there is no such address the
/// reason is returned, and nothing is to be sent.
pub fn broadcast_query(q: QueryMessage, default_interface: Result<Vec<Ipv4Net>, String>) -> (r:
    Result<Outbound, DiscoverError>)
    ensures
        match r {
            Ok(outbound) => {
                &&& outbound.datagram@ == spec_query_datagram(q@)
                &&& outbound.address is V4
                &&& spec_broadcast_address(default_interface) == Ok::<Seq<u8>, DiscoverError>(
                    outbound.address@,
                )
                &&& outbound.port == PORT
            },
            Err(e) => spec_broadcast_address(default_interface) == Err::<Seq<u8>, DiscoverError>(e),
        },
{
    let datagram = Packet::new(MessageType::BroadcastQuery(q)).bytes();
    match get_broadcast_address(default_interface) {
        Ok(address) => Ok(Outbound { datagram, address, port: PORT }),
        Err(e) => Err(e),
    }
}

/// What happens to the transport unit.
#[derive(Debug, PartialEq, Eq)]
pub enum TransportEvent {
    /// A datagram came in.
    Datagram(Vec<u8>),
    /// A query was submitted. With it comes what listing the default
    /// interface gave at that moment.
    Query { query: QueryMessage, default_interface: Result<Vec<Ipv4Net>, String> },
    /// The socket failed.
    SocketFailed,
    /// The signal to shut down came.
    Shutdown,
}

/// What the transport unit is to do.
#[derive(Debug, Clone, PartialEq, Eq)]
pub enum TransportAction {
    /// Publish the packet to the indexer and to the subscribers, and go on.
    Publish(Packet),
    /// Drop the datagram, which is no packet, and go on.
    Discard(DecodeError),
    /// Send the datagram, and go on.
    Send(Outbound),
    /// Report the error to the one who submitted the query, and go on.
    Report(DiscoverError),
    /// Leave the loop and close the socket.
    Stop,
}

impl TransportAction {
    /// The unit goes on after this action.
    pub open spec fn goes_on(self) -> bool {
        !(self is Stop)
    }
}

/// One step of the transport unit. A datagram that decodes is published and
/// one that does not is dropped; a query is sent as a broadcast query, or
/// the reason why it cannot be sent is reported. The unit stops on the
/// signal to shut down and when the socket has failed, and on nothing else.
pub fn transport_step(event: TransportEvent) -> (r: TransportAction)
    ensures
        match event {
            TransportEvent::Datagram(bytes) => match Packet::spec_decode(bytes@) {
                Ok(packet) => r matches TransportAction::Publish(published) && published@
                    == packet,
                Err(e) => r == TransportAction::Discard(e),
            },
            TransportEvent::Query { query, default_interface } => match spec_broadcast_address(
                default_interface,
            ) {
                Ok(octets) => {
                    &&& r matches TransportAction::Send(outbound)
                    &&& outbound.datagram@ == spec_query_datagram(query@)
                    &&& outbound.address is V4
                    &&& outbound.address@ == octets
                    &&& outbound.port == PORT
                },
                Err(e) => r == TransportAction::Report(e),
            },
            TransportEvent::SocketFailed => r == TransportAction::Stop,
            TransportEvent::Shutdown => r == TransportAction::Stop,
        },
        r.goes_on() <==> !(event is Shutdown || event is SocketFailed),
{
    match event {
        TransportEvent::Datagram(bytes) => match Packet::decode(bytes.as_slice()) {
            Ok(packet) => TransportAction::Publish(packet),
            Err(e) => TransportAction::Discard(e),
        },
        TransportEvent::Query { query, default_interface } => match broadcast_query(
            query,
            default_interface,
        ) {
            Ok(outbound) => TransportAction::Send(outbound),
            Err(e) => TransportAction::Report(e),
        },
        TransportEvent::SocketFailed => TransportAction::Stop,
        TransportEvent::Shutdown => TransportAction::Stop,
    }
}

/// What happens to the indexer.
#[derive(Debug, Clone, PartialEq, Eq)]
pub enum IndexerEvent {
    /// A packet was published.
    Update(Packet),
    /// Packets were published faster than the indexer took them, and the
    /// oldest of them are lost.
    Lagged,
    /// Nothing will be published any more.
    Closed,
    /// The signal to shut down came.
    Shutdown,
}

/// One step of the indexer: an announcement is put into the inventory under
/// its node, and every other packet is let pass. Gives `true` where the
/// indexer goes on: it stops on the signal to shut down and when nothing
/// will be published any more, and on nothing else.
pub fn indexer_step(inventory: &mut Inventory, event: IndexerEvent) -> (goes_on: bool)
    ensures
        final(inventory)@ == match event {
            IndexerEvent::Update(packet) => spec_index(old(inventory)@, packet@),
            _ => old(inventory)@,
        },
        goes_on <==> !(event is Shutdown || event is Closed),
{
    match event {
        IndexerEvent::Update(packet) => {
            inventory.index(packet);
            true
        },
        IndexerEvent::Lagged => true,
        IndexerEvent::Closed => false,
        IndexerEvent::Shutdown => false,
    }
}

/// One step of a monitor, which hands on every packet it hears: the packet
/// of the datagram, or, where the datagram is no packet, the error that ends
/// the monitoring.
pub fn monitor_step(datagram: &[u8]) -> (r: Result<Packet, DiscoverError>)
    ensures
        match Packet::spec_decode(datagram@) {
            Ok(packet) => r matches Ok(heard) && heard@ == packet,
            Err(_) => r == Err::<Packet, DiscoverError>(DiscoverError::ParseError),
        },
{
    match Packet::decode(datagram) {
        Ok(packet) => Ok(packet),
        Err(_) => Err(DiscoverError::ParseError),
    }
}

} // verus!
