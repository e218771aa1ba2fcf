//! LSDP: a local service-discovery protocol.
//!
//! Nodes on a LAN announce classed services over UDP broadcast, and peers ask
//! for the nodes that offer a class of service. [`protocol`] holds the wire
//! types and their codec, [`net`] what the discovery engine decides: none of
//! the two touches a socket.

pub mod net;
pub mod protocol;

pub use protocol::address::{to_ip, IpAddress, IpParseError};
pub use protocol::announce::{AnnounceMessage, AnnounceRecord};
pub use protocol::class_id::ClassID;
pub use protocol::delete::DeleteMessage;
pub use protocol::error::DecodeError;
pub use protocol::header::Header;
pub use protocol::message::MessageType;
pub use protocol::packet::Packet;
pub use protocol::query::QueryMessage;
