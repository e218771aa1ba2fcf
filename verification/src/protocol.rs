//! The wire types of LSDP and the codec between them and bytes.

pub mod address;
pub mod announce;
pub mod class_id;
pub mod delete;
pub mod error;
pub mod header;
pub mod message;
pub mod packet;
pub mod query;
pub mod wire;
