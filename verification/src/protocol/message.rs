//! The message of a packet: one of the kinds that the type tag tells apart.

use crate::protocol::announce::{
    lemma_announce_read, lemma_announce_round_trip, AnnounceMessage, AnnounceMessageView,
};
use crate::protocol::class_id::{
    lemma_class_list_round_trip, lemma_classes_read, spec_class_list, ClassID,
};
use crate::protocol::delete::{DeleteMessage, DeleteMessageView};
use crate::protocol::error::DecodeError;
use crate::protocol::query::QueryMessage;
use crate::protocol::wire::{
    be_u8, lemma_field_read, lemma_u8_round_trip, parsed_view, put_bytes, spec_field, spec_u8,
    Parsed,
};
use vstd::prelude::*;

verus! {

/// The type tag of an announcement.
pub const TAG_ANNOUNCE: u8 = 0x41;

/// The type tag of a deletion.
pub const TAG_DELETE: u8 = 0x44;

/// The type tag of a query that is sent to everyone.
pub const TAG_BROADCAST_QUERY: u8 = 0x51;

/// The type tag of a query that is sent to one node.
pub const TAG_UNICAST_QUERY: u8 = 0x52;

/// The message of a packet.
#[derive(Debug, Clone, PartialEq, Eq)]
pub enum MessageType {
    Announce(AnnounceMessage),
    Delete(DeleteMessage),
    BroadcastQuery(QueryMessage),
    UnicastQuery(QueryMessage),
    /// Stands for every message whose tag names no kind. Nothing of such a
    /// message is kept.
    Unimplemented,
}

/// What a [`MessageType`] holds.
pub enum MessageTypeView {
    Announce(AnnounceMessageView),
    Delete(DeleteMessageView),
    BroadcastQuery(Seq<ClassID>),
    UnicastQuery(Seq<ClassID>),
    Unimplemented,
}

impl View for MessageType {
    type V = MessageTypeView;

    open spec fn view(&self) -> MessageTypeView {
        match self {
            MessageType::Announce(m) => MessageTypeView::Announce(m@),
            MessageType::Delete(m) => MessageTypeView::Delete(m@),
            MessageType::BroadcastQuery(m) => MessageTypeView::BroadcastQuery(m@),
            MessageType::UnicastQuery(m) => MessageTypeView::UnicastQuery(m@),
            MessageType::Unimplemented => MessageTypeView::Unimplemented,
        }
    }
}

impl MessageTypeView {
    /// The message is one that the wire can carry: every list in it has at
    /// most 255 items and every field at most 255 bytes.
    pub open spec fn wf(self) -> bool {
        match self {
            MessageTypeView::Announce(m) => m.wf(),
            MessageTypeView::Delete(m) => m.node_id.len() <= 255 && m.classes.len() <= 255,
            MessageTypeView::BroadcastQuery(classes) => classes.len() <= 255,
            MessageTypeView::UnicastQuery(classes) => classes.len() <= 255,
            MessageTypeView::Unimplemented => true,
        }
    }

    /// The type tag under which a message is written. `Unimplemented` is
    /// written under the tag `0`.
    pub open spec fn mtype(self) -> u8 {
        match self {
            MessageTypeView::Announce(_) => TAG_ANNOUNCE,
            MessageTypeView::Delete(_) => TAG_DELETE,
            MessageTypeView::BroadcastQuery(_) => TAG_BROADCAST_QUERY,
            MessageTypeView::UnicastQuery(_) => TAG_UNICAST_QUERY,
            MessageTypeView::Unimplemented => 0x00,
        }
    }

    /// The payload that is written for a message. A deletion is read but not
    /// written: like `Unimplemented` it gets no payload.
    pub open spec fn payload(self) -> Seq<u8> {
        match self {
            MessageTypeView::Announce(m) => AnnounceMessage::spec_bytes(m),
            MessageTypeView::BroadcastQuery(classes) => QueryMessage::spec_bytes(classes),
            MessageTypeView::UnicastQuery(classes) => QueryMessage::spec_bytes(classes),
            MessageTypeView::Delete(_) => Seq::empty(),
            MessageTypeView::Unimplemented => Seq::empty(),
        }
    }
}

impl MessageType {
    /// The message whose payload `payload` holds, by its type tag. What
    /// follows the payload is of no account.
    pub open spec fn spec_payload(tag: u8, payload: Seq<u8>) -> Result<
        MessageTypeView,
        DecodeError,
    > {
        if tag == TAG_ANNOUNCE {
            match AnnounceMessage::spec_decode(payload) {
                Ok((_, m)) => Ok(MessageTypeView::Announce(m)),
                Err(e) => Err(e),
            }
        } else if tag == TAG_DELETE {
            match DeleteMessage::spec_decode(payload) {
                Ok((_, m)) => Ok(MessageTypeView::Delete(m)),
                Err(e) => Err(e),
            }
        } else if tag == TAG_BROADCAST_QUERY {
            match QueryMessage::spec_decode(payload) {
                Ok((_, m)) => Ok(MessageTypeView::BroadcastQuery(m)),
                Err(e) => Err(e),
            }
        } else if tag == TAG_UNICAST_QUERY {
            match QueryMessage::spec_decode(payload) {
                Ok((_, m)) => Ok(MessageTypeView::UnicastQuery(m)),
                Err(e) => Err(e),
            }
        } else {
            Ok(MessageTypeView::Unimplemented)
        }
    }

    /// A message at the front of `s`: one byte that states a length and is
    /// not looked at, the type tag, then the payload of that type. The input
    /// that is given back is the one after the type tag: the payload is read
    /// from it and stays in it.
    pub open spec fn spec_decode(s: Seq<u8>) -> Parsed<MessageTypeView> {
        match spec_u8(s) {
            Ok((after_length, _)) => match spec_u8(after_length) {
                Ok((payload, tag)) => match MessageType::spec_payload(tag, payload) {
                    Ok(message) => Ok((payload, message)),
                    Err(e) => Err(e),
                },
                Err(e) => Err(e),
            },
            Err(e) => Err(e),
        }
    }

    /// The bytes of a message: the low eight bits of the payload's length
    /// plus two, the type tag, then the payload.
    pub open spec fn spec_bytes(message: MessageTypeView) -> Seq<u8> {
        seq![((message.payload().len() + 2) % 256) as u8, message.mtype()] + message.payload()
    }

    /// Reads a message. A tag that names no kind gives `Unimplemented`, and
    /// is no error.
    pub fn decode(input: &[u8]) -> (r: Result<(&[u8], MessageType), DecodeError>)
        ensures
            parsed_view(r) == MessageType::spec_decode(input@),
    {
        let (after_length, _) = match be_u8(input) {
            Ok(found) => found,
            Err(e) => { return Err(e); },
        };
        let (payload, tag) = match be_u8(after_length) {
            Ok(found) => found,
            Err(e) => { return Err(e); },
        };
        let message = if tag == TAG_ANNOUNCE {
            match AnnounceMessage::decode(payload) {
                Ok((_, m)) => MessageType::Announce(m),
                Err(e) => { return Err(e); },
            }
        } else if tag == TAG_DELETE {
            match DeleteMessage::decode(payload) {
                Ok((_, m)) => MessageType::Delete(m),
                Err(e) => { return Err(e); },
            }
        } else if tag == TAG_BROADCAST_QUERY {
            match QueryMessage::decode(payload) {
                Ok((_, m)) => MessageType::BroadcastQuery(m),
                Err(e) => { return Err(e); },
            }
        } else if tag == TAG_UNICAST_QUERY {
            match QueryMessage::decode(payload) {
                Ok((_, m)) => MessageType::UnicastQuery(m),
                Err(e) => { return Err(e); },
            }
        } else {
            MessageType::Unimplemented
        };
        Ok((payload, message))
    }

    /// The type tag under which this message is written.
    pub fn mtype(&self) -> (r: u8)
        ensures
            r == self@.mtype(),
    {
        match self {
            MessageType::Announce(_) => TAG_ANNOUNCE,
            MessageType::Delete(_) => TAG_DELETE,
            MessageType::BroadcastQuery(_) => TAG_BROADCAST_QUERY,
            MessageType::UnicastQuery(_) => TAG_UNICAST_QUERY,
            MessageType::Unimplemented => 0x00,
        }
    }

    /// The bytes of this message.
    pub fn bytes(self) -> (r: Vec<u8>)
        ensures
            r@ == MessageType::spec_bytes(self@),
    {
        let tag: u8 = self.mtype();
        let payload: Vec<u8> = match self {
            MessageType::Announce(m) => m.bytes(),
            MessageType::BroadcastQuery(m) => m.bytes(),
            MessageType::UnicastQuery(m) => m.bytes(),
            MessageType::Delete(_) => Vec::new(),
            MessageType::Unimplemented => Vec::new(),
        };
        let mut r: Vec<u8> = Vec::new();
        r.push(((payload.len() % 256 + 2) % 256) as u8);
        r.push(tag);
        put_bytes(&mut r, payload.as_slice());
        r
    }
}

/// A list of classes that was read has at most 255 classes.
proof fn lemma_class_list_read(s: Seq<u8>)
    ensures
        spec_class_list(s) matches Ok((_, classes)) ==> classes.len() <= 255,
{
    if let Ok((rest, count)) = spec_u8(s) {
        lemma_classes_read(rest, count as nat, Seq::empty());
    }
}

/// A message that was read is well-formed.
pub proof fn lemma_message_read(s: Seq<u8>)
    ensures
        MessageType::spec_decode(s) matches Ok((_, message)) ==> message.wf(),
{
    if let Ok((after_length, _)) = spec_u8(s) {
        if let Ok((payload, tag)) = spec_u8(after_length) {
            lemma_announce_read(payload);
            lemma_class_list_read(payload);
            lemma_field_read(payload);
            if let Ok((after_id, _)) = spec_field(payload) {
                lemma_class_list_read(after_id);
            }
        }
    }
}

/// A well-formed message that is no deletion is read back from its bytes,
/// whatever follows them.
pub proof fn lemma_message_round_trip(message: MessageTypeView, tail: Seq<u8>)
    requires
        message.wf(),
        !(message is Delete),
    ensures
        MessageType::spec_decode(MessageType::spec_bytes(message) + tail) == Ok::<
            (Seq<u8>, MessageTypeView),
            DecodeError,
        >((message.payload() + tail, message)),
{
    let payload = message.payload();
    let length = ((payload.len() + 2) % 256) as u8;
    let after_length = seq![message.mtype()] + (payload + tail);
    assert(MessageType::spec_bytes(message) + tail =~= seq![length] + after_length);
    lemma_u8_round_trip(length, after_length);
    lemma_u8_round_trip(message.mtype(), payload + tail);
    match message {
        MessageTypeView::Announce(m) => {
            lemma_announce_round_trip(m, tail);
        },
        MessageTypeView::BroadcastQuery(classes) => {
            lemma_class_list_round_trip(classes, tail);
        },
        MessageTypeView::UnicastQuery(classes) => {
            lemma_class_list_round_trip(classes, tail);
        },
        _ => {},
    }
}

} // verus!
