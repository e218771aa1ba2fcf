//! The packet: what one datagram carries.

use crate::protocol::error::DecodeError;
use crate::protocol::header::{spec_magic, Header};
use crate::protocol::message::{
    lemma_message_read, lemma_message_round_trip, MessageType, MessageTypeView,
};
use crate::protocol::wire::{lemma_u8_round_trip, put_bytes};
use vstd::prelude::*;

verus! {

/// A packet: a header and a message.
#[derive(Debug, Clone, PartialEq, Eq)]
pub struct Packet {
    pub header: Header,
    pub message: MessageType,
}

/// What a [`Packet`] holds.
pub struct PacketView {
    pub header: Header,
    pub message: MessageTypeView,
}

impl View for Packet {
    type V = PacketView;

    open spec fn view(&self) -> PacketView {
        PacketView { header: self.header, message: self.message@ }
    }
}

impl PacketView {
    /// The packet is one that the wire can carry: its message is
    /// well-formed.
    pub open spec fn wf(self) -> bool {
        self.message.wf()
    }
}

impl Packet {
    /// The packet that `s` begins with: a header, then a message. What
    /// follows the message is of no account.
    pub open spec fn spec_decode(s: Seq<u8>) -> Result<PacketView, DecodeError> {
        match Header::spec_decode(s) {
            Ok((after_header, header)) => match MessageType::spec_decode(after_header) {
                Ok((_, message)) => Ok(PacketView { header, message }),
                Err(e) => Err(e),
            },
            Err(e) => Err(e),
        }
    }

    /// The bytes of a packet: the header, then the message.
    pub open spec fn spec_bytes(packet: PacketView) -> Seq<u8> {
        packet.header.spec_bytes() + MessageType::spec_bytes(packet.message)
    }

    /// Decodes a datagram. Every input gives either the packet that it
    /// begins with or the reason why it begins with none.
    pub fn decode(input: &[u8]) -> (r: Result<Packet, DecodeError>)
        ensures
            match r {
                Ok(packet) => Packet::spec_decode(input@) == Ok::<PacketView, DecodeError>(packet@)
                    && packet@.wf(),
                Err(e) => Packet::spec_decode(input@) == Err::<PacketView, DecodeError>(e),
            },
    {
        proof {
            lemma_decoded_wf(input@);
        }
        let (after_header, header) = match Header::header(input) {
            Ok(found) => found,
            Err(e) => { return Err(e); },
        };
        match MessageType::decode(after_header) {
            Ok((_, message)) => Ok(Packet { header, message }),
            Err(e) => Err(e),
        }
    }

    /// The packet that carries `message` under the header that this library
    /// writes.
    pub fn new(message: MessageType) -> (r: Packet)
        ensures
            r.header == (Header { length: 6, protocol_version: 1 }),
            r.message == message,
    {
        Packet { header: Header::new(), message }
    }

    /// The bytes of this packet.
    pub fn bytes(self) -> (r: Vec<u8>)
        ensures
            r@ == Packet::spec_bytes(self@),
    {
        let mut r: Vec<u8> = self.header.bytes();
        let message = self.message.bytes();
        put_bytes(&mut r, message.as_slice());
        r
    }
}

/// A header is read back from its six bytes, whatever follows them.
pub proof fn lemma_header_round_trip(header: Header, tail: Seq<u8>)
    ensures
        Header::spec_decode(header.spec_bytes() + tail) == Ok::<(Seq<u8>, Header), DecodeError>(
            (tail, header),
        ),
{
    let after_tag = seq![header.protocol_version] + tail;
    let after_length = spec_magic() + after_tag;
    assert(header.spec_bytes() + tail =~= seq![header.length] + after_length);
    lemma_u8_round_trip(header.length, after_length);
    assert(after_length.take(4) =~= spec_magic());
    assert(after_length.skip(4) =~= after_tag);
    lemma_u8_round_trip(header.protocol_version, tail);
}

/// A packet that was decoded is well-formed.
pub proof fn lemma_decoded_wf(bytes: Seq<u8>)
    ensures
        Packet::spec_decode(bytes) matches Ok(packet) ==> packet.wf(),
{
    if let Ok((after_header, _)) = Header::spec_decode(bytes) {
        lemma_message_read(after_header);
    }
}

/// Decoding the bytes of a well-formed packet gives the packet back, in
/// every field, whatever follows the bytes. A deletion is left out: its
/// content is not written.
pub proof fn lemma_decode_encode(packet: PacketView, tail: Seq<u8>)
    requires
        packet.wf(),
        !(packet.message is Delete),
    ensures
        Packet::spec_decode(Packet::spec_bytes(packet) + tail) == Ok::<PacketView, DecodeError>(
            packet,
        ),
{
    let after_header = MessageType::spec_bytes(packet.message) + tail;
    assert(Packet::spec_bytes(packet) + tail =~= packet.header.spec_bytes() + after_header);
    lemma_header_round_trip(packet.header, after_header);
    lemma_message_round_trip(packet.message, tail);
}

/// The bytes of a deletion are its header, a length and its tag. They do
/// not decode: the payload is missing.
pub proof fn lemma_deletion_is_not_written(packet: PacketView)
    requires
        packet.message is Delete,
    ensures
        Packet::spec_decode(Packet::spec_bytes(packet)) == Err::<PacketView, DecodeError>(
            DecodeError::Truncated,
        ),
{
    let message = MessageType::spec_bytes(packet.message);
    lemma_header_round_trip(packet.header, message);
    let after_length = seq![packet.message.mtype()];
    assert(message =~= seq![message[0]] + after_length);
    lemma_u8_round_trip(message[0], after_length);
    assert(after_length =~= seq![packet.message.mtype()] + Seq::<u8>::empty());
    lemma_u8_round_trip(packet.message.mtype(), Seq::empty());
}

/// The byte sequences that encoding writes for the well-formed packets
/// that it writes in full: nothing follows the message, every length and
/// count is the true one, and every class has the code it is written with.
pub open spec fn is_canonical(bytes: Seq<u8>) -> bool {
    exists|packet: PacketView|
        packet.wf() && !(packet.message is Delete) && #[trigger] Packet::spec_bytes(packet)
            == bytes
}

/// Canonical bytes decode, and encoding what they decode to gives the same
/// bytes.
pub proof fn lemma_encode_decode(bytes: Seq<u8>)
    requires
        is_canonical(bytes),
    ensures
        Packet::spec_decode(bytes) matches Ok(packet) && Packet::spec_bytes(packet) == bytes,
{
    let packet = choose|packet: PacketView|
        packet.wf() && !(packet.message is Delete) && #[trigger] Packet::spec_bytes(packet)
            == bytes;
    lemma_decode_encode(packet, Seq::empty());
    assert(bytes + Seq::<u8>::empty() =~= bytes);
}

/// What was decoded, unless it is a deletion, is decoded again from its own
/// bytes, and these bytes are canonical.
pub proof fn lemma_decoded_round_trip(bytes: Seq<u8>)
    ensures
        Packet::spec_decode(bytes) matches Ok(packet) ==> !(packet.message is Delete) ==> {
            &&& is_canonical(Packet::spec_bytes(packet))
            &&& Packet::spec_decode(Packet::spec_bytes(packet)) == Ok::<PacketView, DecodeError>(
                packet,
            )
        },
{
    if let Ok(packet) = Packet::spec_decode(bytes) {
        if !(packet.message is Delete) {
            lemma_decoded_wf(bytes);
            lemma_decode_encode(packet, Seq::empty());
            assert(Packet::spec_bytes(packet) + Seq::<u8>::empty() =~= Packet::spec_bytes(packet));
        }
    }
}

} // verus!
