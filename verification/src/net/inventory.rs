//! The inventory: for every node heard of, the announcement that came last.

use crate::protocol::announce::{AnnounceMessage, AnnounceMessageView};
use crate::protocol::message::{MessageType, MessageTypeView};
use crate::protocol::packet::{Packet, PacketView};
use vstd::prelude::*;

verus! {

/// The inventory as a mapping: from the identity of a node to what its
/// announcement holds.
pub type Nodes = Map<Seq<u8>, AnnounceMessageView>;

/// What some announcements hold.
pub open spec fn messages_view(messages: Seq<AnnounceMessage>) -> Seq<AnnounceMessageView> {
    Seq::new(messages.len(), |i: int| messages[i]@)
}

/// No two announcements are of the same node.
pub open spec fn distinct_nodes(messages: Seq<AnnounceMessageView>) -> bool {
    forall|i: int, j: int|
        0 <= i < j < messages.len() ==> (#[trigger] messages[i]).node_id != (
        #[trigger] messages[j]).node_id
}

/// The mapping that holds each of the announcements under its node.
pub open spec fn spec_nodes(messages: Seq<AnnounceMessageView>) -> Nodes
    decreases messages.len(),
{
    if messages.len() == 0 {
        Map::empty()
    } else {
        spec_nodes(messages.drop_last()).insert(messages.last().node_id, messages.last())
    }
}

/// The inventory after a packet was indexed: an announcement stands under
/// its node, in place of what stood there; any other packet changes nothing.
pub open spec fn spec_index(nodes: Nodes, packet: PacketView) -> Nodes {
    match packet.message {
        MessageTypeView::Announce(message) => nodes.insert(message.node_id, message),
        _ => nodes,
    }
}

/// The inventory after some packets were indexed, one after the other.
pub open spec fn spec_index_all(nodes: Nodes, packets: Seq<PacketView>) -> Nodes
    decreases packets.len(),
{
    if packets.len() == 0 {
        nodes
    } else {
        spec_index(spec_index_all(nodes, packets.drop_last()), packets.last())
    }
}

/// The announcement of `node_id` that comes last among the packets, if one
/// of them is an announcement of that node.
pub open spec fn spec_last_announce(packets: Seq<PacketView>, node_id: Seq<u8>) -> Option<
    AnnounceMessageView,
>
    decreases packets.len(),
{
    if packets.len() == 0 {
        None
    } else {
        match packets.last().message {
            MessageTypeView::Announce(message) if message.node_id == node_id => Some(message),
            _ => spec_last_announce(packets.drop_last(), node_id),
        }
    }
}

/// What the mapping of distinct announcements is: it is finite and has as
/// many nodes as there are announcements, each announcement stands under its
/// node, and nothing else stands in it.
proof fn lemma_nodes(messages: Seq<AnnounceMessageView>)
    requires
        distinct_nodes(messages),
    ensures
        spec_nodes(messages).dom().finite(),
        spec_nodes(messages).len() == messages.len(),
        forall|i: int|
            0 <= i < messages.len() ==> spec_nodes(messages).contains_key(
                (#[trigger] messages[i]).node_id,
            ) && spec_nodes(messages)[messages[i].node_id] == messages[i],
        forall|node_id: Seq<u8>| #[trigger]
            spec_nodes(messages).contains_key(node_id) ==> exists|i: int|
                0 <= i < messages.len() && (#[trigger] messages[i]).node_id == node_id,
    decreases messages.len(),
{
    if messages.len() > 0 {
        let front = messages.drop_last();
        let last = messages.last();
        assert forall|i: int, j: int| 0 <= i < j < front.len() implies (#[trigger] front[i]).node_id
            != (#[trigger] front[j]).node_id by {
            assert(front[i] == messages[i] && front[j] == messages[j]);
        }
        lemma_nodes(front);
        if spec_nodes(front).contains_key(last.node_id) {
            let i = choose|i: int| 0 <= i < front.len() && (#[trigger] front[i]).node_id == last.node_id;
            assert(front[i] == messages[i]);
            assert(messages[i].node_id != messages[messages.len() - 1].node_id);
        }
        assert forall|i: int| 0 <= i < messages.len() implies spec_nodes(messages).contains_key(
            (#[trigger] messages[i]).node_id,
        ) && spec_nodes(messages)[messages[i].node_id] == messages[i] by {
            if i < front.len() {
                assert(front[i] == messages[i]);
                assert(messages[i].node_id != messages[messages.len() - 1].node_id);
            }
        }
        assert forall|node_id: Seq<u8>| #[trigger]
            spec_nodes(messages).contains_key(node_id) implies exists|i: int|
            0 <= i < messages.len() && (#[trigger] messages[i]).node_id == node_id by {
            if node_id == last.node_id {
                assert(messages[messages.len() - 1].node_id == node_id);
            } else {
                let i = choose|i: int| 0 <= i < front.len() && (#[trigger] front[i]).node_id == node_id;
                assert(front[i] == messages[i]);
            }
        }
    }
}

/// After packets were indexed, the inventory holds for a node the
/// announcement of that node that came last, and where none came, what it
/// held before.
pub proof fn lemma_index_all(nodes: Nodes, packets: Seq<PacketView>, node_id: Seq<u8>)
    ensures
        match spec_last_announce(packets, node_id) {
            Some(message) => spec_index_all(nodes, packets).contains_key(node_id)
                && spec_index_all(nodes, packets)[node_id] == message,
            None => spec_index_all(nodes, packets).contains_key(node_id) == nodes.contains_key(
                node_id,
            ) && spec_index_all(nodes, packets)[node_id] == nodes[node_id],
        },
    decreases packets.len(),
{
    if packets.len() > 0 {
        lemma_index_all(nodes, packets.drop_last(), node_id);
    }
}

/// Last write wins: after the announcements `m1`, ..., `mk` of one node were
/// indexed in this order, the inventory holds `mk` for that node.
pub proof fn lemma_last_announce_wins(nodes: Nodes, packets: Seq<PacketView>, node_id: Seq<u8>)
    requires
        packets.len() > 0,
        forall|i: int|
            0 <= i < packets.len() ==> (#[trigger] packets[i]).message is Announce
                && packets[i].message->Announce_0.node_id == node_id,
    ensures
        spec_index_all(nodes, packets).contains_key(node_id),
        MessageTypeView::Announce(spec_index_all(nodes, packets)[node_id])
            == packets.last().message,
{
    assert(packets[packets.len() - 1].message is Announce);
}

/// The nodes that were heard of, each with its latest announcement.
pub struct Inventory {
    messages: Vec<AnnounceMessage>,
}

impl View for Inventory {
    type V = Nodes;

    closed spec fn view(&self) -> Nodes {
        spec_nodes(messages_view(self.messages@))
    }
}

/// Tells whether two byte strings are the same.
fn same_bytes(a: &[u8], b: &[u8]) -> (r: bool)
    ensures
        r == (a@ == b@),
{
    if a.len() != b.len() {
        return false;
    }
    let mut i: usize = 0;
    while i < a.len()
        invariant
            i <= a.len(),
            a.len() == b.len(),
            a@.take(i as int) == b@.take(i as int),
        decreases a.len() - i,
    {
        if a[i] != b[i] {
            return false;
        }
        assert(a@.take(i + 1) =~= a@.take(i as int).push(a@[i as int]));
        assert(b@.take(i + 1) =~= b@.take(i as int).push(b@[i as int]));
        i += 1;
    }
    assert(a@.take(a@.len() as int) =~= a@);
    assert(b@.take(b@.len() as int) =~= b@);
    true
}

impl Inventory {
    #[verifier::type_invariant]
    spec fn distinct(self) -> bool {
        distinct_nodes(messages_view(self.messages@))
    }

    /// An inventory that holds no node.
    pub fn new() -> (r: Inventory)
        ensures
            r@ == Map::<Seq<u8>, AnnounceMessageView>::empty(),
    {
        Inventory { messages: Vec::new() }
    }

    /// The number of nodes in the inventory.
    pub fn len(&self) -> (r: usize)
        ensures
            self@.dom().finite(),
            r == self@.len(),
    {
        proof {
            use_type_invariant(self);
            lemma_nodes(messages_view(self.messages@));
        }
        self.messages.len()
    }

    /// The place of the announcement of `node_id` among those held.
    fn position(&self, node_id: &[u8]) -> (r: Option<usize>)
        ensures
            match r {
                Some(i) => i < self.messages@.len() && self.messages@[i as int]@.node_id
                    == node_id@,
                None => !self@.contains_key(node_id@),
            },
    {
        let mut i: usize = 0;
        while i < self.messages.len()
            invariant
                i <= self.messages.len(),
                forall|j: int|
                    0 <= j < i ==> (#[trigger] messages_view(self.messages@)[j]).node_id
                        != node_id@,
            decreases self.messages.len() - i,
        {
            if same_bytes(self.messages[i].node_id.as_slice(), node_id) {
                return Some(i);
            }
            assert(messages_view(self.messages@)[i as int].node_id != node_id@);
            i += 1;
        }
        proof {
            use_type_invariant(self);
            lemma_nodes(messages_view(self.messages@));
        }
        None
    }

    /// The latest announcement of a node, if the node was heard of.
    pub fn get(&self, node_id: &[u8]) -> (r: Option<&AnnounceMessage>)
        ensures
            match r {
                Some(message) => self@.contains_key(node_id@) && self@[node_id@] == message@,
                None => !self@.contains_key(node_id@),
            },
    {
        match self.position(node_id) {
            Some(i) => {
                proof {
                    use_type_invariant(self);
                    lemma_nodes(messages_view(self.messages@));
                    assert(messages_view(self.messages@)[i as int] == self.messages@[i as int]@);
                }
                Some(&self.messages[i])
            },
            None => None,
        }
    }

    /// The announcements held, one for each node.
    pub fn messages(&self) -> (r: &[AnnounceMessage])
        ensures
            self@.dom().finite(),
            r@.len() == self@.len(),
            forall|i: int|
                0 <= i < r@.len() ==> self@.contains_key((#[trigger] r@[i])@.node_id)
                    && self@[r@[i]@.node_id] == r@[i]@,
    {
        proof {
            use_type_invariant(self);
            lemma_nodes(messages_view(self.messages@));
            assert forall|i: int| 0 <= i < self.messages@.len() implies self@.contains_key(
                (#[trigger] self.messages@[i])@.node_id,
            ) && self@[self.messages@[i]@.node_id] == self.messages@[i]@ by {
                assert(messages_view(self.messages@)[i] == self.messages@[i]@);
            }
        }
        self.messages.as_slice()
    }

    /// Puts an announcement under its node, in place of the one that stood
    /// there.
    pub fn insert(&mut self, message: AnnounceMessage)
        ensures
            final(self)@ == old(self)@.insert(message@.node_id, message@),
    {
        proof {
            use_type_invariant(&*self);
        }
        let ghost before = messages_view(self.messages@);
        let found = self.position(message.node_id.as_slice());
        let mut messages: Vec<AnnounceMessage> = Vec::new();
        core::mem::swap(&mut self.messages, &mut messages);
        match found {
            Some(i) => {
                messages[i] = message;
                proof {
                    let after = messages_view(messages@);
                    assert(after =~= before.update(i as int, message@));
                    assert forall|a: int, b: int| 0 <= a < b < after.len() implies (
                    #[trigger] after[a]).node_id != (#[trigger] after[b]).node_id by {
                        assert(before[a].node_id == after[a].node_id);
                        assert(before[b].node_id == after[b].node_id);
                    }
                    lemma_nodes(before);
                    lemma_nodes(after);
                    assert forall|node_id: Seq<u8>|
                        spec_nodes(after).contains_key(node_id) == spec_nodes(before).insert(
                            message@.node_id,
                            message@,
                        ).contains_key(node_id) by {
                        if spec_nodes(after).contains_key(node_id) {
                            let k = choose|k: int|
                                0 <= k < after.len() && (#[trigger] after[k]).node_id == node_id;
                            assert(before[k].node_id == node_id);
                        }
                        if spec_nodes(before).contains_key(node_id) {
                            let k = choose|k: int|
                                0 <= k < before.len() && (#[trigger] before[k]).node_id == node_id;
                            assert(after[k].node_id == node_id);
                        }
                        assert(after[i as int].node_id == message@.node_id);
                    }
                    assert forall|node_id: Seq<u8>|
                        spec_nodes(after).contains_key(node_id) implies spec_nodes(after)[node_id]
                        == spec_nodes(before).insert(message@.node_id, message@)[node_id] by {
                        let k = choose|k: int|
                            0 <= k < after.len() && (#[trigger] after[k]).node_id == node_id;
                        assert(before[k].node_id == node_id);
                        assert(after[i as int].node_id == message@.node_id);
                    }
                    assert(spec_nodes(after) =~= spec_nodes(before).insert(
                        message@.node_id,
                        message@,
                    ));
                }
            },
            None => {
                messages.push(message);
                proof {
                    let after = messages_view(messages@);
                    assert(after =~= before.push(message@));
                    assert(after.drop_last() =~= before);
                    lemma_nodes(before);
                    assert forall|a: int, b: int| 0 <= a < b < after.len() implies (
                    #[trigger] after[a]).node_id != (#[trigger] after[b]).node_id by {
                        assert(before[a] == after[a]);
                        if b < before.len() {
                            assert(before[b] == after[b]);
                        }
                    }
                }
            },
        }
        self.messages = messages;
    }

    /// Indexes a packet: an announcement is put under its node, and any
    /// other packet is let pass.
    pub fn index(&mut self, packet: Packet)
        ensures
            final(self)@ == spec_index(old(self)@, packet@),
    {
        match packet.message {
            MessageType::Announce(message) => {
                self.insert(message);
            },
            _ => {},
        }
    }
}

} // verus!
