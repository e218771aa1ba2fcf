//! The deletion: a node withdraws classes that it announced.

use crate::protocol::class_id::{decode_class_list, spec_class_list, ClassID};
use crate::protocol::error::DecodeError;
use crate::protocol::wire::{parsed_view, spec_field, take_field, Parsed};
use vstd::prelude::*;
use vstd::slice::slice_to_vec;

verus! {

/// The withdrawal of some classes of a node.
#[derive(Debug, Clone, PartialEq, Eq)]
pub struct DeleteMessage {
    pub node_id: Vec<u8>,
    pub classes: Vec<ClassID>,
}

/// What a [`DeleteMessage`] holds.
pub struct DeleteMessageView {
    pub node_id: Seq<u8>,
    pub classes: Seq<ClassID>,
}

impl View for DeleteMessage {
    type V = DeleteMessageView;

    open spec fn view(&self) -> DeleteMessageView {
        DeleteMessageView { node_id: self.node_id@, classes: self.classes@ }
    }
}

impl DeleteMessage {
    /// A deletion at the front of `s`: the field of the node's identity, then
    /// a list of classes.
    pub open spec fn spec_decode(s: Seq<u8>) -> Parsed<DeleteMessageView> {
        match spec_field(s) {
            Ok((after_id, node_id)) => match spec_class_list(after_id) {
                Ok((rest, classes)) => Ok((rest, DeleteMessageView { node_id, classes })),
                Err(e) => Err(e),
            },
            Err(e) => Err(e),
        }
    }

    /// Reads a deletion.
    pub fn decode(input: &[u8]) -> (r: Result<(&[u8], DeleteMessage), DecodeError>)
        ensures
            parsed_view(r) == DeleteMessage::spec_decode(input@),
    {
        let (after_id, node_id) = match take_field(input) {
            Ok(found) => found,
            Err(e) => { return Err(e); },
        };
        match decode_class_list(after_id) {
            Ok((rest, classes)) => Ok(
                (rest, DeleteMessage { node_id: slice_to_vec(node_id), classes }),
            ),
            Err(e) => Err(e),
        }
    }
}

} // verus!
