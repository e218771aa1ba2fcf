//! The query: a node asks which nodes offer some classes of service.

use crate::protocol::class_id::{
    decode_class_list, put_class_list, spec_class_list, spec_class_list_bytes, ClassID,
};
use crate::protocol::error::DecodeError;
use crate::protocol::wire::{parsed_view, Parsed};
use vstd::prelude::*;

verus! {

/// A query for the nodes that offer the given classes.
#[derive(Debug, Clone, PartialEq, Eq)]
pub struct QueryMessage {
    pub classes: Vec<ClassID>,
}

impl View for QueryMessage {
    type V = Seq<ClassID>;

    /// The classes asked for, in order.
    open spec fn view(&self) -> Seq<ClassID> {
        self.classes@
    }
}

impl QueryMessage {
    /// A query at the front of `s`: a list of classes.
    pub open spec fn spec_decode(s: Seq<u8>) -> Parsed<Seq<ClassID>> {
        spec_class_list(s)
    }

    /// The bytes of a query for `classes`.
    pub open spec fn spec_bytes(classes: Seq<ClassID>) -> Seq<u8> {
        spec_class_list_bytes(classes)
    }

    /// A query for `classes`.
    pub fn new(classes: Vec<ClassID>) -> (r: QueryMessage)
        ensures
            r@ == classes@,
    {
        QueryMessage { classes }
    }

    /// Reads a query.
    pub fn decode(input: &[u8]) -> (r: Result<(&[u8], QueryMessage), DecodeError>)
        ensures
            parsed_view(r) == QueryMessage::spec_decode(input@),
    {
        match decode_class_list(input) {
            Ok((rest, classes)) => Ok((rest, QueryMessage { classes })),
            Err(e) => Err(e),
        }
    }

    /// The bytes of this query.
    pub fn bytes(self) -> (r: Vec<u8>)
        ensures
            r@ == QueryMessage::spec_bytes(self@),
    {
        let mut r: Vec<u8> = Vec::new();
        put_class_list(&mut r, &self.classes);
        r
    }
}

} // verus!
