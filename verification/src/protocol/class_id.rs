//! The classes of service that a node announces or asks for.

use crate::protocol::error::DecodeError;
use crate::protocol::wire::{
    be_u16, be_u8, lemma_u8_round_trip, parsed_view, put_bytes, spec_u16, spec_u8, Parsed,
};
use vstd::prelude::*;

verus! {

/// A class of service. On the wire it is a 16-bit code.
#[derive(Debug, Clone, Copy, PartialEq, Eq, Structural)]
pub enum ClassID {
    Player,
    Server,
    SecondaryPlayer,
    Testing,
    All,
    /// Stands for every code that names no class.
    Unimplemented,
}

impl View for ClassID {
    type V = ClassID;

    open spec fn view(&self) -> ClassID {
        *self
    }
}

impl ClassID {
    /// The class that a code names. Every code that names none gives
    /// `Unimplemented`.
    pub open spec fn of_code(code: u16) -> ClassID {
        if code == 0x0001 {
            ClassID::Player
        } else if code == 0x0002 {
            ClassID::Server
        } else if code == 0x0003 {
            ClassID::SecondaryPlayer
        } else if code == 0x0004 {
            ClassID::Testing
        } else if code == 0xFFFF {
            ClassID::All
        } else {
            ClassID::Unimplemented
        }
    }

    /// The code by which a class is written. `Unimplemented` is written as
    /// `0`, whatever code it was read from.
    pub open spec fn code(self) -> u16 {
        match self {
            ClassID::Player => 0x0001,
            ClassID::Server => 0x0002,
            ClassID::SecondaryPlayer => 0x0003,
            ClassID::Testing => 0x0004,
            ClassID::All => 0xFFFF,
            ClassID::Unimplemented => 0x0000,
        }
    }

    /// The two bytes of a class on the wire: its code, big-endian.
    pub open spec fn spec_bytes(self) -> Seq<u8> {
        seq![(self.code() / 256) as u8, (self.code() % 256) as u8]
    }

    /// A class at the front of `s`.
    pub open spec fn spec_decode(s: Seq<u8>) -> Parsed<ClassID> {
        match spec_u16(s) {
            Ok((rest, code)) => Ok((rest, ClassID::of_code(code))),
            Err(e) => Err(e),
        }
    }

    /// Reads a class: two bytes, a big-endian code.
    pub fn decode(input: &[u8]) -> (r: Result<(&[u8], ClassID), DecodeError>)
        ensures
            parsed_view(r) == ClassID::spec_decode(input@),
    {
        match be_u16(input) {
            Ok((rest, code)) => Ok((rest, ClassID::from(code))),
            Err(e) => Err(e),
        }
    }

    /// The two bytes of this class on the wire.
    pub fn bytes(self) -> (r: [u8; 2])
        ensures
            r@ == self.spec_bytes(),
    {
        let code: u16 = self.into();
        [(code / 256) as u8, (code % 256) as u8]
    }
}

impl From<u16> for ClassID {
    fn from(v: u16) -> (r: Self) {
        match v {
            0x0001 => ClassID::Player,
            0x0002 => ClassID::Server,
            0x0003 => ClassID::SecondaryPlayer,
            0x0004 => ClassID::Testing,
            0xFFFF => ClassID::All,
            _ => ClassID::Unimplemented,
        }
    }
}

impl vstd::std_specs::convert::FromSpecImpl<u16> for ClassID {
    open spec fn obeys_from_spec() -> bool {
        true
    }

    open spec fn from_spec(v: u16) -> Self {
        ClassID::of_code(v)
    }
}

impl From<ClassID> for u16 {
    fn from(c: ClassID) -> (r: Self) {
        match c {
            ClassID::Player => 0x0001,
            ClassID::Server => 0x0002,
            ClassID::SecondaryPlayer => 0x0003,
            ClassID::Testing => 0x0004,
            ClassID::All => 0xFFFF,
            ClassID::Unimplemented => 0x0000,
        }
    }
}

impl vstd::std_specs::convert::FromSpecImpl<ClassID> for u16 {
    open spec fn obeys_from_spec() -> bool {
        true
    }

    open spec fn from_spec(c: ClassID) -> Self {
        c.code()
    }
}

/// `n` classes, one after the other, appended to `acc`.
pub open spec fn spec_classes(s: Seq<u8>, n: nat, acc: Seq<ClassID>) -> Parsed<Seq<ClassID>>
    decreases n,
{
    if n == 0 {
        Ok((s, acc))
    } else {
        match ClassID::spec_decode(s) {
            Ok((rest, class)) => spec_classes(rest, (n - 1) as nat, acc.push(class)),
            Err(e) => Err(e),
        }
    }
}

/// A list of classes: one byte that counts them, then the classes.
pub open spec fn spec_class_list(s: Seq<u8>) -> Parsed<Seq<ClassID>> {
    match spec_u8(s) {
        Ok((rest, count)) => spec_classes(rest, count as nat, Seq::empty()),
        Err(e) => Err(e),
    }
}

/// The bytes of some classes, one after the other.
pub open spec fn spec_classes_bytes(classes: Seq<ClassID>) -> Seq<u8>
    decreases classes.len(),
{
    if classes.len() == 0 {
        Seq::empty()
    } else {
        classes.first().spec_bytes() + spec_classes_bytes(classes.drop_first())
    }
}

/// The bytes of a list of classes: the low eight bits of their number, then
/// the classes.
pub open spec fn spec_class_list_bytes(classes: Seq<ClassID>) -> Seq<u8> {
    seq![(classes.len() % 256) as u8] + spec_classes_bytes(classes)
}

/// Writing one more class adds its bytes at the end.
pub proof fn lemma_classes_bytes_push(classes: Seq<ClassID>, class: ClassID)
    ensures
        spec_classes_bytes(classes.push(class)) == spec_classes_bytes(classes)
            + class.spec_bytes(),
    decreases classes.len(),
{
    if classes.len() == 0 {
        assert(classes.push(class).drop_first() =~= Seq::<ClassID>::empty());
        assert(spec_classes_bytes(Seq::<ClassID>::empty()) =~= Seq::<u8>::empty());
        assert(spec_classes_bytes(classes.push(class)) =~= class.spec_bytes());
    } else {
        lemma_classes_bytes_push(classes.drop_first(), class);
        assert(classes.push(class).drop_first() =~= classes.drop_first().push(class));
        assert(spec_classes_bytes(classes.push(class)) =~= spec_classes_bytes(classes)
            + class.spec_bytes());
    }
}

/// Reads a list of classes: a count, then that many classes. The first class
/// that cannot be read ends the reading, and nothing is returned but the
/// reason.
pub fn decode_class_list(input: &[u8]) -> (r: Result<(&[u8], Vec<ClassID>), DecodeError>)
    ensures
        parsed_view(r) == spec_class_list(input@),
{
    let (after_count, count) = match be_u8(input) {
        Ok(found) => found,
        Err(e) => { return Err(e); },
    };
    let mut rest: &[u8] = after_count;
    let mut classes: Vec<ClassID> = Vec::new();
    let mut read: u8 = 0;
    while read < count
        invariant
            read <= count,
            spec_class_list(input@) == spec_classes(rest@, (count - read) as nat, classes@),
        decreases count - read,
    {
        match ClassID::decode(rest) {
            Ok((after, class)) => {
                rest = after;
                classes.push(class);
            },
            Err(e) => { return Err(e); },
        }
        read += 1;
    }
    Ok((rest, classes))
}

/// Appends to `out` the bytes of a list of classes.
pub fn put_class_list(out: &mut Vec<u8>, classes: &Vec<ClassID>)
    ensures
        final(out)@ == old(out)@ + spec_class_list_bytes(classes@),
{
    out.push((classes.len() % 256) as u8);
    let mut i: usize = 0;
    while i < classes.len()
        invariant
            i <= classes.len(),
            out@ == old(out)@ + seq![(classes@.len() % 256) as u8] + spec_classes_bytes(
                classes@.take(i as int),
            ),
        decreases classes.len() - i,
    {
        proof {
            lemma_classes_bytes_push(classes@.take(i as int), classes@[i as int]);
            assert(classes@.take(i as int).push(classes@[i as int]) =~= classes@.take(i + 1));
        }
        let two = classes[i].bytes();
        put_bytes(out, two.as_slice());
        i += 1;
    }
    proof {
        assert(classes@.take(classes@.len() as int) =~= classes@);
    }
}

/// A class is read back from its two bytes, whatever follows them.
pub proof fn lemma_class_round_trip(class: ClassID, tail: Seq<u8>)
    ensures
        ClassID::spec_decode(class.spec_bytes() + tail) == Ok::<(Seq<u8>, ClassID), DecodeError>(
            (tail, class),
        ),
{
    let s = class.spec_bytes() + tail;
    assert(s.skip(2) =~= tail);
    assert(s[0] == class.code() / 256);
    assert(s[1] == class.code() % 256);
}

/// Classes are read back from their bytes, whatever follows them.
pub proof fn lemma_classes_round_trip(classes: Seq<ClassID>, tail: Seq<u8>, acc: Seq<ClassID>)
    ensures
        spec_classes(spec_classes_bytes(classes) + tail, classes.len(), acc) == Ok::<
            (Seq<u8>, Seq<ClassID>),
            DecodeError,
        >((tail, acc + classes)),
    decreases classes.len(),
{
    if classes.len() == 0 {
        assert(spec_classes_bytes(classes) + tail =~= tail);
        assert(acc + classes =~= acc);
    } else {
        let first = classes.first();
        let others = classes.drop_first();
        let after = spec_classes_bytes(others) + tail;
        assert(spec_classes_bytes(classes) + tail =~= first.spec_bytes() + after);
        lemma_class_round_trip(first, after);
        lemma_classes_round_trip(others, tail, acc.push(first));
        assert(acc.push(first) + others =~= acc + classes);
    }
}

/// A list of at most 255 classes is read back from its bytes, whatever
/// follows them.
pub proof fn lemma_class_list_round_trip(classes: Seq<ClassID>, tail: Seq<u8>)
    requires
        classes.len() <= 255,
    ensures
        spec_class_list(spec_class_list_bytes(classes) + tail) == Ok::<
            (Seq<u8>, Seq<ClassID>),
            DecodeError,
        >((tail, classes)),
{
    let count = (classes.len() % 256) as u8;
    let after = spec_classes_bytes(classes) + tail;
    assert(spec_class_list_bytes(classes) + tail =~= seq![count] + after);
    lemma_u8_round_trip(count, after);
    lemma_classes_round_trip(classes, tail, Seq::empty());
    assert(Seq::<ClassID>::empty() + classes =~= classes);
}

/// Reading `n` classes adds `n` classes to those that were there.
pub proof fn lemma_classes_read(s: Seq<u8>, n: nat, acc: Seq<ClassID>)
    ensures
        spec_classes(s, n, acc) matches Ok((_, classes)) ==> classes.len() == acc.len() + n,
    decreases n,
{
    if n > 0 {
        if let Ok((rest, class)) = ClassID::spec_decode(s) {
            lemma_classes_read(rest, (n - 1) as nat, acc.push(class));
        }
    }
}

} // verus!
