//! The readers and writers that every message is made of: a byte, a
//! big-endian 16-bit integer, and a field whose length is given by the byte
//! in front of it.

use crate::protocol::error::DecodeError;
use vstd::prelude::*;
use vstd::slice::slice_subrange;
use vstd::utf8::{
    decode_utf8, decode_utf8_encode_utf8, encode_utf8, encode_utf8_decode_utf8,
    encode_utf8_valid_utf8, valid_utf8,
};

verus! {

/// What a reader gives at the level of specifications: the input that is left
/// and the value read, or the reason why there is none.
pub type Parsed<T> = Result<(Seq<u8>, T), DecodeError>;

/// The specification-level image of what an executable reader returns.
pub open spec fn parsed_view<T: View>(r: Result<(&[u8], T), DecodeError>) -> Parsed<T::V> {
    match r {
        Ok((rest, value)) => Ok((rest@, value@)),
        Err(e) => Err(e),
    }
}

/// One byte.
pub open spec fn spec_u8(s: Seq<u8>) -> Parsed<u8> {
    if s.len() < 1 {
        Err(DecodeError::Truncated)
    } else {
        Ok((s.skip(1), s[0]))
    }
}

/// The number that two bytes denote, the first being the more significant.
pub open spec fn spec_be16(hi: u8, lo: u8) -> u16 {
    (hi as int * 256 + lo as int) as u16
}

/// Two bytes that form a big-endian 16-bit integer.
pub open spec fn spec_u16(s: Seq<u8>) -> Parsed<u16> {
    if s.len() < 2 {
        Err(DecodeError::Truncated)
    } else {
        Ok((s.skip(2), spec_be16(s[0], s[1])))
    }
}

/// Reads one byte.
pub fn be_u8(input: &[u8]) -> (r: Result<(&[u8], u8), DecodeError>)
    ensures
        parsed_view(r) == spec_u8(input@),
{
    if input.len() < 1 {
        Err(DecodeError::Truncated)
    } else {
        Ok((slice_subrange(input, 1, input.len()), input[0]))
    }
}

/// Reads a big-endian 16-bit integer.
pub fn be_u16(input: &[u8]) -> (r: Result<(&[u8], u16), DecodeError>)
    ensures
        parsed_view(r) == spec_u16(input@),
{
    if input.len() < 2 {
        Err(DecodeError::Truncated)
    } else {
        let hi: u16 = input[0] as u16;
        let lo: u16 = input[1] as u16;
        Ok((slice_subrange(input, 2, input.len()), hi * 256 + lo))
    }
}

/// A field: one byte that gives a length, then that many bytes. The value is
/// the bytes after the length byte.
pub open spec fn spec_field(s: Seq<u8>) -> Parsed<Seq<u8>> {
    if s.len() < 1 || s.len() < 1 + s[0] {
        Err(DecodeError::Truncated)
    } else {
        Ok((s.skip(1 + s[0]), s.subrange(1, 1 + s[0])))
    }
}

/// A field that holds a string in UTF-8.
pub open spec fn spec_str(s: Seq<u8>) -> Parsed<Seq<char>> {
    match spec_field(s) {
        Ok((rest, bytes)) => if valid_utf8(bytes) {
            Ok((rest, decode_utf8(bytes)))
        } else {
            Err(DecodeError::InvalidUtf8)
        },
        Err(e) => Err(e),
    }
}

/// The bytes of a field that holds `content`: the low eight bits of its
/// length, then the content. A content of at most 255 bytes is read back by
/// [`spec_field`].
pub open spec fn spec_field_bytes(content: Seq<u8>) -> Seq<u8> {
    seq![(content.len() % 256) as u8] + content
}

/// Reads a field: a length byte and the bytes that it counts.
pub fn take_field(input: &[u8]) -> (r: Result<(&[u8], &[u8]), DecodeError>)
    ensures
        parsed_view(r) == spec_field(input@),
{
    if input.len() < 1 {
        return Err(DecodeError::Truncated);
    }
    let length: usize = input[0] as usize;
    if input.len() - 1 < length {
        return Err(DecodeError::Truncated);
    }
    Ok((slice_subrange(input, 1 + length, input.len()), slice_subrange(input, 1, 1 + length)))
}

/// `core::str::Utf8Error`, the error of `core::str::from_utf8`. Nothing is
/// said of what it holds.
#[verifier::external_type_specification]
#[verifier::external_body]
pub struct ExUtf8Error(core::str::Utf8Error);

/// `core::str::from_utf8` accepts exactly the byte sequences that are
/// well-formed UTF-8, and the string it gives is made of the bytes it was
/// given.
pub assume_specification[ core::str::from_utf8 ](v: &[u8]) -> (r: Result<
    &str,
    core::str::Utf8Error,
>)
    ensures
        r is Ok <==> valid_utf8(v@),
        r matches Ok(s) ==> encode_utf8(s@) == v@,
;

/// Reads a field that holds a string. The bytes must be well-formed UTF-8.
pub fn parse_str(input: &[u8]) -> (r: Result<(&[u8], String), DecodeError>)
    ensures
        parsed_view(r) == spec_str(input@),
{
    let (rest, bytes) = match take_field(input) {
        Ok(found) => found,
        Err(e) => { return Err(e); },
    };
    match core::str::from_utf8(bytes) {
        Ok(text) => {
            proof {
                encode_utf8_decode_utf8(text@);
            }
            Ok((rest, text.to_owned()))
        },
        Err(_) => Err(DecodeError::InvalidUtf8),
    }
}

/// Appends `bytes` to `out`.
pub fn put_bytes(out: &mut Vec<u8>, bytes: &[u8])
    ensures
        final(out)@ == old(out)@ + bytes@,
{
    let mut i: usize = 0;
    while i < bytes.len()
        invariant
            i <= bytes.len(),
            out@ == old(out)@ + bytes@.take(i as int),
        decreases bytes.len() - i,
    {
        out.push(bytes[i]);
        i += 1;
    }
}

/// Appends to `out` the field that holds `content`.
pub fn put_field(out: &mut Vec<u8>, content: &[u8])
    ensures
        final(out)@ == old(out)@ + spec_field_bytes(content@),
{
    out.push((content.len() % 256) as u8);
    put_bytes(out, content);
}

/// A byte that was written is read back, whatever follows it.
pub proof fn lemma_u8_round_trip(byte: u8, tail: Seq<u8>)
    ensures
        spec_u8(seq![byte] + tail) == Ok::<(Seq<u8>, u8), DecodeError>((tail, byte)),
{
    assert((seq![byte] + tail).skip(1) =~= tail);
}

/// A field whose content has at most 255 bytes is read back, whatever
/// follows it.
pub proof fn lemma_field_round_trip(content: Seq<u8>, tail: Seq<u8>)
    requires
        content.len() <= 255,
    ensures
        spec_field(spec_field_bytes(content) + tail) == Ok::<(Seq<u8>, Seq<u8>), DecodeError>(
            (tail, content),
        ),
{
    let s = spec_field_bytes(content) + tail;
    assert(s[0] == content.len());
    assert(s.skip(1 + s[0]) =~= tail);
    assert(s.subrange(1, 1 + s[0]) =~= content);
}

/// A string whose UTF-8 form has at most 255 bytes is read back from the
/// field of that form, whatever follows it.
pub proof fn lemma_str_round_trip(text: Seq<char>, tail: Seq<u8>)
    requires
        encode_utf8(text).len() <= 255,
    ensures
        spec_str(spec_field_bytes(encode_utf8(text)) + tail) == Ok::<
            (Seq<u8>, Seq<char>),
            DecodeError,
        >((tail, text)),
{
    lemma_field_round_trip(encode_utf8(text), tail);
    encode_utf8_valid_utf8(text);
    encode_utf8_decode_utf8(text);
}

/// What was read as a field has at most 255 bytes and stands, behind its
/// length, at the front of the input.
pub proof fn lemma_field_read(s: Seq<u8>)
    ensures
        spec_field(s) matches Ok((rest, content)) ==> content.len() <= 255 && s
            == spec_field_bytes(content) + rest,
{
    if s.len() >= 1 && s.len() >= 1 + s[0] {
        let content = s.subrange(1, 1 + s[0]);
        assert(s =~= spec_field_bytes(content) + s.skip(1 + s[0]));
    }
}

/// What was read as a string is written as the field it was read from.
pub proof fn lemma_str_read(s: Seq<u8>)
    ensures
        spec_str(s) matches Ok((rest, text)) ==> encode_utf8(text).len() <= 255 && s
            == spec_field_bytes(encode_utf8(text)) + rest,
{
    lemma_field_read(s);
    if let Ok((rest, bytes)) = spec_field(s) {
        if valid_utf8(bytes) {
            decode_utf8_encode_utf8(bytes);
        }
    }
}

} // verus!
