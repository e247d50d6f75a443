//! Byte and text helpers shared by the decoders.

use vstd::prelude::*;

verus! {

use vstd::utf8::{decode_utf8, valid_utf8};

/// Each byte taken as the character with the same code point.
pub open spec fn latin1(s: Seq<u8>) -> Seq<char> {
    s.map_values(|b: u8| b as char)
}

/// Relies on `String::push`: appends one character.
#[verifier::external_body]
pub(crate) fn push_char(s: &mut String, c: char)
    ensures
        final(s)@ == old(s)@.push(c),
{
    s.push(c)
}

/// Relies on `String::from_utf8`: succeeds exactly when the bytes are valid
/// UTF-8, and then holds the characters they encode.
#[verifier::external_body]
pub(crate) fn utf8_string(bytes: Vec<u8>) -> (r: Option<String>)
    ensures
        r is Some == valid_utf8(bytes@),
        r matches Some(s) ==> s@ == decode_utf8(bytes@),
{
    String::from_utf8(bytes).ok()
}

/// The text that valid UTF-8 bytes encode; `None` for invalid ones.
pub open spec fn utf8_text(b: Seq<u8>) -> Option<Seq<char>> {
    if valid_utf8(b) {
        Some(decode_utf8(b))
    } else {
        None
    }
}

/// Copies `bytes[start..end]` into a new vector.
pub fn copy_range(bytes: &[u8], start: usize, end: usize) -> (r: Vec<u8>)
    requires
        start <= end <= bytes@.len(),
    ensures
        r@ == bytes@.subrange(start as int, end as int),
{
    let mut r: Vec<u8> = Vec::new();
    let mut i: usize = start;
    while i < end
        invariant
            start <= i <= end <= bytes@.len(),
            r@ == bytes@.subrange(start as int, i as int),
        decreases end - i,
    {
        r.push(bytes[i]);
        assert(r@ =~= bytes@.subrange(start as int, i + 1));
        i = i + 1;
    }
    r
}

/// Maps every byte to the character of the same code point.
pub fn bytes_to_string(bytes: &[u8]) -> (r: String)
    ensures
        r@ == latin1(bytes@),
{
    let mut r = String::new();
    let mut i: usize = 0;
    while i < bytes.len()
        invariant
            i <= bytes@.len(),
            r@ == latin1(bytes@.subrange(0, i as int)),
        decreases bytes.len() - i,
    {
        push_char(&mut r, bytes[i] as char);
        assert(latin1(bytes@.subrange(0, i + 1)) =~= latin1(bytes@.subrange(0, i as int)).push(
            bytes@[i as int] as char,
        ));
        i = i + 1;
    }
    assert(bytes@.subrange(0, bytes@.len() as int) =~= bytes@);
    r
}

} // verus!
