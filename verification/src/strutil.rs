//! Conversions between byte strings and text, against vstd's UTF-8 model.

use vstd::prelude::*;

use vstd::utf8::{decode_utf8, valid_utf8};

verus! {

/// What `String::from_utf8_lossy` yields for a byte string; a function of
/// the bytes alone.
pub uninterp spec fn lossy_chars(b: Seq<u8>) -> Seq<char>;

/// Relies on `String::from_utf8` (std): succeeds exactly on valid UTF-8 and
/// decodes it, per vstd's UTF-8 model.
#[verifier::external_body]
pub fn utf8_string(b: Vec<u8>) -> (r: Option<String>)
    ensures
        r is Some <==> valid_utf8(b@),
        r matches Some(s) ==> s@ == decode_utf8(b@),
{
    String::from_utf8(b).ok()
}

/// Relies on `String::from_utf8_lossy` (std): the result depends on the
/// bytes alone, and valid UTF-8 is decoded unchanged.
#[verifier::external_body]
pub fn utf8_string_lossy(b: &[u8]) -> (r: String)
    ensures
        r@ == lossy_chars(b@),
        r@ == if valid_utf8(b@) {
            decode_utf8(b@)
        } else {
            lossy_chars(b@)
        },
{
    String::from_utf8_lossy(b).into_owned()
}

/// Decides whether two string slices hold the same characters.
pub fn str_eq(a: &str, b: &str) -> (r: bool)
    ensures
        r == (a@ == b@),
{
    let na = a.unicode_len();
    let nb = b.unicode_len();
    if na != nb {
        return false;
    }
    for i in 0..na
        invariant
            na == a@.len() == b@.len(),
            forall|j: int| 0 <= j < i ==> a@[j] == b@[j],
    {
        if a.get_char(i) != b.get_char(i) {
            return false;
        }
    }
    assert(a@ =~= b@);
    true
}

/// Relies on `String::push` (std): appends one character.
#[verifier::external_body]
pub fn string_push(s: &mut String, c: char)
    ensures
        final(s)@ == old(s)@.push(c),
{
    s.push(c);
}

} // verus!
