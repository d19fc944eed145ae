use vstd::prelude::*;
use vstd::utf8::{decode_utf8, valid_utf8};

verus! {

/// The characters that `String::from_utf8_lossy` reads from a byte sequence.
pub uninterp spec fn utf8_text(b: Seq<u8>) -> Seq<char>;

/// Relies on `String::from_utf8_lossy`: the text depends on the bytes alone, and
/// valid UTF-8 is decoded unchanged.
#[verifier::external_body]
pub(crate) fn text_of(bytes: &[u8]) -> (r: String)
    ensures
        r@ == utf8_text(bytes@),
        valid_utf8(bytes@) ==> r@ == decode_utf8(bytes@),
{
    String::from_utf8_lossy(bytes).into_owned()
}

/// Relies on `char::to_string`: a character is written as itself.
#[verifier::external_body]
pub(crate) fn char_text(c: char) -> (r: String)
    ensures
        r@ == seq![c],
{
    c.to_string()
}

} // verus!
