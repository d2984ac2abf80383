//! Permissive text decoding. Both formats store text as raw bytes; invalid
//! sequences are replaced rather than rejected.

use vstd::prelude::*;

verus! {

/// `String::push_str` appends the other string's characters; std
/// documents exactly that.
pub assume_specification[ std::string::String::push_str ](s: &mut std::string::String, other: &str)
    ensures
        final(s)@ == old(s)@ + other@,
;

/// The characters that permissive UTF-8 decoding gives for `bytes`; they
/// depend on the bytes alone.
pub uninterp spec fn lossy_of(bytes: Seq<u8>) -> Seq<char>;

/// Relies on `String::from_utf8_lossy`: the result is a function of the
/// bytes alone, and valid UTF-8 input decodes exactly (to vstd's
/// `decode_utf8` of the bytes).
#[verifier::external_body]
pub(crate) fn lossy_string(bytes: &[u8]) -> (r: String)
    ensures
        r@ == lossy_of(bytes@),
        vstd::utf8::valid_utf8(bytes@) ==> r@ == vstd::utf8::decode_utf8(bytes@),
{
    String::from_utf8_lossy(bytes).into_owned()
}

} // verus!
