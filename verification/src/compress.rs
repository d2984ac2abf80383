//! Transparent zlib decompression of section payloads.

use vstd::prelude::*;

verus! {

/// The bytes that inflating the zlib stream `stream` to completion yields,
/// or `None` when the stream is truncated or corrupt; the outcome depends on
/// the stream alone.
pub uninterp spec fn zlib_inflate(stream: Seq<u8>) -> Option<Seq<u8>>;

/// Relies on `flate2::read::ZlibDecoder` driven by `read_to_end`: inflating
/// a byte slice to completion is a function of the bytes alone, and so is
/// whether it fails.
#[verifier::external_body]
pub(crate) fn inflate(stream: &[u8]) -> (r: Option<Vec<u8>>)
    ensures
        match r {
            Some(v) => zlib_inflate(stream@) == Some(v@),
            None => zlib_inflate(stream@) is None,
        },
{
    let mut decoder = flate2::read::ZlibDecoder::new(stream);
    let mut buf = Vec::new();
    match std::io::Read::read_to_end(&mut decoder, &mut buf) {
        Ok(_) => Some(buf),
        Err(_) => None,
    }
}

} // verus!
