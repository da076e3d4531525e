//! Entry-level compression, done by `miniz_oxide`.

use vstd::prelude::*;

verus! {

/// The zlib stream that `miniz_oxide` produces for `input` at `level`.
pub uninterp spec fn zlib_stream(input: Seq<u8>, level: u8) -> Seq<u8>;

/// The compression level used for every entry.
pub const COMPRESSION_LEVEL: u8 = 6;

/// Calls `miniz_oxide::deflate::compress_to_vec_zlib`.
///
/// Trusted: the returned bytes are the zlib stream that the encoder produces
/// for this input and level. Nothing is claimed about its length or content;
/// the encoder is a function of its two arguments alone.
#[verifier::external_body]
pub(crate) fn compress(input: &Vec<u8>, level: u8) -> (packed: Vec<u8>)
    requires
        level <= 10,
    ensures
        packed@ == zlib_stream(input@, level),
{
    miniz_oxide::deflate::compress_to_vec_zlib(input.as_slice(), level)
}

} // verus!
