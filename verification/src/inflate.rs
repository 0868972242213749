//! Zlib decompression for the length-prefixed asset records that follow
//! the gamedata header. The decompression itself is flate2's; this module
//! only names its result and reports failure as a reader error.

use crate::reader::ReaderError;
use vstd::prelude::*;

verus! {

/// What zlib decompression yields for a byte sequence: the decompressed
/// bytes, or nothing when the input does not begin with a valid zlib
/// stream. Bytes after the end of the stream are ignored, not an error.
/// The result depends on the bytes alone.
pub uninterp spec fn inflated(s: Seq<u8>) -> Option<Seq<u8>>;

/// Relies on flate2's `ZlibDecoder` and `Read::read_to_end`: decoding is a
/// pure function of the input bytes, succeeding exactly when they begin
/// with a valid zlib stream (anything after its end is ignored).
#[verifier::external_body]
fn zlib_decode(data: &[u8]) -> (r: Result<Vec<u8>, ReaderError>)
    ensures
        r matches Ok(v) ==> inflated(data@) == Some(v@),
        r matches Err(e) ==> inflated(data@) is None && e == ReaderError::IoFailure,
{
    let mut decoder = flate2::read::ZlibDecoder::new(data);
    let mut buf: Vec<u8> = Vec::with_capacity(data.len());
    match std::io::Read::read_to_end(&mut decoder, &mut buf) {
        Ok(_) => Ok(buf),
        Err(_) => Err(ReaderError::IoFailure),
    }
}

/// Inflate a zlib stream into a fresh buffer; a malformed stream is an
/// error, exactly as a truncated read would be.
pub fn inflate(data: &Vec<u8>) -> (r: Result<Vec<u8>, ReaderError>)
    ensures
        inflated(data@) is Some ==> r is Ok && r->Ok_0@ == inflated(data@)->0,
        inflated(data@) is None ==> r == Err::<Vec<u8>, ReaderError>(ReaderError::IoFailure),
{
    zlib_decode(data.as_slice())
}

} // verus!
