use vstd::prelude::*;

use std::io::{Read, Write};

verus! {

/// The zlib stream that `flate2` writes for the bytes at its fast level.
pub uninterp spec fn zlib_fast(b: Seq<u8>) -> Seq<u8>;

/// What `flate2` reads out of a zlib stream: the bytes, or nothing where the
/// stream is corrupt or cut short.
pub uninterp spec fn zlib_inflate(b: Seq<u8>) -> Option<Seq<u8>>;

/// Relies on `flate2::write::ZlibEncoder` with `Compression::fast()`: the
/// compressed stream. The encoder writes into a `Vec`, which never fails, and
/// its backend reports no error on a fresh stream, so the result is always
/// there.
#[verifier::external_body]
pub(crate) fn deflate(b: &[u8]) -> (r: Option<Vec<u8>>)
    ensures
        r is Some,
        r.unwrap()@ == zlib_fast(b@),
{
    let mut encoder = flate2::write::ZlibEncoder::new(Vec::new(), flate2::Compression::fast());
    match encoder.write_all(b) {
        Ok(()) => encoder.finish().ok(),
        Err(_) => None,
    }
}

/// Relies on `flate2::read::ZlibDecoder` read to its end: the decompressed
/// bytes, or nothing where the stream is corrupt or incomplete. zlib is
/// lossless, so a stream that the encoder wrote decodes to what it was given;
/// a proper prefix of such a stream ends before the stream does, which the
/// decoder reports as an error.
#[verifier::external_body]
pub(crate) fn inflate(b: &[u8]) -> (r: Option<Vec<u8>>)
    ensures
        r is Some <==> zlib_inflate(b@) is Some,
        r is Some ==> zlib_inflate(b@) == Some(r.unwrap()@),
        forall|p: Seq<u8>| #[trigger] zlib_fast(p) == b@ ==> r is Some && r.unwrap()@ == p,
        forall|p: Seq<u8>, j: int|
            0 <= j < zlib_fast(p).len() && #[trigger] zlib_fast(p).subrange(0, j) == b@
                ==> r is None,
{
    let mut out = Vec::new();
    match flate2::read::ZlibDecoder::new(b).read_to_end(&mut out) {
        Ok(_) => Some(out),
        Err(_) => None,
    }
}

} // verus!
