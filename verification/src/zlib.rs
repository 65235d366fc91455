//! The zlib boundary: the two trusted wrappers around flate2 and the
//! names given to what they return.

use std::io::Read;
use std::io::Write;

use vstd::prelude::*;

verus! {

/// The bytes flate2's zlib encoder produces, at its default compression
/// level, for the given input. A pure function of the input bytes.
pub uninterp spec fn spec_deflate(data: Seq<u8>) -> Seq<u8>;

/// What flate2's zlib decoder recovers from a stream starting at the
/// beginning of the given bytes: the decompressed payload, or nothing when
/// the stream is corrupt or truncated. A pure function of the input bytes.
pub uninterp spec fn spec_inflate(data: Seq<u8>) -> Option<Seq<u8>>;

/// Relies on flate2's `ZlibEncoder`: writing into a `Vec` cannot fail, the
/// compressed output depends on the input bytes alone, and zlib
/// compression is lossless — `ZlibDecoder` recovers exactly the input from
/// it.
#[verifier::external_body]
pub(crate) fn zlib_compress(data: &Vec<u8>) -> (r: Vec<u8>)
    ensures
        r@ == spec_deflate(data@),
        spec_inflate(r@) == Some(data@),
{
    let mut encoder = flate2::write::ZlibEncoder::new(Vec::new(), flate2::Compression::default());
    encoder.write_all(data).expect("writing into a Vec cannot fail");
    encoder.finish().expect("writing into a Vec cannot fail")
}

/// Relies on flate2's `ZlibDecoder`: it reads one whole zlib stream from
/// the start of the input (bytes after the stream end are ignored), and
/// what it returns depends on the input bytes alone.
#[verifier::external_body]
pub(crate) fn zlib_decompress(data: &Vec<u8>, from: usize) -> (r: Option<Vec<u8>>)
    requires
        from <= data@.len(),
    ensures
        match r {
            Some(d) => spec_inflate(data@.subrange(from as int, data@.len() as int)) == Some(d@),
            None => spec_inflate(data@.subrange(from as int, data@.len() as int)) is None,
        },
{
    let mut decoder = flate2::read::ZlibDecoder::new(&data[from..]);
    let mut out = Vec::new();
    match decoder.read_to_end(&mut out) {
        Ok(_) => Some(out),
        Err(_) => None,
    }
}

} // verus!
