//! Compression by the zstd and flate2 libraries.

use std::io::{Read, Write};
use vstd::prelude::*;

verus! {

/// The zstd frame that `zstd::encode_all` makes of `data` at a level; `None`
/// where it fails.
pub uninterp spec fn zstd_encoded(data: Seq<u8>, level: i32) -> Option<Seq<u8>>;

/// What `zstd::decode_all` reads out of `data`; `None` where it fails.
pub uninterp spec fn zstd_decoded(data: Seq<u8>) -> Option<Seq<u8>>;

/// `zstd::encode_all`: the frame, from which `zstd::decode_all` reads `data`
/// back.
#[verifier::external_body]
pub(crate) fn zstd_encode(data: &[u8], level: i32) -> (r: Option<Vec<u8>>)
    ensures
        r is Some <==> zstd_encoded(data@, level) is Some,
        r matches Some(v) ==> zstd_encoded(data@, level) == Some(v@),
        r matches Some(v) ==> zstd_decoded(v@) == Some(data@),
{
    zstd::encode_all(data, level).ok()
}

/// `zstd::decode_all`: the decompressed bytes, or an error where `data` is not
/// a sequence of zstd frames.
#[verifier::external_body]
pub(crate) fn zstd_decode(data: &[u8]) -> (r: Option<Vec<u8>>)
    ensures
        r is Some <==> zstd_decoded(data@) is Some,
        r matches Some(v) ==> zstd_decoded(data@) == Some(v@),
{
    zstd::decode_all(data).ok()
}

/// The gzip stream that `flate2::write::GzEncoder` makes of `data` at a level;
/// `None` where it fails.
pub uninterp spec fn gzip_encoded(data: Seq<u8>, level: u32) -> Option<Seq<u8>>;

/// What `flate2::read::GzDecoder` reads out of `data`; `None` where it fails.
pub uninterp spec fn gzip_decoded(data: Seq<u8>) -> Option<Seq<u8>>;

/// `flate2::write::GzEncoder`, fed with all of `data` and finished: a stream
/// from which `flate2::read::GzDecoder` reads `data` back. The encoder takes
/// levels up to 10.
#[verifier::external_body]
pub(crate) fn gzip_encode(data: &[u8], level: u32) -> (r: Option<Vec<u8>>)
    requires
        level <= 10,
    ensures
        r is Some <==> gzip_encoded(data@, level) is Some,
        r matches Some(v) ==> gzip_encoded(data@, level) == Some(v@),
        r matches Some(v) ==> gzip_decoded(v@) == Some(data@),
{
    let mut encoder = flate2::write::GzEncoder::new(Vec::new(), flate2::Compression::new(level));
    encoder.write_all(data).ok()?;
    encoder.finish().ok()
}

/// `flate2::read::GzDecoder`, read to its end: the decompressed bytes, or an
/// error where `data` does not start with a gzip stream.
#[verifier::external_body]
pub(crate) fn gzip_decode(data: &[u8]) -> (r: Option<Vec<u8>>)
    ensures
        r is Some <==> gzip_decoded(data@) is Some,
        r matches Some(v) ==> gzip_decoded(data@) == Some(v@),
{
    let mut out = Vec::new();
    flate2::read::GzDecoder::new(data).read_to_end(&mut out).ok()?;
    Some(out)
}

} // verus!
