//! Compression of wire payloads: gzip streams, made and read by `flate2`.
use vstd::prelude::*;
use std::io::Write;
use flate2::write::{GzDecoder, GzEncoder};
use flate2::Compression;

verus! {

/// What `flate2` makes of `data` at its fast level: the gzip stream, or
/// nothing where it cannot write one.
pub uninterp spec fn gzip_fast(data: Seq<u8>) -> Option<Seq<u8>>;

/// What `flate2` reads from the gzip stream `data`: the bytes that the stream
/// holds, or nothing where `data` is not one complete gzip member.
pub uninterp spec fn gunzip(data: Seq<u8>) -> Option<Seq<u8>>;

/// Calls `flate2::write::GzEncoder::new` with `flate2::Compression::fast`,
/// writes `data` to the encoder and finishes it. The contract claims only that
/// whether a stream comes back, and which, is the same for the same `data`.
#[verifier::external_body]
fn gzip_encode(data: &[u8]) -> (r: Option<Vec<u8>>)
    ensures
        r matches Some(bytes) ==> gzip_fast(data@) == Some(bytes@),
        r is None ==> gzip_fast(data@) is None,
{
    let mut encoder = GzEncoder::new(Vec::new(), Compression::fast());
    encoder.write_all(data).ok()?;
    encoder.finish().ok()
}

/// Calls `flate2::write::GzDecoder::new`, writes `data` to the decoder and
/// finishes it. The contract claims only that whether bytes come back, and
/// which, is the same for the same `data`.
#[verifier::external_body]
fn gzip_decode(data: &[u8]) -> (r: Option<Vec<u8>>)
    ensures
        r matches Some(bytes) ==> gunzip(data@) == Some(bytes@),
        r is None ==> gunzip(data@) is None,
{
    let mut decoder = GzDecoder::new(Vec::new());
    decoder.write_all(data).ok()?;
    decoder.finish().ok()
}

/// Compresses a payload into a gzip stream, at the fast level. Nothing
/// comes back where the stream could not be written, and only there.
pub fn compress_data(data: &[u8]) -> (r: Option<Vec<u8>>)
    ensures
        r matches Some(bytes) ==> gzip_fast(data@) == Some(bytes@),
        r is None ==> gzip_fast(data@) is None,
{
    gzip_encode(data)
}

/// Decompresses a gzip stream into the payload that it holds. Nothing comes
/// back where the bytes are not one complete gzip member.
pub fn decompress_data(data: &[u8]) -> (r: Option<Vec<u8>>)
    ensures
        r matches Some(bytes) ==> gunzip(data@) == Some(bytes@),
        r is None ==> gunzip(data@) is None,
{
    gzip_decode(data)
}

} // verus!
