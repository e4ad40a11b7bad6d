//! Compression of frames: room snapshots travel zlib-compressed at the fast
//! level; a compressed frame from a client is inflated before decoding.
use flate2::write::{ZlibDecoder, ZlibEncoder};
use std::io::Write;
use vstd::prelude::*;

verus! {

/// The zlib stream that fast-level compression makes of some bytes.
pub uninterp spec fn zlib_fast(b: Seq<u8>) -> Seq<u8>;

/// What inflating a zlib stream gives, when it can be inflated.
pub uninterp spec fn zlib_inflated(b: Seq<u8>) -> Option<Seq<u8>>;

/// Relies on flate2's `ZlibEncoder` over a `Vec` at `Compression::fast()`:
/// writing into a `Vec` cannot fail, so both `write_all` and `finish`
/// succeed; the stream depends on the input alone, and zlib is lossless, so
/// inflating it gives the input back.
#[verifier::external_body]
fn deflate_fast(b: &[u8]) -> (r: Option<Vec<u8>>)
    ensures
        r is Some,
        r matches Some(v) ==> v@ == zlib_fast(b@) && zlib_inflated(v@) == Some(b@),
{
    let mut encoder = ZlibEncoder::new(Vec::new(), flate2::Compression::fast());
    match encoder.write_all(b) {
        Ok(()) => encoder.finish().ok(),
        Err(_) => None,
    }
}

/// Relies on flate2's `ZlibDecoder` over a `Vec`: the output, or the failure,
/// depends on the input alone.
#[verifier::external_body]
fn inflate(b: &[u8]) -> (r: Option<Vec<u8>>)
    ensures
        match r {
            Some(v) => zlib_inflated(b@) == Some(v@),
            None => zlib_inflated(b@) is None,
        },
{
    let mut decoder = ZlibDecoder::new(Vec::new());
    match decoder.write_all(b) {
        Ok(()) => decoder.finish().ok(),
        Err(_) => None,
    }
}

/// The compressed form of an encoded message; inflating it gives the
/// message back.
pub fn compress_frame(payload: &[u8]) -> (r: Vec<u8>)
    ensures
        r@ == zlib_fast(payload@),
        zlib_inflated(r@) == Some(payload@),
{
    match deflate_fast(payload) {
        Some(v) => v,
        None => Vec::new(),
    }
}

/// The encoded message inside a compressed frame, if the frame inflates.
pub fn decompress_frame(frame: &[u8]) -> (r: Option<Vec<u8>>)
    ensures
        r is Some <==> zlib_inflated(frame@) is Some,
        r matches Some(v) ==> zlib_inflated(frame@) == Some(v@),
{
    inflate(frame)
}

} // verus!
