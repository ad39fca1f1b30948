//! Gzip compression of the serialized baseline.

use vstd::prelude::*;
use std::io::{Read, Write};

verus! {

/// The gzip stream that `flate2` writes for `data` at the default level.
pub uninterp spec fn gzip(data: Seq<u8>) -> Seq<u8>;

/// What `flate2` reads back from a gzip stream, or `None` when the stream is not valid.
pub uninterp spec fn gunzip(data: Seq<u8>) -> Option<Seq<u8>>;

/// The bytes of an optional vector.
pub open spec fn opt_bytes(o: Option<Vec<u8>>) -> Option<Seq<u8>> {
    match o {
        Some(v) => Some(v@),
        None => None,
    }
}

/// Compresses with `flate2::write::GzEncoder` into a `Vec<u8>` at
/// `Compression::default()` (`write_all`, then `finish`). Claimed: the encoder
/// succeeds, its output is the named gzip stream of the data, and decoding that
/// stream gives the data back (gzip is lossless). Success: writes into a `Vec`
/// never fail, and the deflate engine reports an error only on misuse (input
/// after `finish`, or a previous error), which a fresh encoder fed once and
/// finished once does not do.
#[verifier::external_body]
fn gzip_encode(data: &[u8]) -> (r: Option<Vec<u8>>)
    ensures
        r is Some,
        r matches Some(v) ==> v@ == gzip(data@) && gunzip(v@) == Some(data@),
{
    let mut encoder = flate2::write::GzEncoder::new(Vec::new(), flate2::Compression::default());
    match encoder.write_all(data) {
        Ok(()) => encoder.finish().ok(),
        Err(_) => None,
    }
}

/// Decompresses with `flate2::read::GzDecoder` over the bytes (`read_to_end`).
/// Claimed: the result is the named decoding of the bytes, `None` when the
/// decoder reports an error.
#[verifier::external_body]
fn gzip_decode(data: &[u8]) -> (r: Option<Vec<u8>>)
    ensures
        opt_bytes(r) == gunzip(data@),
{
    let mut out = Vec::new();
    match flate2::read::GzDecoder::new(data).read_to_end(&mut out) {
        Ok(_) => Some(out),
        Err(_) => None,
    }
}

/// Compresses data with gzip. The encoder always succeeds.
pub fn compress(data: &[u8]) -> (r: Option<Vec<u8>>)
    ensures
        r is Some,
        r matches Some(v) ==> v@ == gzip(data@) && gunzip(v@) == Some(data@),
{
    gzip_encode(data)
}

/// Decompresses a gzip stream; `None` when it is not valid.
pub fn decompress(data: &[u8]) -> (r: Option<Vec<u8>>)
    ensures
        opt_bytes(r) == gunzip(data@),
{
    gzip_decode(data)
}

} // verus!
