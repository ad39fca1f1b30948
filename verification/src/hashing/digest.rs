//! SHA-256 and BLAKE3 digests of bytes, rendered in lowercase hexadecimal.

use vstd::prelude::*;
use sha2::Digest;
use crate::text::{hex_lower, lemma_hex_lower_len, to_hex_lower};

verus! {

/// The SHA-256 digest of the bytes.
pub uninterp spec fn sha256_digest(data: Seq<u8>) -> Seq<u8>;

/// The BLAKE3 hash of the bytes (32 bytes of output).
pub uninterp spec fn blake3_digest(data: Seq<u8>) -> Seq<u8>;

/// Calls `sha2::Sha256::digest`. Claimed: the result is the named digest of
/// the bytes, 32 bytes long (SHA-256's output size).
#[verifier::external_body]
fn sha256_bytes(data: &[u8]) -> (d: Vec<u8>)
    ensures
        d@ == sha256_digest(data@),
        d@.len() == 32,
{
    sha2::Sha256::digest(data).to_vec()
}

/// Calls `blake3::hash`. Claimed: the result is the named hash of the bytes,
/// 32 bytes long (`blake3::OUT_LEN`).
#[verifier::external_body]
fn blake3_bytes(data: &[u8]) -> (d: Vec<u8>)
    ensures
        d@ == blake3_digest(data@),
        d@.len() == 32,
{
    blake3::hash(data).as_bytes().to_vec()
}

/// The SHA-256 digest of the bytes, in lowercase hexadecimal (64 characters).
pub fn sha256_hex(data: &[u8]) -> (s: String)
    ensures
        s@ == hex_lower(sha256_digest(data@)),
        s@.len() == 64,
{
    let d = sha256_bytes(data);
    to_hex_lower(d.as_slice())
}

/// The BLAKE3 hash of the bytes, in lowercase hexadecimal (64 characters).
pub fn blake3_hex(data: &[u8]) -> (s: String)
    ensures
        s@ == hex_lower(blake3_digest(data@)),
        s@.len() == 64,
{
    let d = blake3_bytes(data);
    to_hex_lower(d.as_slice())
}

} // verus!
