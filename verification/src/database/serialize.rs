//! The baseline image: `[signature length, u32 little-endian | signature |
//! gzip stream of the serialized baseline]`, signed with a key derived from
//! a password.

use vstd::prelude::*;
use crate::database::compress::{compress, decompress, gunzip, gzip};
use crate::database::hmac::{derive_key, hmac_sha256, password_key, sign, verify, TAG_LEN};

verus! {

/// Why an image was refused or could not be made.
#[derive(Debug, Clone, Copy, PartialEq, Eq, Structural)]
pub enum DbError {
    /// The image is too short for its header or for the signature it announces.
    Corrupted,
    /// The signature does not match the data under the password's key.
    InvalidSignature,
    /// The signed data is not a valid gzip stream.
    Decompression,
}

/// The number that four bytes encode, least significant byte first.
pub open spec fn le_u32(b: Seq<u8>) -> int {
    b[0] + 256 * b[1] + 65536 * b[2] + 16777216 * b[3]
}

/// The four bytes of a number below 2^32, least significant first.
pub open spec fn u32_le(n: nat) -> Seq<u8> {
    seq![(n % 256) as u8, ((n / 256) % 256) as u8, ((n / 65536) % 256) as u8, ((n / 16777216) % 256) as u8]
}

/// An image: the signature's length, the signature, then the payload.
pub open spec fn frame(signature: Seq<u8>, payload: Seq<u8>) -> Seq<u8> {
    u32_le(signature.len()) + signature + payload
}

/// The image of serialized data under a password: the data compressed, and
/// signed with the password's key.
pub open spec fn image_of(serialized: Seq<u8>, password: Seq<char>) -> Seq<u8> {
    frame(hmac_sha256(password_key(password), gzip(serialized)), gzip(serialized))
}

/// What reading an image with a password gives: an error when the image is
/// shorter than its header or than the signature it announces, when the
/// signature is not the one of the payload under the password's key, or when
/// the payload is not a valid gzip stream; otherwise the decompressed payload.
pub open spec fn read_image(data: Seq<u8>, password: Seq<char>) -> Result<Seq<u8>, DbError> {
    if data.len() < 4 {
        Err(DbError::Corrupted)
    } else {
        let n = le_u32(data.take(4));
        if data.len() < 4 + n {
            Err(DbError::Corrupted)
        } else {
            let signature = data.subrange(4, 4 + n);
            let payload = data.skip(4 + n);
            if signature != hmac_sha256(password_key(password), payload) {
                Err(DbError::InvalidSignature)
            } else {
                match gunzip(payload) {
                    Some(x) => Ok(x),
                    None => Err(DbError::Decompression),
                }
            }
        }
    }
}

proof fn lemma_le_u32_roundtrip(n: nat)
    requires
        n < 4294967296,
    ensures
        le_u32(u32_le(n)) == n,
{
    let b = u32_le(n);
    assert(b[0] == n % 256);
    assert(b[1] == (n / 256) % 256);
    assert(b[2] == (n / 65536) % 256);
    assert(b[3] == (n / 16777216) % 256);
    assert(n == n % 256 + 256 * ((n / 256) % 256) + 65536 * ((n / 65536) % 256) + 16777216 * ((n / 16777216) % 256)) by (nonlinear_arith)
        requires
            n < 4294967296,
    {
        assert(n == n % 256 + 256 * (n / 256));
        assert(n / 256 == (n / 256) % 256 + 256 * (n / 65536));
        assert(n / 65536 == (n / 65536) % 256 + 256 * (n / 16777216));
        assert((n / 16777216) % 256 == n / 16777216);
    }
}

/// Reading a framed image gives back its signature and payload.
pub proof fn lemma_frame_parts(signature: Seq<u8>, payload: Seq<u8>)
    requires
        signature.len() < 4294967296,
    ensures
        ({
            let data = frame(signature, payload);
            &&& data.len() >= 4 + signature.len()
            &&& le_u32(data.take(4)) == signature.len()
            &&& data.subrange(4, 4 + signature.len() as int) == signature
            &&& data.skip(4 + signature.len() as int) == payload
        }),
{
    let data = frame(signature, payload);
    lemma_le_u32_roundtrip(signature.len());
    assert(data.take(4) =~= u32_le(signature.len()));
    assert(data.subrange(4, 4 + signature.len() as int) =~= signature);
    assert(data.skip(4 + signature.len() as int) =~= payload);
}

/// Frames a signature and a payload into an image.
pub fn encode_image(signature: &[u8], payload: &[u8]) -> (image: Vec<u8>)
    requires
        signature@.len() < 4294967296,
    ensures
        image@ == frame(signature@, payload@),
{
    let n: u64 = signature.len() as u64;
    let mut image: Vec<u8> = Vec::new();
    image.push((n % 256) as u8);
    image.push(((n / 256) % 256) as u8);
    image.push(((n / 65536) % 256) as u8);
    image.push(((n / 16777216) % 256) as u8);
    let mut i: usize = 0;
    while i < signature.len()
        invariant
            i <= signature@.len(),
            image@ == u32_le(signature@.len()) + signature@.take(i as int),
        decreases signature@.len() - i,
    {
        image.push(signature[i]);
        assert(signature@.take((i + 1) as int) =~= signature@.take(i as int).push(signature@[i as int]));
        i = i + 1;
    }
    let mut j: usize = 0;
    while j < payload.len()
        invariant
            j <= payload@.len(),
            i == signature@.len(),
            image@ == u32_le(signature@.len()) + signature@.take(i as int) + payload@.take(j as int),
        decreases payload@.len() - j,
    {
        image.push(payload[j]);
        assert(payload@.take((j + 1) as int) =~= payload@.take(j as int).push(payload@[j as int]));
        j = j + 1;
    }
    assert(signature@.take(i as int) =~= signature@);
    assert(payload@.take(j as int) =~= payload@);
    image
}

/// Splits an image into its signature and payload; `Corrupted` when it is
/// shorter than its header or than the signature it announces.
pub fn decode_image(data: &[u8]) -> (r: Result<(&[u8], &[u8]), DbError>)
    ensures
        match r {
            Ok((signature, payload)) => {
                &&& data@.len() >= 4
                &&& data@.len() >= 4 + le_u32(data@.take(4))
                &&& signature@ == data@.subrange(4, 4 + le_u32(data@.take(4)))
                &&& payload@ == data@.skip(4 + le_u32(data@.take(4)))
            },
            Err(e) => e == DbError::Corrupted && (data@.len() < 4 || data@.len() < 4 + le_u32(data@.take(4))),
        },
{
    if data.len() < 4 {
        return Err(DbError::Corrupted);
    }
    let n: u64 = data[0] as u64 + 256 * (data[1] as u64) + 65536 * (data[2] as u64) + 16777216 * (data[3] as u64);
    assert(n == le_u32(data@.take(4)));
    if (data.len() as u64) < 4 + n {
        return Err(DbError::Corrupted);
    }
    let end: usize = (4 + n) as usize;
    let signature = &data[4..end];
    let payload = &data[end..data.len()];
    assert(payload@ =~= data@.skip(4 + le_u32(data@.take(4))));
    Ok((signature, payload))
}

/// Makes the image of serialized data under a password: the data is
/// compressed, signed with the key derived from the password, and framed.
/// It always succeeds, and the image reads back, with the same password, to
/// the same data.
pub fn save(serialized: &[u8], password: &str) -> (r: Result<Vec<u8>, DbError>)
    ensures
        r is Ok,
        r matches Ok(image) ==> image@ == image_of(serialized@, password@)
            && read_image(image@, password@) == Ok::<Seq<u8>, DbError>(serialized@),
{
    let compressed = compress(serialized).unwrap();
    let key = derive_key(password);
    let signature = sign(compressed.as_slice(), key.as_slice());
    assert(signature@.len() == TAG_LEN);
    let image = encode_image(signature.as_slice(), compressed.as_slice());
    proof {
        lemma_frame_parts(signature@, compressed@);
    }
    Ok(image)
}

/// Reads an image with a password: checks the header and the signature
/// against the key derived from the password, then decompresses the payload.
pub fn load(data: &[u8], password: &str) -> (r: Result<Vec<u8>, DbError>)
    ensures
        match r {
            Ok(v) => read_image(data@, password@) == Ok::<Seq<u8>, DbError>(v@),
            Err(e) => read_image(data@, password@) == Err::<Seq<u8>, DbError>(e),
        },
{
    let (signature, payload) = match decode_image(data) {
        Ok(parts) => parts,
        Err(e) => return Err(e),
    };
    let key = derive_key(password);
    if !verify(payload, key.as_slice(), signature) {
        return Err(DbError::InvalidSignature);
    }
    match decompress(payload) {
        Some(v) => Ok(v),
        None => Err(DbError::Decompression),
    }
}

} // verus!
