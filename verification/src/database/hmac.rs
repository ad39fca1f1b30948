//! Key derivation from a password (PBKDF2-HMAC-SHA256) and HMAC-SHA256
//! signatures.

use vstd::prelude::*;
use hmac::{Hmac, Mac};
use sha2::Sha256;

verus! {

/// Number of PBKDF2 rounds used to derive the key from the password.
pub const PBKDF2_ROUNDS: u32 = 10000;

/// Length in bytes of the derived key.
pub const KEY_LEN: usize = 32;

/// The salt of the key derivation.
pub const KEY_SALT: &'static str = "AuditFS";

/// Length in bytes of an HMAC-SHA256 tag.
pub const TAG_LEN: usize = 32;

/// The HMAC-SHA256 tag of `data` under `key`.
pub uninterp spec fn hmac_sha256(key: Seq<u8>, data: Seq<u8>) -> Seq<u8>;

/// The `len` bytes that PBKDF2-HMAC-SHA256 derives from `password` and `salt` in `rounds` rounds.
pub uninterp spec fn pbkdf2_hmac_sha256(password: Seq<u8>, salt: Seq<u8>, rounds: u32, len: usize) -> Seq<u8>;

/// The key derived from a password: its UTF-8 bytes through PBKDF2 with the
/// library's salt and number of rounds.
pub open spec fn password_key(password: Seq<char>) -> Seq<u8> {
    pbkdf2_hmac_sha256(
        vstd::utf8::encode_utf8(password),
        vstd::utf8::encode_utf8(KEY_SALT@),
        PBKDF2_ROUNDS,
        KEY_LEN,
    )
}

/// Calls `pbkdf2::pbkdf2_hmac::<Sha256>` on a buffer of `len` bytes. Claimed:
/// the buffer then holds the named derivation of the arguments, and has `len`
/// bytes (the function fills the buffer it is given; it cannot fail, as HMAC
/// accepts keys of any length).
#[verifier::external_body]
fn pbkdf2_sha256(password: &[u8], salt: &[u8], rounds: u32, len: usize) -> (key: Vec<u8>)
    ensures
        key@ == pbkdf2_hmac_sha256(password@, salt@, rounds, len),
        key@.len() == len,
{
    let mut key = vec![0u8; len];
    pbkdf2::pbkdf2_hmac::<Sha256>(password, salt, rounds, &mut key);
    key
}

/// Computes `Hmac::<Sha256>` over `data` with `key` (`new_from_slice`,
/// `update`, `finalize`). Claimed: the tag is the named HMAC of the arguments
/// and has 32 bytes (SHA-256's output size). `new_from_slice` never fails for
/// HMAC, which accepts keys of any length.
#[verifier::external_body]
fn hmac_sha256_tag(key: &[u8], data: &[u8]) -> (tag: Vec<u8>)
    ensures
        tag@ == hmac_sha256(key@, data@),
        tag@.len() == TAG_LEN,
{
    let mut mac = <Hmac<Sha256> as Mac>::new_from_slice(key).expect("HMAC accepts keys of any length");
    mac.update(data);
    mac.finalize().into_bytes().to_vec()
}

/// Calls `Mac::verify_slice` of `Hmac::<Sha256>` keyed with `key` over `data`.
/// Claimed: the result is `true` exactly when `tag` equals the HMAC of the
/// data (the crate compares all bytes, in constant time, and refuses a tag of
/// another length).
#[verifier::external_body]
fn hmac_sha256_check(key: &[u8], data: &[u8], tag: &[u8]) -> (ok: bool)
    ensures
        ok == (tag@ == hmac_sha256(key@, data@)),
{
    let mut mac = <Hmac<Sha256> as Mac>::new_from_slice(key).expect("HMAC accepts keys of any length");
    mac.update(data);
    mac.verify_slice(tag).is_ok()
}

/// Derives the signing key from a password.
pub fn derive_key(password: &str) -> (key: Vec<u8>)
    ensures
        key@ == password_key(password@),
        key@.len() == KEY_LEN,
{
    pbkdf2_sha256(password.as_bytes(), KEY_SALT.as_bytes(), PBKDF2_ROUNDS, KEY_LEN)
}

/// The signature of `data` under `key`: its HMAC-SHA256 tag.
pub open spec fn signature_of(data: Seq<u8>, key: Seq<u8>) -> Seq<u8> {
    hmac_sha256(key, data)
}

/// Whether `signature` is accepted as the signature of `data` under `key`.
pub open spec fn accepts(data: Seq<u8>, key: Seq<u8>, signature: Seq<u8>) -> bool {
    signature == hmac_sha256(key, data)
}

/// Signs data with a key: its HMAC-SHA256 tag.
pub fn sign(data: &[u8], key: &[u8]) -> (signature: Vec<u8>)
    ensures
        signature@ == signature_of(data@, key@),
        signature@.len() == TAG_LEN,
{
    hmac_sha256_tag(key, data)
}

/// Whether `signature` is the HMAC-SHA256 tag of `data` under `key`.
pub fn verify(data: &[u8], key: &[u8], signature: &[u8]) -> (ok: bool)
    ensures
        ok == accepts(data@, key@, signature@),
{
    hmac_sha256_check(key, data, signature)
}

/// What `sign` makes with a key is what `verify` accepts with the same key over the same data.
pub proof fn lemma_signature_accepted(data: Seq<u8>, key: Seq<u8>)
    ensures
        accepts(data, key, signature_of(data, key)),
{
}

} // verus!
