//! The signed, compressed baseline image: key derivation and HMAC signatures,
//! gzip compression, and the framing of the image.

pub mod compress;
pub mod hmac;
pub mod serialize;
