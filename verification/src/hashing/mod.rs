//! Content hashes of files (SHA-256 and BLAKE3, in lowercase hexadecimal) and
//! the snapshot types.

pub mod digest;
pub mod types;

pub use types::{DirectorySnapshot, FileSnapshot, IntegrityDB};
