//! File-integrity auditing: snapshots of a directory tree, comparison of two
//! snapshots, text and HTML reports, and a signed, compressed baseline image.

pub mod daemon;
pub mod database;
pub mod diff;
pub mod hashing;
pub mod order;
pub mod path_map;
pub mod scanner;
pub mod text;
