//! The decisions of the directory walk: symbolic-link loops, and what to do
//! with each entry.

pub mod symlink;
pub mod walker;
