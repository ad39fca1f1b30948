//! Comparison of two snapshots and the reports made of the result.

pub mod compare;
pub mod laws;
pub mod report;

pub use compare::{ChangeKind, DiffResult, FileChange, compare_snapshots};
pub use report::{to_html, to_text};
