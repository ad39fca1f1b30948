//! The decisions of the watch daemon: which changes are ignored, and the
//! alert lines it logs.

pub mod scheduler;
pub mod whitelist;
