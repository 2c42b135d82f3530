//! Discovery of the loopback TCP port that a freshly launched helper process
//! has bound, by correlating the process's socket inodes with the kernel's
//! TCP connection table.
//!
//! The library holds the logic: scanning the connection table, extracting
//! socket inodes from descriptor link targets, picking the one loopback entry
//! that belongs to the process, and the decision of each poll round. Reading
//! the kernel's files, sleeping and spawning processes are left to the caller.

pub mod text;
pub mod tcp;
pub mod socket;
pub mod resolve;
pub mod chromedriver;


pub use chromedriver::Builder;
