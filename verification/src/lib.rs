//! Line-level diffs between two versions of a text file, and the append-only
//! commit history that stores them.
//!
//! [`file_change_log`] compares two versions of a file and reports the added,
//! the common and the deleted lines; [`log`] keeps the history of commits.
//! The mathematics behind the diff stands in [`subsequence`], [`lcs`] and
//! [`scan`].

pub mod subsequence;
pub mod lcs;
pub mod scan;
pub mod file_change_log;
pub mod log;
