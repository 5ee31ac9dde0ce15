//! Locating named textual features in a source tree and its version history.
//!
//! The library compiles a list of labelled regular expressions into a
//! pattern set, matches it against file lines and commit messages, and
//! builds the uniform occurrence records that make up a report. Walking the
//! file system, reading a repository and writing the report are left to the
//! caller, which hands the library plain values.
pub mod matcher;
pub mod occurrence;
pub mod scan;
pub mod history;
pub mod pattern_file;
pub mod filter;
pub mod laws;

pub use matcher::{PatternError, PatternSet};
pub use occurrence::{Aggregator, Occurrence};
pub use scan::{line_records, scan_lines};
pub use pattern_file::{parse_pattern_line, PatternFile, PatternLine};
pub use filter::extension_allowed;
pub use history::{commit_records, format_commit_time, FIRST_RENDERABLE_SECOND, LAST_RENDERABLE_SECOND, scan_history, CommitInfo, HistoryEntry};
