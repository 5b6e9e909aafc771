//! Source-code line statistics for a directory tree.
//!
//! The crate classifies files by extension, splits a file's line count into
//! code, comment and blank lines with a fast text scan, merges per-entry
//! results into one aggregate per directory with an associative combine
//! operation, and rolls the finished tree up into per-language totals.

pub mod strutil;
pub mod language;
pub mod file_stats;
pub mod counter;
pub mod lang_stats;
pub mod scanner;
pub mod parser;
pub mod extractor;
