//! A small recursive text-search library.
//!
//! The search runs in three stages: the argument resolver turns a process
//! argument vector into a [`resolver::SearchRequest`]; the walker collects
//! the regular files under the root directory; the scanner reports, for each
//! file, every line that contains the search term. All decisions are made
//! here on plain values; the binary around the library performs the actual
//! directory listings and file reads and feeds the results in.

pub mod errors;
pub mod resolver;
pub mod scanner;
pub mod walker;
