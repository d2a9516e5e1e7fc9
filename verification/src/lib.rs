//! Verified substring search over byte texts.
//!
//! The heart of the library is a Boyer-Moore-Horspool scanner that reports,
//! for every occurrence of a non-empty query in a text, the line containing
//! it: its 0-based line number and the span of the full line.  On top of it
//! sit string-facing search functions and the small configuration layer of
//! the command-line tool.

pub mod casefold;
pub mod config;
pub mod lines;
pub mod matcher;
pub mod search;
pub mod skip;
pub mod textutil;

pub use casefold::{fold_byte, fold_bytes};
pub use config::{parse_arguments, Config};
pub use lines::line_for_offset;
pub use matcher::{search_bytes, LineMatch};
pub use search::{search, search_case_insensitive, search_with_mode};
