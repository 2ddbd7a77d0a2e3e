//! Line-oriented substring search.
//!
//! The library splits a text body into its logical lines and returns, in
//! order, the lines that contain a query string, either exactly or after
//! folding both sides to lowercase.

pub mod config;
pub mod lines;
pub mod matching;
pub mod search;

pub use config::Config;
pub use lines::split_lines;
pub use matching::contains_substring;
pub use search::search;
pub use search::search_case_insensitive;
pub use search::search_mode;
pub use search::CaseMode;
