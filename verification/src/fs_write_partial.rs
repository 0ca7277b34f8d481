//! Replacement of several exact snippets of a text at once.

pub mod line_map;
pub mod find;
pub mod context;
pub mod process_matches;
pub mod process;
