//! Verified text-editing core of a code-manipulation toolkit: line maps,
//! pattern-based partial rewrites of file contents, validation of
//! start/end pattern pairs, grep context extraction and path checks.

pub mod utf8_text;
pub mod text;
pub mod search;
pub mod decimal;
pub mod strbuf;
pub mod types;
pub mod error;
pub mod fs_write_partial;
pub mod fs_write_large_partial;
pub mod path_utils;
pub mod fs_ops;
pub mod grep;
pub mod directory;
pub mod fs_read;
pub mod client;
pub mod fs_write;
pub mod command;
pub mod keyed;
