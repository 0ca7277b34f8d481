//! What a read of a file reports besides its contents.

use vstd::prelude::*;
use vstd::string::*;
use crate::types::FileMetadata;
use crate::text::{text_lines, count_lines};

verus! {

/// How a file is read.
#[derive(Debug, Clone, Copy)]
pub struct ReadOptions {
    pub content_only: bool,
    pub count_lines: bool,
}

impl Default for ReadOptions {
    fn default() -> (r: Self)
        ensures
            !r.content_only,
            !r.count_lines,
    {
        ReadOptions { content_only: false, count_lines: false }
    }
}

/// The metadata reported with a file's contents: its time and size as
/// read, and its line count when the options ask for one.
pub fn read_metadata(
    content: &str,
    modified: std::time::SystemTime,
    size: u64,
    options: &ReadOptions,
) -> (r: FileMetadata)
    ensures
        r.modified == Some(modified),
        r.size == Some(size),
        r.line_count == (if options.count_lines {
            Some(text_lines(content.spec_bytes()).len() as usize)
        } else {
            None
        }),
{
    let line_count = if options.count_lines {
        Some(count_lines(content))
    } else {
        None
    };
    FileMetadata { modified: Some(modified), size: Some(size), line_count }
}

/// The metadata reported by a read that always counts lines; the time is
/// left out where the file system could not give it.
pub fn line_counted_metadata(
    content: &str,
    modified: Option<std::time::SystemTime>,
    size: u64,
) -> (r: FileMetadata)
    ensures
        r.modified == modified,
        r.size == Some(size),
        r.line_count == Some(text_lines(content.spec_bytes()).len() as usize),
{
    FileMetadata { modified, size: Some(size), line_count: Some(count_lines(content)) }
}

} // verus!
