//! Data exchanged by the editing, listing, grep and command operations.

use vstd::prelude::*;

verus! {

/// A point in time as the file system reports it; carried through untouched.
#[verifier::external_type_specification]
#[verifier::external_body]
pub struct ExSystemTime(std::time::SystemTime);

/// An inclusive range of 1-based line numbers; a missing bound is open.
#[derive(Debug, Clone, Copy)]
pub struct LineRange {
    pub start: Option<usize>,
    pub end: Option<usize>,
}

/// One replacement of a partial write: `old_str` is replaced by `new_str`.
#[derive(Debug, Clone)]
pub struct PartialWriteInner {
    pub old_str: String,
    pub new_str: String,
    pub allow_multiple_matches: bool,
    pub line_range: Option<LineRange>,
}

/// A set of replacements applied to one file.
#[derive(Debug, Clone)]
pub struct PartialWrite {
    pub changes: Vec<PartialWriteInner>,
    pub context_lines: usize,
    pub return_full_content: bool,
}

/// Replacement of the section that runs from `start_str` through `end_str`.
#[derive(Debug, Clone)]
pub struct PartialWriteLarge {
    pub start_str: String,
    pub end_str: String,
    pub new_str: String,
    pub context_lines: usize,
    pub line_range: Option<LineRange>,
}

/// A match of one replacement's `old_str`: which replacement, and the byte
/// offset at which the match starts.
#[derive(Debug, Clone, Copy)]
pub struct MatchInfo {
    pub pattern_index: usize,
    pub relative_match_start: usize,
}

/// What one applied replacement changed.
#[derive(Debug, Clone)]
pub struct ChangeResult {
    pub partial_write_index: usize,
    pub line_number_start: usize,
    pub line_number_end: usize,
    pub context: String,
}

#[derive(Debug, Clone)]
pub struct PartialWriteResult {
    pub change_results: Vec<ChangeResult>,
    pub full_content: Option<String>,
}

/// Lines around a replaced section.
#[derive(Debug, Clone)]
pub struct LargeChangeContext {
    pub before_start: Vec<String>,
    pub start_content: Vec<String>,
    pub end_content: Vec<String>,
    pub after_end: Vec<String>,
}

#[derive(Debug, Clone)]
pub struct PartialWriteLargeResult {
    pub line_number_start: usize,
    pub line_number_end: usize,
    pub context: LargeChangeContext,
}

#[derive(Debug, Clone)]
pub enum WriteResultDetails {
    NoDetails,
    Partial(PartialWriteResult),
    PartialLarge(PartialWriteLargeResult),
}

/// The outcome of a write: size and line count of the new contents, and
/// the file's modification time once written (where it has been read).
#[derive(Debug, Clone)]
pub struct WriteResult {
    pub line_count: usize,
    pub size: usize,
    pub modified: Option<std::time::SystemTime>,
    pub details: WriteResultDetails,
}

impl WriteResult {
    /// The same result, with the modification time that the file has after
    /// the write.
    pub fn with_modified(self, modified: std::time::SystemTime) -> (r: WriteResult)
        ensures
            r.line_count == self.line_count,
            r.size == self.size,
            r.modified == Some(modified),
            r.details == self.details,
    {
        WriteResult { line_count: self.line_count, size: self.size, modified: Some(modified), details: self.details }
    }
}

/// A file match of a grep: 1-based line number and the surrounding lines.
#[derive(Debug, Clone)]
pub struct GrepMatch {
    pub line_number: usize,
    pub context: String,
}

#[derive(Debug, Clone)]
pub struct GrepFileMatch {
    pub path: String,
    pub matches: Vec<GrepMatch>,
}

#[derive(Debug, Clone)]
pub struct GrepOptions {
    pub context_before: usize,
    pub context_after: usize,
    pub context_lines: usize,
    pub file_pattern: Option<String>,
    pub case_sensitive: bool,
}

#[derive(Debug, Clone)]
pub struct FileMetadata {
    pub modified: Option<std::time::SystemTime>,
    pub size: Option<u64>,
    pub line_count: Option<usize>,
}

#[derive(Debug, Clone)]
pub struct ListOptions {
    pub recursive: bool,
    pub include_size: bool,
    pub include_modified: bool,
    pub include_type: bool,
    pub count_lines: bool,
    pub file_pattern: Option<String>,
}

/// One entry of a directory listing; `path` is relative to the listing's base.
#[derive(Debug, Clone)]
pub struct ListEntry {
    pub path: String,
    pub is_dir: bool,
    pub symlink: bool,
    pub entry_type: String,
    pub size: Option<u64>,
    pub modified: Option<std::time::SystemTime>,
    pub stats: Option<FileMetadata>,
}

#[derive(Debug)]
pub struct TreeEntry {
    pub entry: ListEntry,
    pub children: Vec<TreeEntry>,
}

#[derive(Debug, Clone)]
pub struct CommandOutput {
    pub stdout: String,
    pub stderr: String,
    pub exit_code: i32,
}

} // verus!
