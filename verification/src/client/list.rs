//! Directory listings as a client asks for and reports them.

use vstd::prelude::*;
use crate::types::FileMetadata;

verus! {

#[derive(Debug, Clone)]
pub struct ListOptions {
    pub recursive: bool,
    pub include_stats: bool,
    pub pattern: Option<String>,
}

impl Default for ListOptions {
    fn default() -> (r: Self)
        ensures
            !r.recursive,
            !r.include_stats,
            r.pattern is None,
    {
        ListOptions { recursive: false, include_stats: false, pattern: None }
    }
}

#[derive(Debug, Clone)]
pub struct ListEntry {
    pub path: String,
    pub is_dir: bool,
    pub stats: Option<FileMetadata>,
}

} // verus!
