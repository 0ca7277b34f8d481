//! Errors of the write, directory and command operations.

use vstd::prelude::*;
use crate::types::CommandOutput;

verus! {

/// The error that building a multi-pattern automaton can report; carried through untouched.
#[verifier::external_type_specification]
#[verifier::external_body]
pub struct ExBuildError(aho_corasick::BuildError);

#[derive(Debug)]
pub enum WriteError {
    FileExists { content: String },
    IoError(String),
    AhoCorasickError(aho_corasick::BuildError),
    TimestampMismatch { content: String },
    PatternNotFound { index: usize, old_str: String, content: String },
    MultiplePatternMatches {
        index: usize,
        old_str: String,
        content: String,
        match_count: usize,
        context: String,
    },
    StartPatternNotFound { content: String },
    EndPatternNotFound { content: String },
    MultipleStartPatternsFound { content: String },
    MultipleEndPatternsFound { content: String },
    EndPatternBeforeStart { content: String },
    InvalidPatternPair { content: String },
}

#[derive(Debug)]
pub enum DirectoryError {
    RegexError(String),
    IoError(String),
}

#[derive(Debug)]
pub enum CommandError {
    CommandFailed { stdout: String, stderr: String, exit_code: i32 },
    Timeout { timeout_ms: u64, stdout: String, stderr: String, output: CommandOutput },
    IoError(String),
}

} // verus!
