//! Write requests and their results as a client sees them.

use vstd::prelude::*;
use crate::types::{PartialWrite, PartialWriteLarge, WriteResult, WriteResultDetails};

verus! {

/// What a write does to a file: replace it whole, apply replacements of
/// given texts, or replace the section between two texts.
#[derive(Debug)]
pub enum WriteOperation {
    Full(String),
    Partial(PartialWrite),
    PartialLarge(PartialWriteLarge),
}

/// A write's result, with the outcome of the checks run after it.
#[derive(Debug)]
pub struct WriteResultWithChecks {
    pub line_count: usize,
    pub size: usize,
    pub details: WriteResultDetails,
    pub check_results: Vec<String>,
}

impl WriteResultWithChecks {
    /// The result of a write before any check has run.
    pub fn from_write_result(result: WriteResult) -> (r: Self)
        ensures
            r.line_count == result.line_count,
            r.size == result.size,
            r.details == result.details,
            r.check_results@.len() == 0,
    {
        WriteResultWithChecks {
            line_count: result.line_count,
            size: result.size,
            details: result.details,
            check_results: Vec::new(),
        }
    }
}

impl From<WriteResult> for WriteResultWithChecks {
    /// The result's fields carried over, with no check run yet.
    fn from(result: WriteResult) -> (r: Self)
        ensures
            r.line_count == result.line_count,
            r.size == result.size,
            r.details == result.details,
            r.check_results@.len() == 0,
    {
        Self::from_write_result(result)
    }
}

impl vstd::std_specs::convert::FromSpecImpl<WriteResult> for WriteResultWithChecks {
    /// The conversion is stated by the `ensures` of `from` itself: the
    /// converted value holds a fresh, empty list of checks, and no single
    /// `Vec` value stands for every such list in specifications.
    open spec fn obeys_from_spec() -> bool {
        false
    }

    open spec fn from_spec(v: WriteResult) -> Self {
        arbitrary()
    }
}

/// A grep hit as a client reports it: the file, the 1-based line, and the
/// lines around it.
#[derive(Debug)]
pub struct GrepMatch {
    pub path: String,
    pub line_number: usize,
    pub context: String,
}

} // verus!
