//! A read as a client reports it.

use vstd::prelude::*;
use crate::types::FileMetadata;

verus! {

#[derive(Debug)]
pub struct ReadResult {
    pub content: String,
    pub metadata: FileMetadata,
}

} // verus!
