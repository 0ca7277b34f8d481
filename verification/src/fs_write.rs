//! The results that writes report, and the check that a file was not
//! changed since it was read.

use vstd::prelude::*;
use vstd::string::*;
use crate::types::{ChangeResult, PartialWriteResult, WriteResult, WriteResultDetails};
use crate::error::WriteError;
use crate::text::{text_lines, count_lines};
use crate::strbuf::{string_bytes, to_owned_string};

verus! {

/// The result of writing `contents` whole: its line count and size, and the
/// file's modification time after the write.
pub fn full_write_result(contents: &str, modified: std::time::SystemTime) -> (r: WriteResult)
    ensures
        r.line_count == text_lines(contents.spec_bytes()).len(),
        r.size == contents.spec_bytes().len(),
        r.modified == Some(modified),
        r.details is NoDetails,
{
    WriteResult {
        line_count: count_lines(contents),
        size: contents.as_bytes().len(),
        modified: Some(modified),
        details: WriteResultDetails::NoDetails,
    }
}

/// The result of a partial write that produced `output`: its line count and
/// size, the file's modification time after the write, the changes made, and
/// the whole new text when it is asked for.
pub fn partial_write_result(
    output: &str,
    change_results: Vec<ChangeResult>,
    return_full_content: bool,
    modified: std::time::SystemTime,
) -> (r: WriteResult)
    ensures
        r.line_count == text_lines(output.spec_bytes()).len(),
        r.size == output.spec_bytes().len(),
        r.modified == Some(modified),
        match r.details {
            WriteResultDetails::Partial(p) => {
                &&& p.change_results@ == change_results@
                &&& match p.full_content {
                    Some(c) => return_full_content && string_bytes(c) == output.spec_bytes(),
                    None => !return_full_content,
                }
            },
            _ => false,
        },
{
    let full_content = if return_full_content {
        Some(to_owned_string(output))
    } else {
        None
    };
    WriteResult {
        line_count: count_lines(output),
        size: output.as_bytes().len(),
        modified: Some(modified),
        details: WriteResultDetails::Partial(PartialWriteResult { change_results, full_content }),
    }
}

/// A write that names the time at which the file was read goes ahead only
/// if the file still has that time; otherwise the error carries the file's
/// current contents.
pub fn check_unchanged(unchanged: bool, current_contents: String) -> (r: Result<(), WriteError>)
    ensures
        unchanged ==> r is Ok,
        !unchanged ==> (r matches Err(WriteError::TimestampMismatch { content }) && content == current_contents),
{
    if unchanged {
        Ok(())
    } else {
        Err(WriteError::TimestampMismatch { content: current_contents })
    }
}

/// A new file is written only where no file is; otherwise the error carries
/// the existing file's contents.
pub fn check_absent(exists: bool, current_contents: String) -> (r: Result<(), WriteError>)
    ensures
        !exists ==> r is Ok,
        exists ==> (r matches Err(WriteError::FileExists { content }) && content == current_contents),
{
    if exists {
        Err(WriteError::FileExists { content: current_contents })
    } else {
        Ok(())
    }
}

} // verus!
