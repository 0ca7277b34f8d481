//! Checks on the start/end pattern pair and on the matches found for them.

use vstd::prelude::*;
use vstd::string::*;
use vstd::utf8::*;
use crate::error::WriteError;
use crate::search::{contains_bytes, str_contains};
use crate::strbuf::{string_bytes, str_trim, trim, str_eq, to_owned_string, push_str, string_from_utf8};

verus! {

broadcast use vstd::utf8::group_utf8_lib;

/// The message of the error for an end pattern contained in the start pattern.
pub open spec fn end_in_start_message(start: Seq<u8>, end: Seq<u8>) -> Seq<u8> {
    "End pattern '".spec_bytes() + end + "' is contained within start pattern '".spec_bytes()
        + start + "', making it ambiguous where the section ends".spec_bytes()
}

/// The message of the error for a start pattern contained in the end pattern.
pub open spec fn start_in_end_message(start: Seq<u8>, end: Seq<u8>) -> Seq<u8> {
    "Start pattern '".spec_bytes() + start + "' is contained within end pattern '".spec_bytes()
        + end + "', making it ambiguous where the section starts".spec_bytes()
}

/// The bytes of what `str::trim` leaves of a text.
pub open spec fn trimmed_bytes(s: Seq<char>) -> Seq<u8> {
    encode_utf8(str_trim(s))
}

/// What is wrong with a start/end pattern pair, as the message of the error
/// that rejects it: empty patterns, patterns equal once trimmed, or one
/// trimmed pattern containing the other; `None` when the pair is usable.
pub open spec fn pattern_pair_error(start_str: Seq<char>, end_str: Seq<char>) -> Option<Seq<u8>> {
    if start_str.len() == 0 || end_str.len() == 0 {
        Some("Start and end patterns cannot be empty".spec_bytes())
    } else if trimmed_bytes(start_str) == trimmed_bytes(end_str) {
        Some("Start and end patterns cannot be identical when trimmed".spec_bytes())
    } else if contains_bytes(trimmed_bytes(start_str), trimmed_bytes(end_str)) {
        Some(end_in_start_message(encode_utf8(start_str), encode_utf8(end_str)))
    } else if contains_bytes(trimmed_bytes(end_str), trimmed_bytes(start_str)) {
        Some(start_in_end_message(encode_utf8(start_str), encode_utf8(end_str)))
    } else {
        None
    }
}

/// A pattern pair is accepted exactly when the swapped pair is: every check
/// looks at both patterns alike.
pub proof fn law_pattern_pair_symmetric(start_str: Seq<char>, end_str: Seq<char>)
    ensures
        pattern_pair_error(start_str, end_str) is None <==> pattern_pair_error(end_str, start_str) is None,
{
}

/// A pattern pair is rejected exactly for one of four reasons: a pattern is
/// empty, the trimmed patterns are equal, or one trimmed pattern contains
/// the other; any other pair is accepted.
pub proof fn law_pattern_pair_rejections(start_str: Seq<char>, end_str: Seq<char>)
    ensures
        pattern_pair_error(start_str, end_str) is None <==> (start_str.len() > 0 && end_str.len() > 0
            && trimmed_bytes(start_str) != trimmed_bytes(end_str) && !contains_bytes(
            trimmed_bytes(start_str),
            trimmed_bytes(end_str),
        ) && !contains_bytes(trimmed_bytes(end_str), trimmed_bytes(start_str))),
{
}

/// Rejects empty patterns, patterns that are equal once trimmed, and patterns
/// of which one, trimmed, contains the other, trimmed; each with its message.
pub fn validate_patterns(start_str: &str, end_str: &str) -> (r: Result<(), WriteError>)
    ensures
        match r {
            Ok(()) => pattern_pair_error(start_str@, end_str@) is None,
            Err(WriteError::InvalidPatternPair { content }) => pattern_pair_error(start_str@, end_str@)
                == Some(string_bytes(content)),
            _ => false,
        },
{
    if start_str.is_empty() || end_str.is_empty() {
        return Err(
            WriteError::InvalidPatternPair {
                content: to_owned_string("Start and end patterns cannot be empty"),
            },
        );
    }
    let trimmed_start = trim(start_str);
    let trimmed_end = trim(end_str);
    if str_eq(trimmed_start, trimmed_end) {
        return Err(
            WriteError::InvalidPatternPair {
                content: to_owned_string("Start and end patterns cannot be identical when trimmed"),
            },
        );
    }
    if str_contains(trimmed_start, trimmed_end) {
        let mut m: Vec<u8> = Vec::new();
        assert(valid_utf8(m@));
        push_str(&mut m, "End pattern '");
        push_str(&mut m, end_str);
        push_str(&mut m, "' is contained within start pattern '");
        push_str(&mut m, start_str);
        push_str(&mut m, "', making it ambiguous where the section ends");
        return Err(WriteError::InvalidPatternPair { content: string_from_utf8(m) });
    }
    if str_contains(trimmed_end, trimmed_start) {
        let mut m: Vec<u8> = Vec::new();
        assert(valid_utf8(m@));
        push_str(&mut m, "Start pattern '");
        push_str(&mut m, start_str);
        push_str(&mut m, "' is contained within end pattern '");
        push_str(&mut m, end_str);
        push_str(&mut m, "', making it ambiguous where the section starts");
        return Err(WriteError::InvalidPatternPair { content: string_from_utf8(m) });
    }
    Ok(())
}

/// Requires exactly one start match, exactly one end match, and no end match
/// before the start match; each failure with the file's content.
pub fn validate_matches(
    start_matches: &[(usize, &str)],
    end_matches: &[(usize, &str)],
    file_content: &str,
) -> (r: Result<(), WriteError>)
    ensures
        match r {
            Ok(()) => {
                &&& start_matches@.len() == 1
                &&& end_matches@.len() == 1
                &&& end_matches@[0].0 >= start_matches@[0].0
            },
            Err(WriteError::StartPatternNotFound { content }) => {
                &&& start_matches@.len() == 0
                &&& string_bytes(content) == file_content.spec_bytes()
            },
            Err(WriteError::MultipleStartPatternsFound { content }) => {
                &&& start_matches@.len() > 1
                &&& string_bytes(content) == file_content.spec_bytes()
            },
            Err(WriteError::EndPatternNotFound { content }) => {
                &&& start_matches@.len() == 1
                &&& end_matches@.len() == 0
                &&& string_bytes(content) == file_content.spec_bytes()
            },
            Err(WriteError::MultipleEndPatternsFound { content }) => {
                &&& start_matches@.len() == 1
                &&& end_matches@.len() > 1
                &&& string_bytes(content) == file_content.spec_bytes()
            },
            Err(WriteError::EndPatternBeforeStart { content }) => {
                &&& start_matches@.len() == 1
                &&& end_matches@.len() == 1
                &&& end_matches@[0].0 < start_matches@[0].0
                &&& string_bytes(content) == file_content.spec_bytes()
            },
            _ => false,
        },
{
    if start_matches.len() == 0 {
        return Err(WriteError::StartPatternNotFound { content: to_owned_string(file_content) });
    }
    if start_matches.len() > 1 {
        return Err(
            WriteError::MultipleStartPatternsFound { content: to_owned_string(file_content) },
        );
    }
    if end_matches.len() == 0 {
        return Err(WriteError::EndPatternNotFound { content: to_owned_string(file_content) });
    }
    if end_matches.len() > 1 {
        return Err(WriteError::MultipleEndPatternsFound { content: to_owned_string(file_content) });
    }
    let (start_pos, _) = start_matches[0];
    let (end_pos, _) = end_matches[0];
    if end_pos < start_pos {
        return Err(WriteError::EndPatternBeforeStart { content: to_owned_string(file_content) });
    }
    Ok(())
}

} // verus!
