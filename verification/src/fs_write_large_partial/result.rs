//! The line numbers and the context lines reported for a section replacement.

use vstd::prelude::*;
use vstd::string::*;
use crate::types::{LargeChangeContext, PartialWriteLarge, WriteResult, WriteResultDetails, PartialWriteLargeResult};
use crate::text::{text_lines, split_lines, strs_bytes, saturating_sub, min};
use crate::strbuf::{string_bytes, strings_bytes, to_owned_string, as_str};
use crate::fs_write_partial::line_map::{
    build_line_map, line_index_or_count, line_containing, lemma_first_spanning_is_line_containing,
};

verus! {

/// The context reported around a section that was replaced: up to `ctx`
/// lines before the start line, the first two and the last two lines of the
/// replacement (the last one first), and up to `ctx` lines after the end line.
pub open spec fn is_large_change_context(
    c: LargeChangeContext,
    lines: Seq<Seq<u8>>,
    start_line: int,
    end_line: int,
    new_str: Seq<u8>,
    ctx: int,
) -> bool {
    let nl = text_lines(new_str);
    &&& strings_bytes(c.before_start@) == lines.subrange(saturating_sub(start_line, ctx), start_line)
    &&& strings_bytes(c.start_content@) == nl.subrange(0, min(2, nl.len() as int))
    &&& strings_bytes(c.end_content@) == nl.reverse().subrange(0, min(2, nl.len() as int))
    &&& strings_bytes(c.after_end@) == lines.subrange(
        end_line + 1,
        min(end_line + 1 + ctx, lines.len() as int),
    )
}

/// Copies `lines[from..to]` into owned strings.
fn owned_lines(lines: &[&str], from: usize, to: usize) -> (r: Vec<String>)
    requires
        from <= to <= lines@.len(),
    ensures
        strings_bytes(r@) == strs_bytes(lines@).subrange(from as int, to as int),
{
    let mut r: Vec<String> = Vec::new();
    let mut k = from;
    while k < to
        invariant
            from <= k <= to <= lines@.len(),
            strings_bytes(r@) == strs_bytes(lines@).subrange(from as int, k as int),
        decreases to - k,
    {
        let s = to_owned_string(lines[k]);
        let ghost before = r@;
        r.push(s);
        assert(strings_bytes(r@) =~= strs_bytes(lines@).subrange(from as int, k + 1)) by {
            assert(strings_bytes(r@) =~= strings_bytes(before).push(string_bytes(s)));
        }
        k = k + 1;
    }
    r
}

/// The context lines around a replaced section: the lines before the start
/// line, the first two and the last two lines of the replacement text, and
/// the lines after the end line.
pub fn create_context(
    lines: &[&str],
    start_line: usize,
    end_line: usize,
    partial_write: &PartialWriteLarge,
) -> (r: LargeChangeContext)
    requires
        start_line <= lines@.len(),
        end_line < lines@.len(),
        end_line + 1 + partial_write.context_lines <= usize::MAX,
    ensures
        is_large_change_context(
            r,
            strs_bytes(lines@),
            start_line as int,
            end_line as int,
            string_bytes(partial_write.new_str),
            partial_write.context_lines as int,
        ),
{
    let ctx = partial_write.context_lines;
    let before_from = if start_line >= ctx { start_line - ctx } else { 0 };
    let before_start = owned_lines(lines, before_from, start_line);
    let new_lines = split_lines(as_str(&partial_write.new_str));
    let ghost nl = text_lines(string_bytes(partial_write.new_str));
    let n = new_lines.len();
    let head = if n < 2 { n } else { 2 };
    let start_content = owned_lines(new_lines.as_slice(), 0, head);
    let mut end_content: Vec<String> = Vec::new();
    let mut k: usize = 0;
    while k < head
        invariant
            n == new_lines@.len(),
            strs_bytes(new_lines@) == nl,
            head == min(2, n as int),
            k <= head,
            strings_bytes(end_content@) == nl.reverse().subrange(0, k as int),
        decreases head - k,
    {
        let s = to_owned_string(new_lines[n - 1 - k]);
        let ghost before = end_content@;
        end_content.push(s);
        assert(strings_bytes(end_content@) =~= nl.reverse().subrange(0, k + 1)) by {
            assert(strings_bytes(end_content@) =~= strings_bytes(before).push(string_bytes(s)));
            assert(nl.reverse()[k as int] == nl[n - 1 - k]);
        }
        k = k + 1;
    }
    let after_to = if end_line + 1 + ctx < lines.len() { end_line + 1 + ctx } else { lines.len() };
    let after_end = owned_lines(lines, end_line + 1, after_to);
    LargeChangeContext { before_start, start_content, end_content, after_end }
}

/// The result of a section replacement: size and line count of the new text,
/// and the 1-based start and end lines with their context.
pub fn create_result(
    start_line: usize,
    end_line: usize,
    output: &str,
    lines: &[&str],
    partial_write: &PartialWriteLarge,
) -> (r: WriteResult)
    requires
        start_line <= lines@.len(),
        start_line < usize::MAX,
        end_line < lines@.len(),
        end_line + 1 + partial_write.context_lines <= usize::MAX,
    ensures
        r.line_count == text_lines(output.spec_bytes()).len(),
        r.size == output.spec_bytes().len(),
        r.modified is None,
        match r.details {
            WriteResultDetails::PartialLarge(d) => {
                &&& d.line_number_start == start_line + 1
                &&& d.line_number_end == end_line + 1
                &&& is_large_change_context(
                    d.context,
                    strs_bytes(lines@),
                    start_line as int,
                    end_line as int,
                    string_bytes(partial_write.new_str),
                    partial_write.context_lines as int,
                )
            },
            _ => false,
        },
{
    let lines_len = lines.len();
    let line_count = split_lines(output).len();
    let size = output.as_bytes().len();
    WriteResult {
        line_count,
        size,
        modified: None,
        details: WriteResultDetails::PartialLarge(
            PartialWriteLargeResult {
                line_number_start: start_line + 1,
                line_number_end: end_line + 1,
                context: create_context(lines, start_line, end_line, partial_write),
            },
        ),
    }
}

/// The 0-based lines that contain two offsets, each being the number of lines
/// when no line contains it.
pub fn find_line_numbers(contents: &str, start_pos: usize, end_pos: usize) -> (r: (usize, usize))
    ensures
        r.0 == line_containing(text_lines(contents.spec_bytes()), start_pos as int),
        r.1 == line_containing(text_lines(contents.spec_bytes()), end_pos as int),
{
    let map = build_line_map(contents);
    proof {
        let lines = text_lines(contents.spec_bytes());
        lemma_first_spanning_is_line_containing(map@, lines, start_pos as int, 0);
        lemma_first_spanning_is_line_containing(map@, lines, end_pos as int, 0);
    }
    (line_index_or_count(map.as_slice(), start_pos), line_index_or_count(map.as_slice(), end_pos))
}

} // verus!
