//! The replacement of a section of text, from the one match of a start
//! pattern through the first match of an end pattern after it.

use vstd::prelude::*;
use vstd::string::*;
use vstd::utf8::*;
use crate::error::WriteError;
use crate::types::{LineRange, PartialWriteLarge, WriteResult, WriteResultDetails};
use crate::text::{
    NEWLINE, count_newlines, count_newlines_in, line_number_at, text_lines, split_lines, strs_bytes,
    lemma_count_newlines_concat, lemma_count_newlines_le,
};
use crate::search::{first_occurrence_from, occurs_at, find_bytes_from, lemma_first_occurrence_from};
use crate::strbuf::{string_bytes, to_owned_string, push_range, push_str, string_from_utf8, as_str};
use crate::utf8_text::{lemma_occurrence_boundaries, lemma_valid_subrange, lemma_ascii_boundaries};
use crate::fs_write_partial::line_map::line_containing;
use super::validation::{validate_patterns, validate_matches, pattern_pair_error};
use super::result::{create_result, is_large_change_context};

verus! {

broadcast use vstd::utf8::group_utf8_lib;

/// Whether the lines `start_line..=end_line` meet `range`; a missing start
/// counts as line 1 and a missing end as the largest line number.
pub open spec fn overlaps_range(start_line: int, end_line: int, range: LineRange) -> bool {
    let range_start = match range.start {
        Some(s) => s as int,
        None => 1,
    };
    let range_end = match range.end {
        Some(e) => e as int,
        None => usize::MAX as int,
    };
    start_line <= range_end && end_line >= range_start
}

/// Whether a match at `pos` counts: there is no line range, or the match's
/// line lies in it.
pub open spec fn match_in_range(b: Seq<u8>, pos: int, range: Option<LineRange>) -> bool {
    match range {
        None => true,
        Some(rg) => overlaps_range(line_number_at(b, pos), line_number_at(b, pos), rg),
    }
}

/// The offsets, from `from` on, of the non-overlapping left-to-right
/// occurrences of `pat` in `b` whose line lies in `range`.
pub open spec fn scan_matches(b: Seq<u8>, pat: Seq<u8>, range: Option<LineRange>, from: int) -> Seq<int>
    decreases b.len() - from,
{
    if from < 0 || from >= b.len() || pat.len() == 0 {
        seq![]
    } else {
        match first_occurrence_from(b, pat, from) {
            None => seq![],
            Some(p) => {
                proof {
                    lemma_first_occurrence_from(b, pat, from);
                }
                (if match_in_range(b, p, range) {
                    seq![p]
                } else {
                    seq![]
                }) + scan_matches(b, pat, range, p + pat.len())
            },
        }
    }
}

/// The text after replacing `b[sp .. ep + elen]` by `nw`. A `\n` that opens
/// what follows the section is dropped when the text before it already ends
/// with `\n`, or when what follows starts with two of them; a final `\n` of
/// `b` is kept.
pub open spec fn replaced_section(b: Seq<u8>, sp: int, ep: int, elen: int, nw: Seq<u8>) -> Seq<u8> {
    let head = b.subrange(0, sp) + nw;
    let rem = b.subrange(ep + elen, b.len() as int);
    let rem2 = if (head.len() > 0 && head.last() == NEWLINE && rem.len() > 0 && rem[0] == NEWLINE)
        || (rem.len() >= 2 && rem[0] == NEWLINE && rem[1] == NEWLINE) {
        rem.subrange(1, rem.len() as int)
    } else {
        rem
    };
    let out = head + rem2;
    if b.len() > 0 && b.last() == NEWLINE && !(out.len() > 0 && out.last() == NEWLINE) {
        out.push(NEWLINE)
    } else {
        out
    }
}

/// Each offset that the scan counts is, from `from` on, an occurrence of the
/// pattern whose 1-based line lies in the range (at least its start and at
/// most its end where given), and each comes after the previous one ends.
pub proof fn law_scan_matches_are_occurrences_in_range(
    b: Seq<u8>,
    pat: Seq<u8>,
    range: Option<LineRange>,
    from: int,
)
    ensures
        forall|k: int|
            0 <= k < scan_matches(b, pat, range, from).len() ==> {
                let p = #[trigger] scan_matches(b, pat, range, from)[k];
                let line = count_newlines(b.subrange(0, p)) + 1;
                &&& from <= p
                &&& occurs_at(b, pat, p)
                &&& match range {
                    None => true,
                    Some(rg) => (rg.start matches Some(st) ==> line >= st) && (rg.end matches Some(en)
                        ==> line <= en) && (rg.end is None ==> line <= usize::MAX),
                }
            },
        forall|k: int|
            0 < k < scan_matches(b, pat, range, from).len() ==> scan_matches(b, pat, range, from)[k - 1]
                + pat.len() <= #[trigger] scan_matches(b, pat, range, from)[k],
    decreases b.len() - from,
{
    if !(from < 0 || from >= b.len() || pat.len() == 0) {
        lemma_first_occurrence_from(b, pat, from);
        match first_occurrence_from(b, pat, from) {
            None => {},
            Some(p) => {
                law_scan_matches_are_occurrences_in_range(b, pat, range, p + pat.len());
                let head: Seq<int> = if match_in_range(b, p, range) {
                    seq![p]
                } else {
                    seq![]
                };
                let rest = scan_matches(b, pat, range, p + pat.len());
                let all = scan_matches(b, pat, range, from);
                assert(all == head + rest);
                assert forall|k: int| 0 <= k < all.len() implies {
                    let q = #[trigger] all[k];
                    let line = count_newlines(b.subrange(0, q)) + 1;
                    &&& from <= q
                    &&& occurs_at(b, pat, q)
                    &&& match range {
                        None => true,
                        Some(rg) => (rg.start matches Some(st) ==> line >= st) && (rg.end matches Some(
                            en,
                        ) ==> line <= en) && (rg.end is None ==> line <= usize::MAX),
                    }
                } by {
                    if k < head.len() {
                        assert(all[k] == p);
                    } else {
                        assert(all[k] == rest[k - head.len()]);
                    }
                }
                assert forall|k: int| 0 < k < all.len() implies all[k - 1] + pat.len() <= #[trigger] all[k] by {
                    if k - 1 < head.len() {
                        assert(all[k - 1] == p);
                        assert(all[k] == rest[k - head.len()]);
                    } else {
                        assert(all[k] == rest[k - head.len()]);
                        assert(all[k - 1] == rest[k - 1 - head.len()]);
                    }
                }
            },
        }
    }
}

/// The newline where the new text meets what follows the section: exactly
/// one `\n` is kept where the text before the section with the new text ends
/// with one and what follows starts with one, or where what follows starts
/// with two; otherwise what follows is kept whole, and a text that ended
/// with `\n` still does.
pub proof fn law_section_joins_with_one_newline(b: Seq<u8>, sp: int, ep: int, elen: int, nw: Seq<u8>)
    requires
        0 <= sp <= ep,
        0 <= elen,
        ep + elen <= b.len(),
    ensures
        ({
            let head = b.subrange(0, sp) + nw;
            let rem = b.subrange(ep + elen, b.len() as int);
            &&& (head.len() > 0 && head[head.len() - 1] == NEWLINE && rem.len() > 0 && rem[0] == NEWLINE)
                ==> replaced_section(b, sp, ep, elen, nw) == head + rem.subrange(1, rem.len() as int)
            &&& (rem.len() >= 2 && rem[0] == NEWLINE && rem[1] == NEWLINE) ==> replaced_section(
                b,
                sp,
                ep,
                elen,
                nw,
            ) == head + rem.subrange(1, rem.len() as int)
            &&& (rem.len() > 0 && rem[0] != NEWLINE) ==> replaced_section(b, sp, ep, elen, nw) == head + rem
            &&& (rem.len() > 0 && rem[0] == NEWLINE && !(rem.len() >= 2 && rem[1] == NEWLINE) && !(head.len()
                > 0 && head[head.len() - 1] == NEWLINE)) ==> replaced_section(b, sp, ep, elen, nw) == head
                + rem
            &&& rem.len() == 0 ==> replaced_section(b, sp, ep, elen, nw) == (if b.len() > 0 && b[b.len()
                - 1] == NEWLINE && !(head.len() > 0 && head[head.len() - 1] == NEWLINE) {
                head.push(NEWLINE)
            } else {
                head
            })
        }),
{
    let head = b.subrange(0, sp) + nw;
    let rem = b.subrange(ep + elen, b.len() as int);
    if rem.len() > 0 {
        assert(rem[rem.len() - 1] == b[b.len() - 1]);
        let rest = rem.subrange(1, rem.len() as int);
        if rest.len() > 0 {
            assert(rest[rest.len() - 1] == b[b.len() - 1]);
            assert((head + rest)[(head + rest).len() - 1] == rest[rest.len() - 1]);
        }
        assert((head + rem)[(head + rem).len() - 1] == rem[rem.len() - 1]);
    } else {
        assert(head + rem =~= head);
    }
}

/// What a section replacement decides before anything is written: the
/// 0-based lines of the start and end matches, and the new text.
pub struct LargeWritePlan {
    pub start_line: usize,
    pub end_line: usize,
    pub output: String,
}

/// The 1-based line of `pos`, and that line plus the number of `\n` in `pattern`.
pub fn get_line_range_for_pattern(contents: &str, pos: usize, pattern: &str) -> (r: (usize, usize))
    requires
        pos <= contents.spec_bytes().len(),
        line_number_at(contents.spec_bytes(), pos as int) + count_newlines(pattern.spec_bytes())
            <= usize::MAX,
    ensures
        r.0 == line_number_at(contents.spec_bytes(), pos as int),
        r.1 == r.0 + count_newlines(pattern.spec_bytes()),
{
    let b = contents.as_bytes();
    let p = pattern.as_bytes();
    let newlines = count_newlines_in(b, 0, pos);
    let start_line = newlines + 1;
    let pattern_lines = count_newlines_in(p, 0, p.len());
    proof {
        assert(p@.subrange(0, p@.len() as int) =~= p@);
    }
    let end_line = start_line + pattern_lines;
    (start_line, end_line)
}

/// Whether the lines `start_line..=end_line` meet `range`.
pub fn pattern_overlaps_range(start_line: usize, end_line: usize, range: &LineRange) -> (r: bool)
    ensures
        r == overlaps_range(start_line as int, end_line as int, *range),
{
    let range_start = match range.start {
        Some(s) => s,
        None => 1,
    };
    let range_end = match range.end {
        Some(e) => e,
        None => usize::MAX,
    };
    start_line <= range_end && end_line >= range_start
}

/// The offsets of the non-overlapping occurrences of `pat` in `contents`,
/// left to right, keeping those whose line lies in `range`.
fn scan_pattern(contents: &str, pat: &str, range: &Option<LineRange>) -> (r: Vec<usize>)
    requires
        pat.spec_bytes().len() > 0,
        contents.spec_bytes().len() < usize::MAX,
    ensures
        r@.map_values(|p: usize| p as int) == scan_matches(
            contents.spec_bytes(),
            pat.spec_bytes(),
            *range,
            0,
        ),
        forall|k: int|
            0 <= k < r@.len() ==> occurs_at(contents.spec_bytes(), pat.spec_bytes(), #[trigger] r@[k] as int),
{
    let b = contents.as_bytes();
    let p = pat.as_bytes();
    let n = b.len();
    let plen = p.len();
    let ghost sc = scan_matches(b@, p@, *range, 0);
    let mut r: Vec<usize> = Vec::new();
    let mut next_pos: usize = 0;
    while next_pos < n
        invariant
            b@ == contents.spec_bytes(),
            p@ == pat.spec_bytes(),
            n == b@.len(),
            n < usize::MAX,
            plen == p@.len(),
            plen > 0,
            sc == scan_matches(b@, p@, *range, 0),
            sc == r@.map_values(|q: usize| q as int) + scan_matches(b@, p@, *range, next_pos as int),
            forall|k: int| 0 <= k < r@.len() ==> occurs_at(b@, p@, #[trigger] r@[k] as int),
            next_pos >= n ==> scan_matches(b@, p@, *range, next_pos as int) =~= Seq::<int>::empty(),
        ensures
            sc == r@.map_values(|q: usize| q as int),
            forall|k: int| 0 <= k < r@.len() ==> occurs_at(b@, p@, #[trigger] r@[k] as int),
        decreases n - next_pos,
    {
        let found = find_bytes_from(b, p, next_pos);
        proof {
            lemma_first_occurrence_from(b@, p@, next_pos as int);
        }
        match found {
            None => {
                proof {
                    assert(scan_matches(b@, p@, *range, next_pos as int) =~= Seq::<int>::empty());
                    assert(sc =~= r@.map_values(|q: usize| q as int));
                }
                break;
            },
            Some(pos) => {
                let ghost old_r = r@;
                let ghost old_next = next_pos;
                let keep = match range {
                    None => true,
                    Some(rg) => {
                        proof {
                            assert(b@ =~= b@.subrange(0, pos as int) + b@.subrange(pos as int, n as int));
                            lemma_count_newlines_concat(
                                b@.subrange(0, pos as int),
                                b@.subrange(pos as int, pos + plen),
                            );
                            assert(b@.subrange(0, pos + plen) =~= b@.subrange(0, pos as int) + b@.subrange(
                                pos as int,
                                pos + plen,
                            ));
                            lemma_count_newlines_le(b@.subrange(0, pos + plen));
                        }
                        let (line_num, _) = get_line_range_for_pattern(contents, pos, pat);
                        pattern_overlaps_range(line_num, line_num, rg)
                    },
                };
                if keep {
                    r.push(pos);
                }
                next_pos = pos + plen;
                proof {
                    assert(r@.map_values(|q: usize| q as int) =~= old_r.map_values(|q: usize| q as int) + (
                    if keep {
                        seq![pos as int]
                    } else {
                        seq![]
                    }));
                    assert(scan_matches(b@, p@, *range, old_next as int) == (if match_in_range(
                        b@,
                        pos as int,
                        *range,
                    ) {
                        seq![pos as int]
                    } else {
                        seq![]
                    }) + scan_matches(b@, p@, *range, next_pos as int));
                }
            },
        }
    }
    r
}

/// Pairs each offset with the matched text, as the match checks take them.
fn with_text<'a>(positions: &Vec<usize>, text: &'a str) -> (r: Vec<(usize, &'a str)>)
    ensures
        r@.len() == positions@.len(),
        forall|k: int| 0 <= k < r@.len() ==> (#[trigger] r@[k]).0 == positions@[k],
{
    let mut r: Vec<(usize, &'a str)> = Vec::new();
    let mut k: usize = 0;
    while k < positions.len()
        invariant
            k <= positions@.len(),
            r@.len() == k,
            forall|j: int| 0 <= j < k ==> (#[trigger] r@[j]).0 == positions@[j],
        decreases positions@.len() - k,
    {
        r.push((positions[k], text));
        k = k + 1;
    }
    r
}

/// The offsets of the counted matches of the start pattern.
pub open spec fn start_matches_of(b: Seq<u8>, pw: PartialWriteLarge) -> Seq<int> {
    scan_matches(b, encode_utf8(pw.start_str@), pw.line_range, 0)
}

/// The offsets of the counted matches of the end pattern.
pub open spec fn end_matches_of(b: Seq<u8>, pw: PartialWriteLarge) -> Seq<int> {
    scan_matches(b, encode_utf8(pw.end_str@), pw.line_range, 0)
}

/// The pattern pair is usable, there is one start match and one end match,
/// and the end match comes after the start match.
pub open spec fn section_found(b: Seq<u8>, pw: PartialWriteLarge) -> bool {
    &&& pattern_pair_error(pw.start_str@, pw.end_str@) is None
    &&& start_matches_of(b, pw).len() == 1
    &&& end_matches_of(b, pw).len() == 1
    &&& end_matches_of(b, pw)[0] > start_matches_of(b, pw)[0]
}

/// The new text when the section is found.
pub open spec fn section_output(b: Seq<u8>, pw: PartialWriteLarge) -> Seq<u8> {
    replaced_section(
        b,
        start_matches_of(b, pw)[0],
        end_matches_of(b, pw)[0],
        encode_utf8(pw.end_str@).len() as int,
        encode_utf8(pw.new_str@),
    )
}

/// How a section replacement of `b` ends: which error, with which content,
/// or which plan.
pub open spec fn large_plan_outcome(
    b: Seq<u8>,
    pw: PartialWriteLarge,
    r: Result<LargeWritePlan, WriteError>,
) -> bool {
    let pair_ok = pattern_pair_error(pw.start_str@, pw.end_str@) is None;
    let sm = start_matches_of(b, pw);
    let em = end_matches_of(b, pw);
    match r {
        Err(WriteError::InvalidPatternPair { content }) => pattern_pair_error(
            pw.start_str@,
            pw.end_str@,
        ) == Some(string_bytes(content)),
        Err(WriteError::StartPatternNotFound { content }) => {
            &&& pair_ok
            &&& sm.len() == 0
            &&& string_bytes(content) == b
        },
        Err(WriteError::MultipleStartPatternsFound { content }) => {
            &&& pair_ok
            &&& sm.len() > 1
            &&& string_bytes(content) == b
        },
        Err(WriteError::EndPatternNotFound { content }) => {
            &&& pair_ok
            &&& sm.len() == 1
            &&& (em.len() == 0 || (em.len() == 1 && em[0] == sm[0]))
            &&& string_bytes(content) == b
        },
        Err(WriteError::MultipleEndPatternsFound { content }) => {
            &&& pair_ok
            &&& sm.len() == 1
            &&& em.len() > 1
            &&& string_bytes(content) == b
        },
        Err(WriteError::EndPatternBeforeStart { content }) => {
            &&& pair_ok
            &&& sm.len() == 1
            &&& em.len() == 1
            &&& em[0] < sm[0]
            &&& string_bytes(content) == b
        },
        Ok(plan) => {
            &&& section_found(b, pw)
            &&& plan.start_line == line_containing(text_lines(b), sm[0])
            &&& plan.end_line == line_containing(text_lines(b), em[0])
            &&& string_bytes(plan.output) == section_output(b, pw)
        },
        _ => false,
    }
}

/// The outcome of locating the section: which error, or the start and end
/// offsets.
pub open spec fn section_located(b: Seq<u8>, pw: PartialWriteLarge, r: Result<(usize, usize), WriteError>) -> bool {
    match r {
        Ok((sp, ep)) => {
            &&& section_found(b, pw)
            &&& sp == start_matches_of(b, pw)[0]
            &&& ep == end_matches_of(b, pw)[0]
        },
        Err(e) => large_plan_outcome(b, pw, Err(e)),
    }
}

/// Validates the pattern pair and finds the one start match and the one end
/// match after it.
fn locate_section(contents: &str, partial_write: &PartialWriteLarge) -> (r: Result<(usize, usize), WriteError>)
    requires
        contents.spec_bytes().len() < usize::MAX,
    ensures
        section_located(contents.spec_bytes(), *partial_write, r),
        r matches Ok((sp, ep)) ==> occurs_at(contents.spec_bytes(), encode_utf8(partial_write.start_str@), sp as int)
            && occurs_at(contents.spec_bytes(), encode_utf8(partial_write.end_str@), ep as int),
{
    let start_str = as_str(&partial_write.start_str);
    let end_str = as_str(&partial_write.end_str);
    match validate_patterns(start_str, end_str) {
        Ok(()) => {},
        Err(e) => {
            return Err(e);
        },
    }
    let start_positions = scan_pattern(contents, start_str, &partial_write.line_range);
    let end_positions = scan_pattern(contents, end_str, &partial_write.line_range);
    proof {
        assert(start_positions@.map_values(|q: usize| q as int).len() == start_positions@.len());
        assert(end_positions@.map_values(|q: usize| q as int).len() == end_positions@.len());
    }
    if start_positions.len() == 0 {
        return Err(WriteError::StartPatternNotFound { content: to_owned_string(contents) });
    }
    let start_matches = with_text(&start_positions, start_str);
    let end_matches = with_text(&end_positions, end_str);
    proof {
        assert(start_positions@.map_values(|q: usize| q as int)[0] == start_positions@[0] as int);
        if end_positions@.len() > 0 {
            assert(end_positions@.map_values(|q: usize| q as int)[0] == end_positions@[0] as int);
        }
    }
    match validate_matches(start_matches.as_slice(), end_matches.as_slice(), contents) {
        Ok(()) => {},
        Err(e) => {
            return Err(e);
        },
    }
    let start_pos = start_positions[0];
    let end_pos = end_positions[0];
    if !(end_pos > start_pos) {
        return Err(WriteError::EndPatternNotFound { content: to_owned_string(contents) });
    }
    Ok((start_pos, end_pos))
}

/// Builds the text with `b[start_pos .. end_pos + end_len]` replaced by `new_str`.
fn build_section_output(contents: &str, start_pos: usize, end_pos: usize, end_str: &str, new_str: &str) -> (r: String)
    requires
        end_str.spec_bytes().len() > 0,
        contents.spec_bytes().len() > 0,
        start_pos <= end_pos,
        occurs_at(contents.spec_bytes(), end_str.spec_bytes(), end_pos as int),
        is_char_boundary(contents.spec_bytes(), start_pos as int),
    ensures
        string_bytes(r) == replaced_section(
            contents.spec_bytes(),
            start_pos as int,
            end_pos as int,
            end_str.spec_bytes().len() as int,
            new_str.spec_bytes(),
        ),
{
    let ghost b = contents.spec_bytes();
    let bytes = contents.as_bytes();
    let n = bytes.len();
    let end_len = end_str.as_bytes().len();
    proof {
        lemma_occurrence_boundaries(b, end_str.spec_bytes(), end_pos as int);
        lemma_valid_subrange(b, 0, start_pos as int);
    }
    let mut out: Vec<u8> = Vec::new();
    push_range(&mut out, bytes, 0, start_pos);
    push_str(&mut out, new_str);
    let ghost head = out@;
    let rem_start = end_pos + end_len;
    let skip: usize = if (out.len() > 0 && out[out.len() - 1] == NEWLINE && rem_start < n
        && bytes[rem_start] == NEWLINE) || (n > 1 && rem_start < n - 1 && bytes[rem_start] == NEWLINE
        && bytes[rem_start + 1] == NEWLINE) {
        1
    } else {
        0
    };
    proof {
        is_char_boundary_start_end_of_seq(b);
        if skip == 1 {
            lemma_ascii_boundaries(b, rem_start as int);
        }
        lemma_valid_subrange(b, rem_start + skip, n as int);
    }
    push_range(&mut out, bytes, rem_start + skip, n);
    proof {
        valid_utf8_concat(head, b.subrange(rem_start + skip, n as int));
        let rem = b.subrange(rem_start as int, n as int);
        if skip == 1 {
            assert(rem.subrange(1, rem.len() as int) =~= b.subrange(rem_start + 1, n as int));
        }
    }
    if n > 0 && bytes[n - 1] == NEWLINE && !(out.len() > 0 && out[out.len() - 1] == NEWLINE) {
        let ghost before = out@;
        out.push(NEWLINE);
        proof {
            crate::utf8_text::lemma_ascii_byte_valid(NEWLINE);
            valid_utf8_concat(before, seq![NEWLINE]);
            assert(out@ =~= before + seq![NEWLINE]);
        }
    }
    proof {
        assert(out@ =~= replaced_section(b, start_pos as int, end_pos as int, end_len as int, new_str.spec_bytes()));
    }
    string_from_utf8(out)
}

/// Decides a section replacement: validates the pattern pair, finds the one
/// start match and the one end match after it (within the line range, if
/// any), and builds the new text with the section replaced.
pub fn plan_large_partial_write(contents: &str, partial_write: &PartialWriteLarge) -> (r: Result<
    LargeWritePlan,
    WriteError,
>)
    requires
        contents.spec_bytes().len() < usize::MAX,
    ensures
        large_plan_outcome(contents.spec_bytes(), *partial_write, r),
{
    let (start_pos, end_pos) = match locate_section(contents, partial_write) {
        Ok(p) => p,
        Err(e) => {
            return Err(e);
        },
    };
    let (start_line, end_line) = crate::fs_write_large_partial::result::find_line_numbers(
        contents,
        start_pos,
        end_pos,
    );
    let start_str = as_str(&partial_write.start_str);
    proof {
        lemma_occurrence_boundaries(contents.spec_bytes(), start_str.spec_bytes(), start_pos as int);
    }
    let output = build_section_output(
        contents,
        start_pos,
        end_pos,
        as_str(&partial_write.end_str),
        as_str(&partial_write.new_str),
    );
    Ok(LargeWritePlan { start_line, end_line, output })
}

/// The context of a found section can be reported: its end line exists and
/// the line arithmetic fits in `usize`.
pub open spec fn section_reportable(b: Seq<u8>, pw: PartialWriteLarge) -> bool {
    let lines = text_lines(b);
    let sl = line_containing(lines, start_matches_of(b, pw)[0]);
    let el = line_containing(lines, end_matches_of(b, pw)[0]);
    &&& el < lines.len()
    &&& el + 1 + pw.context_lines <= usize::MAX
    &&& sl < usize::MAX
}

/// A section replacement of a file's contents, up to the write: the new text
/// and the result to report. `Ok(None)` when the section is found but its
/// context cannot be reported (its end line lies outside every line), where
/// the write is not carried out.
pub fn apply_large_partial_write(contents: &str, partial_write: &PartialWriteLarge) -> (r: Result<
    Option<(String, WriteResult)>,
    WriteError,
>)
    requires
        contents.spec_bytes().len() < usize::MAX,
    ensures
        match r {
            Err(e) => large_plan_outcome(contents.spec_bytes(), *partial_write, Err(e)),
            Ok(None) => section_found(contents.spec_bytes(), *partial_write) && !section_reportable(
                contents.spec_bytes(),
                *partial_write,
            ),
            Ok(Some((out, res))) => {
                let b = contents.spec_bytes();
                let lines = text_lines(b);
                &&& section_found(b, *partial_write)
                &&& section_reportable(b, *partial_write)
                &&& string_bytes(out) == section_output(b, *partial_write)
                &&& res.line_count == text_lines(string_bytes(out)).len()
                &&& res.size == string_bytes(out).len()
                &&& res.modified is None
                &&& match res.details {
                    WriteResultDetails::PartialLarge(d) => {
                        &&& d.line_number_start == line_containing(lines, start_matches_of(b, *partial_write)[0]) + 1
                        &&& d.line_number_end == line_containing(lines, end_matches_of(b, *partial_write)[0]) + 1
                        &&& is_large_change_context(
                            d.context,
                            lines,
                            line_containing(lines, start_matches_of(b, *partial_write)[0]),
                            line_containing(lines, end_matches_of(b, *partial_write)[0]),
                            string_bytes(partial_write.new_str),
                            partial_write.context_lines as int,
                        )
                    },
                    _ => false,
                }
            },
        },
{
    let lines = split_lines(contents);
    let plan = match plan_large_partial_write(contents, partial_write) {
        Ok(p) => p,
        Err(e) => {
            return Err(e);
        },
    };
    let n = lines.len();
    let ctx = partial_write.context_lines;
    proof {
        let b = contents.spec_bytes();
        assert(strs_bytes(lines@).len() == lines@.len());
        crate::fs_write_partial::line_map::lemma_line_containing_from(
            text_lines(b),
            start_matches_of(b, *partial_write)[0],
            0,
        );
    }
    if !(plan.end_line < n && ctx <= usize::MAX - 1 - plan.end_line && plan.start_line < usize::MAX) {
        return Ok(None);
    }
    let result = create_result(plan.start_line, plan.end_line, as_str(&plan.output), lines.as_slice(), partial_write);
    Ok(Some((plan.output, result)))
}

} // verus!
