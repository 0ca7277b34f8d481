//! Locating the matches of the replacements' `old_str` in a text, and the
//! checks that every replacement matches, and matches once unless allowed
//! to match more often.

use vstd::prelude::*;
use vstd::string::*;
use vstd::utf8::*;
use crate::types::{GrepMatch, LineRange, MatchInfo, PartialWrite, PartialWriteInner};
use crate::error::WriteError;
use crate::decimal::{decimal_bytes, push_decimal, lemma_decimal_ascii};
use crate::strbuf::{push_str, push_part, string_from_utf8, as_str};
use super::process_matches::{sorted_by_start, sort_by_start, lemma_sorted_len, lemma_sorted_elements};
use crate::text::{
    NEWLINE, count_newlines_in, count_newlines, line_number_at, text_lines, split_lines, strs_bytes,
    lemma_count_newlines_le,
};
use crate::strbuf::{string_bytes, join_lines, join_str_range, to_owned_string};
use crate::text::{saturating_sub, min};

verus! {

broadcast use vstd::utf8::group_utf8_lib;

/// The 1-based line on which offset `pos` lies: one more than the number of
/// `\n` before it.
pub fn get_line_number(contents: &str, pos: usize) -> (r: usize)
    requires
        pos <= contents.spec_bytes().len(),
        pos < usize::MAX,
    ensures
        r == line_number_at(contents.spec_bytes(), pos as int),
{
    let newlines = count_newlines_in(contents.as_bytes(), 0, pos);
    newlines + 1
}

/// A line number lies in a line range: there is no range, or it is at least
/// the range's start and at most its end, each where given.
pub open spec fn within_line_range(line_number: int, line_range: Option<LineRange>) -> bool {
    match line_range {
        None => true,
        Some(range) => {
            &&& (match range.start {
                None => true,
                Some(start) => line_number >= start,
            })
            &&& (match range.end {
                None => true,
                Some(end) => line_number <= end,
            })
        },
    }
}

/// Whether a 1-based line number lies in an optional line range.
pub fn is_within_line_range(line_number: usize, line_range: &Option<LineRange>) -> (r: bool)
    ensures
        r == within_line_range(line_number as int, *line_range),
{
    match line_range {
        None => true,
        Some(range) => {
            let after_start = match range.start {
                None => true,
                Some(start) => line_number >= start,
            };
            let before_end = match range.end {
                None => true,
                Some(end) => line_number <= end,
            };
            after_start && before_end
        },
    }
}

/// The context of a match as reported with a multiple-match error: the match
/// line with up to `context_lines` lines on each side, as a codebase grep
/// shows it; empty where the match lies past the last line.
pub open spec fn match_context_bytes(b: Seq<u8>, match_start: int, context_lines: int) -> Seq<u8> {
    let lines = text_lines(b);
    let match_line = line_number_at(b, match_start);
    let cs = saturating_sub(match_line - 1, context_lines);
    let ce = min(match_line + context_lines, lines.len() as int);
    if cs < ce {
        join_lines(lines.subrange(cs, ce))
    } else {
        seq![]
    }
}

/// The line number of a match and the lines around it.
pub fn format_match_context(contents: &str, match_start: usize, _pattern: &str, context_lines: usize) -> (r: GrepMatch)
    requires
        match_start <= contents.spec_bytes().len(),
        match_start < usize::MAX,
        line_number_at(contents.spec_bytes(), match_start as int) + context_lines <= usize::MAX,
    ensures
        r.line_number == line_number_at(contents.spec_bytes(), match_start as int),
        string_bytes(r.context) == match_context_bytes(
            contents.spec_bytes(),
            match_start as int,
            context_lines as int,
        ),
{
    let lines = split_lines(contents);
    let match_line = get_line_number(contents, match_start);
    let context_start = if match_line - 1 >= context_lines {
        match_line - 1 - context_lines
    } else {
        0
    };
    let sum = match_line + context_lines;
    let context_end = if sum < lines.len() { sum } else { lines.len() };
    let context = if context_start < context_end {
        join_str_range(lines.as_slice(), context_start, context_end)
    } else {
        to_owned_string("")
    };
    proof {
        reveal_strlit("");
    }
    GrepMatch { line_number: match_line, context }
}

/// The old texts of the replacements, which are the patterns searched for.
pub open spec fn old_strs(changes: Seq<PartialWriteInner>) -> Seq<Seq<char>> {
    changes.map_values(|w: PartialWriteInner| w.old_str@)
}

/// What an Aho-Corasick automaton built by `AhoCorasick::new(patterns)`
/// reports through `find_iter(haystack)`, each match as
/// `(pattern index, start offset, end offset)`.
pub uninterp spec fn aho_corasick_matches(patterns: Seq<Seq<char>>, haystack: Seq<char>) -> Seq<(usize, usize, usize)>;

/// Whether `AhoCorasick::new(patterns)` builds an automaton (it fails only
/// where the patterns exceed the crate's limits).
pub uninterp spec fn aho_corasick_builds(patterns: Seq<Seq<char>>) -> bool;

/// `AhoCorasick::new` over the replacements' old texts, then `find_iter` over
/// `haystack`, collected. On success the matches are the ones named by
/// `aho_corasick_matches`; each names a pattern, spans bytes of the haystack
/// equal to that pattern, and each ends no later than the next one starts
/// (the crate's iterator resumes each search at the end of the previous
/// match). The build fails exactly where `aho_corasick_builds` does not hold
/// of the patterns, and then the crate's error is returned.
#[verifier::external_body]
fn aho_corasick_find_iter(changes: &Vec<PartialWriteInner>, haystack: &str) -> (r: Result<
    Vec<(usize, usize, usize)>,
    aho_corasick::BuildError,
>)
    ensures
        r is Ok <==> aho_corasick_builds(old_strs(changes@)),
        r matches Ok(v) ==> {
            &&& v@ == aho_corasick_matches(old_strs(changes@), haystack@)
            &&& found_well_formed(v@, changes@, haystack.spec_bytes())
        },
{
    let ac = aho_corasick::AhoCorasick::new(changes.iter().map(|pw| pw.old_str.as_bytes()))?;
    Ok(ac.find_iter(haystack).map(|m| (m.pattern().as_usize(), m.start(), m.end())).collect())
}

/// Matches as the automaton reports them: each names a replacement, spans
/// bytes equal to its old text, and ends no later than the next one starts.
pub open spec fn found_well_formed(
    found: Seq<(usize, usize, usize)>,
    changes: Seq<PartialWriteInner>,
    b: Seq<u8>,
) -> bool {
    &&& forall|k: int|
        #![trigger found[k]]
        0 <= k < found.len() ==> {
            &&& found[k].0 < changes.len()
            &&& found[k].1 <= found[k].2 <= b.len()
            &&& b.subrange(found[k].1 as int, found[k].2 as int) == encode_utf8(
                changes[found[k].0 as int].old_str@,
            )
        }
    &&& forall|k: int| 0 <= k < found.len() - 1 ==> #[trigger] found[k].2 <= found[k + 1].1
}

/// The matches whose line lies in their replacement's line range, in the
/// order found.
pub open spec fn in_range_matches(
    b: Seq<u8>,
    changes: Seq<PartialWriteInner>,
    found: Seq<(usize, usize, usize)>,
) -> Seq<MatchInfo>
    decreases found.len(),
{
    if found.len() == 0 {
        seq![]
    } else {
        let f = found.last();
        let prev = in_range_matches(b, changes, found.drop_last());
        if within_line_range(line_number_at(b, f.1 as int), changes[f.0 as int].line_range) {
            prev.push(MatchInfo { pattern_index: f.0, relative_match_start: f.1 })
        } else {
            prev
        }
    }
}

/// A found match is kept exactly when its 1-based line (one more than the
/// `\n` before its start) is at least its replacement's range start and at
/// most its range end, each where given; the kept matches are found ones,
/// with their pattern and start.
pub proof fn law_in_range_matches_respect_line_ranges(
    b: Seq<u8>,
    changes: Seq<PartialWriteInner>,
    found: Seq<(usize, usize, usize)>,
)
    ensures
        forall|i: int|
            0 <= i < in_range_matches(b, changes, found).len() ==> {
                let m = #[trigger] in_range_matches(b, changes, found)[i];
                let line = count_newlines(b.subrange(0, m.relative_match_start as int)) + 1;
                &&& exists|j: int|
                    0 <= j < found.len() && found[j].0 == m.pattern_index && found[j].1
                        == m.relative_match_start
                &&& match changes[m.pattern_index as int].line_range {
                    None => true,
                    Some(rg) => (rg.start matches Some(st) ==> line >= st) && (rg.end matches Some(en)
                        ==> line <= en),
                }
            },
        forall|j: int|
            0 <= j < found.len() && (match changes[found[j].0 as int].line_range {
                None => true,
                Some(rg) => (rg.start matches Some(st) ==> count_newlines(b.subrange(0, found[j].1 as int)) + 1 >= st)
                    && (rg.end matches Some(en) ==> count_newlines(b.subrange(0, found[j].1 as int)) + 1 <= en),
            }) ==> in_range_matches(b, changes, found).contains(
                MatchInfo { pattern_index: #[trigger] found[j].0, relative_match_start: found[j].1 },
            ),
    decreases found.len(),
{
    if found.len() > 0 {
        let d = found.drop_last();
        law_in_range_matches_respect_line_ranges(b, changes, d);
        let prev = in_range_matches(b, changes, d);
        let r = in_range_matches(b, changes, found);
        let f = found.last();
        assert forall|i: int| 0 <= i < r.len() implies {
            let m = #[trigger] r[i];
            let line = count_newlines(b.subrange(0, m.relative_match_start as int)) + 1;
            &&& exists|j: int|
                0 <= j < found.len() && found[j].0 == m.pattern_index && found[j].1 == m.relative_match_start
            &&& match changes[m.pattern_index as int].line_range {
                None => true,
                Some(rg) => (rg.start matches Some(st) ==> line >= st) && (rg.end matches Some(en) ==> line <= en),
            }
        } by {
            if i < prev.len() {
                assert(r[i] == prev[i]);
                let m = prev[i];
                let j = choose|j: int|
                    0 <= j < d.len() && d[j].0 == m.pattern_index && d[j].1 == m.relative_match_start;
                assert(found[j] == d[j]);
            } else {
                assert(found[found.len() - 1] == f);
            }
        }
        assert forall|j: int|
            0 <= j < found.len() && (match changes[found[j].0 as int].line_range {
                None => true,
                Some(rg) => (rg.start matches Some(st) ==> count_newlines(b.subrange(0, found[j].1 as int)) + 1 >= st)
                    && (rg.end matches Some(en) ==> count_newlines(b.subrange(0, found[j].1 as int)) + 1 <= en),
            }) implies r.contains(MatchInfo { pattern_index: #[trigger] found[j].0, relative_match_start: found[j].1 }) by {
            let mi = MatchInfo { pattern_index: found[j].0, relative_match_start: found[j].1 };
            if j < d.len() {
                assert(d[j] == found[j]);
                assert(prev.contains(mi));
                let k = choose|k: int| 0 <= k < prev.len() && prev[k] == mi;
                assert(r[k] == mi);
            } else {
                assert(r[r.len() - 1] == mi);
            }
        }
    }
}

/// How many matches are of replacement `i`.
pub open spec fn count_pattern(s: Seq<MatchInfo>, i: int) -> nat
    decreases s.len(),
{
    if s.len() == 0 {
        0
    } else {
        count_pattern(s.drop_last(), i) + (if s.last().pattern_index == i { 1nat } else { 0nat })
    }
}

/// The matches of replacement `i`, in order.
pub open spec fn matches_of(s: Seq<MatchInfo>, i: int) -> Seq<MatchInfo>
    decreases s.len(),
{
    if s.len() == 0 {
        seq![]
    } else if s.last().pattern_index == i {
        matches_of(s.drop_last(), i).push(s.last())
    } else {
        matches_of(s.drop_last(), i)
    }
}

/// The first replacement, from `i` on, without any match; `n` when none.
pub open spec fn first_missing_from(s: Seq<MatchInfo>, n: int, i: int) -> int
    decreases n - i,
{
    if i >= n || i < 0 {
        n
    } else if count_pattern(s, i) == 0 {
        i
    } else {
        first_missing_from(s, n, i + 1)
    }
}

/// The first replacement, from `i` on, that matches more than once without
/// being allowed to; the number of replacements when none.
pub open spec fn first_repeated_from(s: Seq<MatchInfo>, changes: Seq<PartialWriteInner>, i: int) -> int
    decreases changes.len() - i,
{
    if i >= changes.len() || i < 0 {
        changes.len() as int
    } else if count_pattern(s, i) > 1 && !changes[i].allow_multiple_matches {
        i
    } else {
        first_repeated_from(s, changes, i + 1)
    }
}

/// One entry of the report of repeated matches: the match's line number and
/// the two lines of context around it.
pub open spec fn match_report(b: Seq<u8>, st: int) -> Seq<u8> {
    "Match on line ".spec_bytes() + decimal_bytes(line_number_at(b, st) as nat) + ":\n".spec_bytes()
        + match_context_bytes(b, st, 2)
}

/// The reports of the given matches, separated by an empty line.
pub open spec fn repeated_context(b: Seq<u8>, ms: Seq<MatchInfo>) -> Seq<u8>
    decreases ms.len(),
{
    if ms.len() == 0 {
        seq![]
    } else if ms.len() == 1 {
        match_report(b, ms[0].relative_match_start as int)
    } else {
        repeated_context(b, ms.drop_last()) + "\n\n".spec_bytes() + match_report(
            b,
            ms.last().relative_match_start as int,
        )
    }
}

/// The matches that count, ordered by start offset.
pub open spec fn selected_matches(b: Seq<u8>, pw: PartialWrite, found: Seq<(usize, usize, usize)>) -> Seq<MatchInfo> {
    sorted_by_start(in_range_matches(b, pw.changes@, found))
}

/// How the choice among found matches ends: a replacement without a match,
/// one matched more often than allowed (with the report of its matches), or
/// the matches that count, ordered by start offset.
pub open spec fn selection_outcome(
    b: Seq<u8>,
    pw: PartialWrite,
    found: Seq<(usize, usize, usize)>,
    r: Result<Vec<MatchInfo>, WriteError>,
) -> bool {
    let changes = pw.changes@;
    let s = selected_matches(b, pw, found);
    let miss = first_missing_from(s, changes.len() as int, 0);
    let rep = first_repeated_from(s, changes, 0);
    match r {
        Err(WriteError::PatternNotFound { index, old_str, content }) => {
            &&& miss < changes.len()
            &&& index == miss
            &&& old_str@ == changes[miss].old_str@
            &&& string_bytes(content) == b
        },
        Err(WriteError::MultiplePatternMatches { index, old_str, content, match_count, context }) => {
            &&& miss == changes.len()
            &&& rep < changes.len()
            &&& index == rep
            &&& old_str@ == changes[rep].old_str@
            &&& string_bytes(content) == b
            &&& match_count == count_pattern(s, rep)
            &&& string_bytes(context) == repeated_context(b, matches_of(s, rep))
        },
        Ok(v) => {
            &&& miss == changes.len()
            &&& rep == changes.len()
            &&& v@ == s
        },
        _ => false,
    }
}

/// Keeps the found matches whose line lies in their replacement's line range.
fn filter_in_range(contents: &str, changes: &Vec<PartialWriteInner>, found: &[(usize, usize, usize)]) -> (r: Vec<MatchInfo>)
    requires
        contents.spec_bytes().len() < usize::MAX,
        forall|k: int|
            #![trigger found@[k]]
            0 <= k < found@.len() ==> found@[k].0 < changes@.len() && found@[k].1 <= contents.spec_bytes().len(),
    ensures
        r@ == in_range_matches(contents.spec_bytes(), changes@, found@),
        forall|k: int|
            #![trigger r@[k]]
            0 <= k < r@.len() ==> r@[k].pattern_index < changes@.len()
                && r@[k].relative_match_start <= contents.spec_bytes().len(),
{
    let ghost b = contents.spec_bytes();
    let mut r: Vec<MatchInfo> = Vec::new();
    let mut k: usize = 0;
    assert(found@.subrange(0, 0) =~= Seq::<(usize, usize, usize)>::empty());
    while k < found.len()
        invariant
            b == contents.spec_bytes(),
            b.len() < usize::MAX,
            k <= found@.len(),
            forall|j: int|
                #![trigger found@[j]]
                0 <= j < found@.len() ==> found@[j].0 < changes@.len() && found@[j].1 <= b.len(),
            r@ == in_range_matches(b, changes@, found@.subrange(0, k as int)),
            forall|j: int|
                #![trigger r@[j]]
                0 <= j < r@.len() ==> r@[j].pattern_index < changes@.len()
                    && r@[j].relative_match_start <= b.len(),
        decreases found@.len() - k,
    {
        let (pattern_index, start, _) = found[k];
        assert(found@[k as int] == (pattern_index, start, found@[k as int].2));
        let line_number = get_line_number(contents, start);
        let change = &changes[pattern_index];
        let in_range = is_within_line_range(line_number, &change.line_range);
        proof {
            assert(found@.subrange(0, k + 1).drop_last() =~= found@.subrange(0, k as int));
            assert(found@.subrange(0, k + 1).last() == found@[k as int]);
        }
        if in_range {
            r.push(MatchInfo { pattern_index, relative_match_start: start });
        }
        k = k + 1;
    }
    assert(found@.subrange(0, found@.len() as int) =~= found@);
    r
}

/// The number of matches of replacement `i`.
fn count_matches(s: &[MatchInfo], i: usize) -> (r: usize)
    ensures
        r == count_pattern(s@, i as int),
{
    let mut c: usize = 0;
    let mut k: usize = 0;
    assert(s@.subrange(0, 0) =~= Seq::<MatchInfo>::empty());
    while k < s.len()
        invariant
            k <= s@.len(),
            c == count_pattern(s@.subrange(0, k as int), i as int),
            c <= k,
        decreases s@.len() - k,
    {
        proof {
            assert(s@.subrange(0, k + 1).drop_last() =~= s@.subrange(0, k as int));
        }
        if s[k].pattern_index == i {
            c = c + 1;
        }
        k = k + 1;
    }
    assert(s@.subrange(0, s@.len() as int) =~= s@);
    c
}

pub proof fn lemma_repeated_context_push(b: Seq<u8>, ms: Seq<MatchInfo>, x: MatchInfo)
    ensures
        repeated_context(b, ms.push(x)) == if ms.len() == 0 {
            match_report(b, x.relative_match_start as int)
        } else {
            repeated_context(b, ms) + "\n\n".spec_bytes() + match_report(b, x.relative_match_start as int)
        },
{
    assert(ms.push(x).drop_last() =~= ms);
    if ms.len() == 0 {
        assert(ms.push(x)[0] == x);
    }
}

/// The report of the matches of replacement `rep`, each with its line number
/// and two lines of context, separated by an empty line.
fn report_repeated(contents: &str, s: &Vec<MatchInfo>, rep: usize, pattern: &str) -> (r: String)
    requires
        contents.spec_bytes().len() + 3 <= usize::MAX,
        forall|k: int|
            #![trigger s@[k]]
            0 <= k < s@.len() ==> s@[k].relative_match_start <= contents.spec_bytes().len(),
    ensures
        string_bytes(r) == repeated_context(contents.spec_bytes(), matches_of(s@, rep as int)),
{
    let ghost b = contents.spec_bytes();
    let mut out: Vec<u8> = Vec::new();
    let mut first = true;
    let mut k: usize = 0;
    assert(s@.subrange(0, 0) =~= Seq::<MatchInfo>::empty());
    assert(valid_utf8(out@));
    while k < s.len()
        invariant
            b == contents.spec_bytes(),
            b.len() + 3 <= usize::MAX,
            k <= s@.len(),
            forall|j: int|
                #![trigger s@[j]]
                0 <= j < s@.len() ==> s@[j].relative_match_start <= b.len(),
            out@ == repeated_context(b, matches_of(s@.subrange(0, k as int), rep as int)),
            first == (matches_of(s@.subrange(0, k as int), rep as int).len() == 0),
            valid_utf8(out@),
        decreases s@.len() - k,
    {
        let m = s[k];
        let ghost ms = matches_of(s@.subrange(0, k as int), rep as int);
        proof {
            assert(s@.subrange(0, k + 1).drop_last() =~= s@.subrange(0, k as int));
            assert(s@.subrange(0, k + 1).last() == m);
        }
        if m.pattern_index == rep {
            let st = m.relative_match_start;
            proof {
                lemma_count_newlines_le(b.subrange(0, st as int));
            }
            let gm = format_match_context(contents, st, pattern, 2);
            if !first {
                push_str(&mut out, "\n\n");
            }
            push_str(&mut out, "Match on line ");
            let ghost before_num = out@;
            push_decimal(&mut out, gm.line_number);
            proof {
                lemma_decimal_ascii(gm.line_number as nat);
                crate::utf8_text::lemma_ascii_valid(decimal_bytes(gm.line_number as nat));
                valid_utf8_concat(before_num, decimal_bytes(gm.line_number as nat));
            }
            push_str(&mut out, ":\n");
            push_str(&mut out, as_str(&gm.context));
            proof {
                lemma_repeated_context_push(b, ms, m);
                assert(out@ =~= repeated_context(b, ms.push(m)));
            }
            first = false;
        }
        k = k + 1;
    }
    assert(s@.subrange(0, s@.len() as int) =~= s@);
    string_from_utf8(out)
}

/// Chooses, among the found matches, those whose line lies in their
/// replacement's line range, orders them by start offset, and requires every
/// replacement to match, and to match once unless it allows more matches.
pub fn select_matches(contents: &str, partial_writes: &PartialWrite, found: &[(usize, usize, usize)]) -> (r: Result<
    Vec<MatchInfo>,
    WriteError,
>)
    requires
        contents.spec_bytes().len() + 3 <= usize::MAX,
        forall|k: int|
            #![trigger found@[k]]
            0 <= k < found@.len() ==> found@[k].0 < partial_writes.changes@.len() && found@[k].1
                <= contents.spec_bytes().len(),
    ensures
        selection_outcome(contents.spec_bytes(), *partial_writes, found@, r),
{
    let ghost b = contents.spec_bytes();
    let ghost changes = partial_writes.changes@;
    let in_range = filter_in_range(contents, &partial_writes.changes, found);
    let all_matches = sort_by_start(in_range.as_slice());
    let ghost s = all_matches@;
    proof {
        lemma_sorted_len(in_range@);
        lemma_sorted_elements(in_range@);
        assert forall|k: int| #![trigger s[k]] 0 <= k < s.len() implies s[k].pattern_index < changes.len()
            && s[k].relative_match_start <= b.len() by {
            assert(in_range@.contains(s[k]));
        }
    }
    let n = partial_writes.changes.len();
    let mut i: usize = 0;
    while i < n
        invariant
            n == changes.len(),
            changes == partial_writes.changes@,
            s == all_matches@,
            b == contents.spec_bytes(),
            s == selected_matches(b, *partial_writes, found@),
            i <= n,
            first_missing_from(s, n as int, 0) == first_missing_from(s, n as int, i as int),
        decreases n - i,
    {
        if count_matches(all_matches.as_slice(), i) == 0 {
            return Err(
                WriteError::PatternNotFound {
                    index: i,
                    old_str: partial_writes.changes[i].old_str.clone(),
                    content: to_owned_string(contents),
                },
            );
        }
        i = i + 1;
    }
    let mut i: usize = 0;
    while i < n
        invariant
            n == changes.len(),
            changes == partial_writes.changes@,
            s == all_matches@,
            b == contents.spec_bytes(),
            b.len() + 3 <= usize::MAX,
            s == selected_matches(b, *partial_writes, found@),
            forall|k: int| #![trigger s[k]] 0 <= k < s.len() ==> s[k].relative_match_start <= b.len(),
            first_missing_from(s, n as int, 0) == n,
            i <= n,
            first_repeated_from(s, changes, 0) == first_repeated_from(s, changes, i as int),
        decreases n - i,
    {
        let count = count_matches(all_matches.as_slice(), i);
        if count > 1 && !partial_writes.changes[i].allow_multiple_matches {
            let pattern = as_str(&partial_writes.changes[i].old_str);
            let context = report_repeated(contents, &all_matches, i, pattern);
            return Err(
                WriteError::MultiplePatternMatches {
                    index: i,
                    old_str: partial_writes.changes[i].old_str.clone(),
                    content: to_owned_string(contents),
                    match_count: count,
                    context,
                },
            );
        }
        i = i + 1;
    }
    Ok(all_matches)
}

/// How finding the matches of a partial write ends: the automaton's build
/// error where the old texts do not build one, otherwise the selection among
/// the matches it found.
pub open spec fn find_outcome(b: Seq<u8>, haystack: Seq<char>, pw: PartialWrite, r: Result<Vec<MatchInfo>, WriteError>) -> bool {
    if aho_corasick_builds(old_strs(pw.changes@)) {
        selection_outcome(b, pw, aho_corasick_matches(old_strs(pw.changes@), haystack), r)
    } else {
        r matches Err(WriteError::AhoCorasickError(_))
    }
}

/// Finds the matches of every replacement's old text, keeps those in the
/// replacement's line range, orders them by start offset, and requires every
/// replacement to match, and to match once unless it allows more matches.
pub fn find_matches(contents: &str, partial_writes: &PartialWrite) -> (r: Result<Vec<MatchInfo>, WriteError>)
    requires
        contents.spec_bytes().len() + 3 <= usize::MAX,
    ensures
        find_outcome(contents.spec_bytes(), contents@, *partial_writes, r),
        r matches Ok(v) ==> found_well_formed(
            aho_corasick_matches(old_strs(partial_writes.changes@), contents@),
            partial_writes.changes@,
            contents.spec_bytes(),
        ),
{
    let found = match aho_corasick_find_iter(&partial_writes.changes, contents) {
        Ok(v) => v,
        Err(e) => {
            return Err(WriteError::AhoCorasickError(e));
        },
    };
    proof {
        assert forall|k: int| #![trigger found@[k]] 0 <= k < found@.len() implies found@[k].0
            < partial_writes.changes@.len() && found@[k].1 <= contents.spec_bytes().len() by {
            assert(found_well_formed(found@, partial_writes.changes@, contents.spec_bytes()));
        }
    }
    select_matches(contents, partial_writes, found.as_slice())
}

} // verus!
