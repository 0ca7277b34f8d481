//! A partial write of a file's contents, up to the write itself.

use vstd::prelude::*;
use vstd::string::*;
use crate::error::WriteError;
use crate::types::{ChangeResult, MatchInfo, PartialWrite};
use crate::text::{text_lines, split_lines, strs_bytes};
use crate::strbuf::string_bytes;
use super::line_map::{build_line_map, line_map_of, lemma_line_map_unique};
use super::find::{
    find_matches, find_outcome, selected_matches, first_missing_from, first_repeated_from,
    aho_corasick_matches, old_strs, in_range_matches,
};
use super::process_matches::{
    process_matches, matches_are_applicable, matches_applicable, rewritten, change_reported,
    sorted_by_start, lemma_sorted_len, law_sorted_by_start_idempotent,
};

verus! {

/// The matches that the automaton found for a partial write of `b`.
pub open spec fn automaton_selection(b: Seq<u8>, text: Seq<char>, pw: PartialWrite) -> Seq<MatchInfo> {
    selected_matches(b, pw, aho_corasick_matches(old_strs(pw.changes@), text))
}

/// Every replacement matched, and none more often than allowed.
pub open spec fn selection_accepted(b: Seq<u8>, text: Seq<char>, pw: PartialWrite) -> bool {
    let s = automaton_selection(b, text, pw);
    &&& first_missing_from(s, pw.changes@.len() as int, 0) == pw.changes@.len()
    &&& first_repeated_from(s, pw.changes@, 0) == pw.changes@.len()
}

/// A partial write is `process_matches` applied to what `find_matches`
/// found: when `find_matches` succeeds with `v`, the replacements were
/// accepted and the matches that `process_matches` applies to `v` (it sorts
/// them) are the ones that `apply_partial_write` applies, so both can be
/// applied on the same inputs, give the same text and report the same
/// changes.
pub proof fn law_partial_write_is_process_of_found(
    b: Seq<u8>,
    text: Seq<char>,
    pw: PartialWrite,
    v: Vec<MatchInfo>,
    lines: Seq<Seq<u8>>,
    map: Seq<(usize, usize)>,
)
    requires
        find_outcome(b, text, pw, Ok(v)),
    ensures
        selection_accepted(b, text, pw),
        sorted_by_start(v@) == automaton_selection(b, text, pw),
        matches_applicable(b, lines, map, sorted_by_start(v@), pw) == matches_applicable(
            b,
            lines,
            map,
            automaton_selection(b, text, pw),
            pw,
        ),
        rewritten(b, sorted_by_start(v@), pw.changes@) == rewritten(
            b,
            automaton_selection(b, text, pw),
            pw.changes@,
        ),
        forall|cr: ChangeResult, k: int|
            #[trigger] change_reported(cr, lines, map, sorted_by_start(v@), pw, k) == change_reported(
                cr,
                lines,
                map,
                automaton_selection(b, text, pw),
                pw,
                k,
            ),
{
    law_sorted_by_start_idempotent(in_range_matches(b, pw.changes@, aho_corasick_matches(old_strs(pw.changes@), text)));
}

/// A partial write of a file's contents, up to the write: finds the matches,
/// checks them, and applies the replacements. `Ok(None)` when matches were
/// accepted but cannot be applied (a match off every line of the line map,
/// overlapping matches, or a cut inside a character), where the write is
/// not carried out.
pub fn apply_partial_write(contents: &str, partial_writes: &PartialWrite) -> (r: Result<
    Option<(String, Vec<ChangeResult>)>,
    WriteError,
>)
    requires
        contents.spec_bytes().len() + 3 <= usize::MAX,
    ensures
        match r {
            Err(e) => find_outcome(contents.spec_bytes(), contents@, *partial_writes, Err(e)),
            Ok(None) => {
                let b = contents.spec_bytes();
                let lines = text_lines(b);
                &&& selection_accepted(b, contents@, *partial_writes)
                &&& !matches_applicable(
                    b,
                    lines,
                    line_map_of(lines),
                    automaton_selection(b, contents@, *partial_writes),
                    *partial_writes,
                )
            },
            Ok(Some((out, changes))) => {
                let b = contents.spec_bytes();
                let lines = text_lines(b);
                let s = automaton_selection(b, contents@, *partial_writes);
                &&& selection_accepted(b, contents@, *partial_writes)
                &&& matches_applicable(b, lines, line_map_of(lines), s, *partial_writes)
                &&& string_bytes(out) == rewritten(b, s, partial_writes.changes@)
                &&& changes@.len() == s.len()
                &&& forall|k: int|
                    0 <= k < changes@.len() ==> change_reported(
                        #[trigger] changes@[k],
                        lines,
                        line_map_of(lines),
                        s,
                        *partial_writes,
                        k,
                    )
            },
        },
{
    let lines = split_lines(contents);
    let line_map = build_line_map(contents);
    proof {
        lemma_line_map_unique(line_map@, text_lines(contents.spec_bytes()));
        law_sorted_by_start_idempotent(
            in_range_matches(
                contents.spec_bytes(),
                partial_writes.changes@,
                aho_corasick_matches(old_strs(partial_writes.changes@), contents@),
            ),
        );
    }
    let matches = match find_matches(contents, partial_writes) {
        Ok(m) => m,
        Err(e) => {
            return Err(e);
        },
    };
    if !matches_are_applicable(contents, lines.as_slice(), line_map.as_slice(), matches.as_slice(), partial_writes) {
        return Ok(None);
    }
    let (output, matches_out) = process_matches(
        contents,
        lines.as_slice(),
        line_map.as_slice(),
        matches.as_slice(),
        partial_writes,
    );
    proof {
        lemma_sorted_len(matches@);
    }
    Ok(Some((output, matches_out)))
}

} // verus!
