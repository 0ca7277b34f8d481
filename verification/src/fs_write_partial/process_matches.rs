//! Applying the matched replacements to a text, left to right, and reporting
//! what each one changed.

use vstd::prelude::*;
use vstd::string::*;
use vstd::utf8::*;
use crate::types::{MatchInfo, PartialWrite, PartialWriteInner, ChangeResult};
use crate::text::{count_newlines, count_newlines_in, strs_bytes};
use crate::strbuf::{string_bytes, push_range, push_str, string_from_utf8, as_str};
use crate::utf8_text::lemma_valid_subrange;
use super::line_map::{first_spanning, find_line_number, lemma_first_spanning_from};
use super::context::{context_bytes, context_defined, trimmed_end_bytes, build_context_lines, context_is_defined};
use crate::strbuf::trim_end;

verus! {

broadcast use vstd::utf8::group_utf8_lib;

/// The first index, from `i` on, of an entry that starts after `key`; the
/// length when there is none.
pub open spec fn insert_pos(s: Seq<MatchInfo>, key: usize, i: int) -> int
    decreases s.len() - i,
{
    if i < 0 || i >= s.len() {
        s.len() as int
    } else if s[i].relative_match_start > key {
        i
    } else {
        insert_pos(s, key, i + 1)
    }
}

pub proof fn lemma_insert_pos(s: Seq<MatchInfo>, key: usize, i: int)
    requires
        0 <= i <= s.len(),
    ensures
        i <= insert_pos(s, key, i) <= s.len(),
        forall|k: int| i <= k < insert_pos(s, key, i) ==> #[trigger] s[k].relative_match_start <= key,
        insert_pos(s, key, i) < s.len() ==> s[insert_pos(s, key, i)].relative_match_start > key,
    decreases s.len() - i,
{
    if i < s.len() && s[i].relative_match_start <= key {
        lemma_insert_pos(s, key, i + 1);
    }
}

/// `x` inserted after every entry of `s` that does not start after it.
pub open spec fn insert_sorted(s: Seq<MatchInfo>, x: MatchInfo) -> Seq<MatchInfo> {
    let p = insert_pos(s, x.relative_match_start, 0);
    s.subrange(0, p).push(x) + s.subrange(p, s.len() as int)
}

/// The matches ordered by start offset, matches with equal starts keeping
/// their order (a stable sort).
pub open spec fn sorted_by_start(s: Seq<MatchInfo>) -> Seq<MatchInfo>
    decreases s.len(),
{
    if s.len() == 0 {
        seq![]
    } else {
        insert_sorted(sorted_by_start(s.drop_last()), s.last())
    }
}

pub proof fn lemma_sorted_len(s: Seq<MatchInfo>)
    ensures
        sorted_by_start(s).len() == s.len(),
    decreases s.len(),
{
    if s.len() > 0 {
        lemma_sorted_len(s.drop_last());
        lemma_insert_pos(sorted_by_start(s.drop_last()), s.last().relative_match_start, 0);
    }
}

/// Every entry of the sorted matches is one of the matches.
pub proof fn lemma_sorted_elements(s: Seq<MatchInfo>)
    ensures
        forall|k: int| 0 <= k < sorted_by_start(s).len() ==> s.contains(#[trigger] sorted_by_start(s)[k]),
    decreases s.len(),
{
    if s.len() > 0 {
        let prev = sorted_by_start(s.drop_last());
        let x = s.last();
        lemma_sorted_elements(s.drop_last());
        lemma_insert_pos(prev, x.relative_match_start, 0);
        let p = insert_pos(prev, x.relative_match_start, 0);
        let t = insert_sorted(prev, x);
        assert forall|k: int| 0 <= k < t.len() implies s.contains(#[trigger] t[k]) by {
            if k < p {
                assert(t[k] == prev[k]);
                let j = choose|j: int| 0 <= j < s.drop_last().len() && s.drop_last()[j] == prev[k];
                assert(s[j] == prev[k]);
            } else if k == p {
                assert(t[k] == x);
                assert(s[s.len() - 1] == x);
            } else {
                assert(t[k] == prev[k - 1]);
                let j = choose|j: int| 0 <= j < s.drop_last().len() && s.drop_last()[j] == prev[k - 1];
                assert(s[j] == prev[k - 1]);
            }
        }
    }
}

/// The matches are in order of their start offsets.
pub open spec fn starts_ordered(s: Seq<MatchInfo>) -> bool {
    forall|i: int, j: int| 0 <= i < j < s.len() ==> s[i].relative_match_start <= s[j].relative_match_start
}

proof fn lemma_insert_sorted_is_insert(s: Seq<MatchInfo>, x: MatchInfo)
    ensures
        0 <= insert_pos(s, x.relative_match_start, 0) <= s.len(),
        insert_sorted(s, x) == s.insert(insert_pos(s, x.relative_match_start, 0), x),
{
    lemma_insert_pos(s, x.relative_match_start, 0);
    assert(insert_sorted(s, x) =~= s.insert(insert_pos(s, x.relative_match_start, 0), x));
}

/// Sorting orders the matches by their start offsets.
pub proof fn law_sorted_by_start_is_ordered(s: Seq<MatchInfo>)
    ensures
        starts_ordered(sorted_by_start(s)),
    decreases s.len(),
{
    if s.len() > 0 {
        let prev = sorted_by_start(s.drop_last());
        let x = s.last();
        law_sorted_by_start_is_ordered(s.drop_last());
        lemma_insert_sorted_is_insert(prev, x);
        lemma_insert_pos(prev, x.relative_match_start, 0);
        let p = insert_pos(prev, x.relative_match_start, 0);
        let t = insert_sorted(prev, x);
        assert forall|i: int, j: int| 0 <= i < j < t.len() implies t[i].relative_match_start
            <= t[j].relative_match_start by {
            if j < p {
                assert(t[i] == prev[i] && t[j] == prev[j]);
            } else if j == p {
                assert(t[j] == x);
                assert(t[i] == prev[i]);
                assert(prev[i].relative_match_start <= x.relative_match_start);
            } else if i < p {
                assert(t[i] == prev[i] && t[j] == prev[j - 1]);
            } else if i == p {
                assert(t[i] == x && t[j] == prev[j - 1]);
                assert(prev[p].relative_match_start > x.relative_match_start);
                assert(prev[p].relative_match_start <= prev[j - 1].relative_match_start);
            } else {
                assert(t[i] == prev[i - 1] && t[j] == prev[j - 1]);
            }
        }
    }
}

/// Sorting neither adds nor loses a match: the result holds the same
/// matches, each as often.
pub proof fn law_sorted_by_start_is_permutation(s: Seq<MatchInfo>)
    ensures
        sorted_by_start(s).to_multiset() == s.to_multiset(),
    decreases s.len(),
{
    broadcast use vstd::seq_lib::group_to_multiset_ensures;
    if s.len() == 0 {
        assert(sorted_by_start(s) =~= s);
    } else {
        let prev = sorted_by_start(s.drop_last());
        let x = s.last();
        law_sorted_by_start_is_permutation(s.drop_last());
        lemma_insert_sorted_is_insert(prev, x);
        vstd::seq_lib::to_multiset_insert(prev, insert_pos(prev, x.relative_match_start, 0), x);
        vstd::seq_lib::to_multiset_build(s.drop_last(), x);
        assert(s.drop_last().push(x) =~= s);
    }
}

/// Matches already in order of their start offsets are left as they are,
/// so sorting twice gives what sorting once gives.
pub proof fn law_sorted_by_start_fixes_ordered(s: Seq<MatchInfo>)
    requires
        starts_ordered(s),
    ensures
        sorted_by_start(s) == s,
    decreases s.len(),
{
    if s.len() > 0 {
        let d = s.drop_last();
        let x = s.last();
        assert(starts_ordered(d));
        law_sorted_by_start_fixes_ordered(d);
        lemma_insert_pos(d, x.relative_match_start, 0);
        let p = insert_pos(d, x.relative_match_start, 0);
        if p < d.len() {
            assert(d[p] == s[p]);
            assert(s[p].relative_match_start <= s[s.len() - 1].relative_match_start);
        }
        assert(p == d.len());
        assert(insert_sorted(d, x) =~= s);
    }
}

/// Sorting a second time changes nothing.
pub proof fn law_sorted_by_start_idempotent(s: Seq<MatchInfo>)
    ensures
        sorted_by_start(sorted_by_start(s)) == sorted_by_start(s),
{
    law_sorted_by_start_is_ordered(s);
    law_sorted_by_start_fixes_ordered(sorted_by_start(s));
}

/// No two matches start at the same offset.
pub open spec fn distinct_starts(s: Seq<MatchInfo>) -> bool {
    forall|i: int, j: int|
        0 <= i < s.len() && 0 <= j < s.len() && i != j ==> (#[trigger] s[i]).relative_match_start
            != (#[trigger] s[j]).relative_match_start
}

/// Each match occurs at most once, and no two of them start at the same offset.
pub open spec fn distinct_keys(m: vstd::multiset::Multiset<MatchInfo>) -> bool {
    &&& forall|x: MatchInfo| #[trigger] m.count(x) <= 1
    &&& forall|x: MatchInfo, y: MatchInfo|
        #[trigger] m.count(x) > 0 && #[trigger] m.count(y) > 0 && x.relative_match_start
            == y.relative_match_start ==> x == y
}

proof fn lemma_distinct_keys(s: Seq<MatchInfo>)
    requires
        distinct_starts(s),
    ensures
        distinct_keys(s.to_multiset()),
{
    broadcast use vstd::seq_lib::group_to_multiset_ensures;
    broadcast use vstd::multiset::group_multiset_axioms;
    let m = s.to_multiset();
    assert forall|x: MatchInfo| #[trigger] m.count(x) <= 1 by {
        if m.count(x) > 1 {
            assert(s.contains(x));
            let i = choose|i: int| 0 <= i < s.len() && s[i] == x;
            let r = s.remove(i);
            assert(r.to_multiset() =~= m.remove(x));
            assert(r.to_multiset().count(x) > 0);
            assert(r.contains(x));
            let j = choose|j: int| 0 <= j < r.len() && r[j] == x;
            let j2 = if j < i { j } else { j + 1 };
            assert(s[j2] == r[j]);
            assert(s[i].relative_match_start != s[j2].relative_match_start);
        }
    }
    assert forall|x: MatchInfo, y: MatchInfo|
        #[trigger] m.count(x) > 0 && #[trigger] m.count(y) > 0 && x.relative_match_start
            == y.relative_match_start implies x == y by {
        assert(s.contains(x) && s.contains(y));
        let i = choose|i: int| 0 <= i < s.len() && s[i] == x;
        let j = choose|j: int| 0 <= j < s.len() && s[j] == y;
        if i != j {
            assert(s[i].relative_match_start != s[j].relative_match_start);
        }
    }
}

/// Two sequences in order of start with the same matches, no two starting at
/// the same offset, are the same sequence.
proof fn lemma_ordered_unique(t1: Seq<MatchInfo>, t2: Seq<MatchInfo>)
    requires
        t1.to_multiset() == t2.to_multiset(),
        starts_ordered(t1),
        starts_ordered(t2),
        distinct_keys(t1.to_multiset()),
    ensures
        t1 == t2,
    decreases t1.len(),
{
    broadcast use vstd::seq_lib::group_to_multiset_ensures;
    broadcast use vstd::multiset::group_multiset_axioms;
    let m = t1.to_multiset();
    assert(t1.len() == m.len() && t2.len() == m.len());
    if t1.len() == 0 {
        assert(t1 =~= t2);
    } else {
        let n = t1.len() as int;
        let x1 = t1[n - 1];
        let x2 = t2[n - 1];
        assert(t1.contains(x1));
        assert(t2.contains(x2));
        assert(m.count(x1) > 0 && m.count(x2) > 0);
        assert(t1.contains(x2));
        assert(t2.contains(x1));
        let k1 = choose|k: int| 0 <= k < t1.len() && t1[k] == x2;
        let k2 = choose|k: int| 0 <= k < t2.len() && t2[k] == x1;
        if k1 < n - 1 {
            assert(t1[k1].relative_match_start <= t1[n - 1].relative_match_start);
        }
        if k2 < n - 1 {
            assert(t2[k2].relative_match_start <= t2[n - 1].relative_match_start);
        }
        assert(x1 == x2);
        let d1 = t1.drop_last();
        let d2 = t2.drop_last();
        assert(d1 =~= t1.remove(n - 1));
        assert(d2 =~= t2.remove(n - 1));
        assert(d1.to_multiset() =~= m.remove(x1));
        assert(d2.to_multiset() =~= m.remove(x2));
        let dm = d1.to_multiset();
        assert forall|z: MatchInfo| #[trigger] dm.count(z) <= 1 by {
            assert(dm.count(z) <= m.count(z));
        }
        assert forall|x: MatchInfo, y: MatchInfo|
            #[trigger] dm.count(x) > 0 && #[trigger] dm.count(y) > 0 && x.relative_match_start
                == y.relative_match_start implies x == y by {
            assert(m.count(x) > 0 && m.count(y) > 0);
        }
        lemma_ordered_unique(d1, d2);
        assert(t1 =~= d1.push(x1));
        assert(t2 =~= d2.push(x2));
    }
}

/// Matches that start at distinct offsets sort to one order whatever order
/// they come in: any two arrangements of the same matches sort alike.
pub proof fn law_sorted_by_start_ignores_arrangement(s1: Seq<MatchInfo>, s2: Seq<MatchInfo>)
    requires
        s1.to_multiset() == s2.to_multiset(),
        distinct_starts(s1),
    ensures
        sorted_by_start(s1) == sorted_by_start(s2),
{
    law_sorted_by_start_is_ordered(s1);
    law_sorted_by_start_is_ordered(s2);
    law_sorted_by_start_is_permutation(s1);
    law_sorted_by_start_is_permutation(s2);
    lemma_distinct_keys(s1);
    lemma_ordered_unique(sorted_by_start(s1), sorted_by_start(s2));
}

/// Applying matches that start at distinct offsets does not depend on the
/// order they are given in: any two arrangements of them can be applied on
/// the same inputs, give the same text and report the same changes.
pub proof fn law_process_matches_ignores_arrangement(
    b: Seq<u8>,
    lines: Seq<Seq<u8>>,
    map: Seq<(usize, usize)>,
    s1: Seq<MatchInfo>,
    s2: Seq<MatchInfo>,
    pw: PartialWrite,
)
    requires
        s1.to_multiset() == s2.to_multiset(),
        distinct_starts(s1),
    ensures
        matches_applicable(b, lines, map, sorted_by_start(s1), pw) == matches_applicable(
            b,
            lines,
            map,
            sorted_by_start(s2),
            pw,
        ),
        rewritten(b, sorted_by_start(s1), pw.changes@) == rewritten(b, sorted_by_start(s2), pw.changes@),
        forall|cr: ChangeResult, k: int|
            #[trigger] change_reported(cr, lines, map, sorted_by_start(s1), pw, k) == change_reported(
                cr,
                lines,
                map,
                sorted_by_start(s2),
                pw,
                k,
            ),
{
    law_sorted_by_start_ignores_arrangement(s1, s2);
}

/// Each match names a replacement whose old text lies at the match, in
/// order and inside `b`.
pub open spec fn matches_in_place(b: Seq<u8>, s: Seq<MatchInfo>, changes: Seq<PartialWriteInner>) -> bool {
    forall|k: int|
        0 <= k < s.len() ==> {
            &&& (#[trigger] s[k]).pattern_index < changes.len()
            &&& prev_end(s, changes, k) <= s[k].relative_match_start
            &&& match_end(s, changes, k) <= b.len()
            &&& b.subrange(s[k].relative_match_start as int, match_end(s, changes, k)) == old_bytes(
                changes[s[k].pattern_index as int],
            )
        }
}

proof fn lemma_identity_prefix(b: Seq<u8>, s: Seq<MatchInfo>, changes: Seq<PartialWriteInner>, k: int)
    requires
        matches_in_place(b, s, changes),
        forall|i: int| 0 <= i < changes.len() ==> new_bytes(#[trigger] changes[i]) == old_bytes(changes[i]),
        0 <= k <= s.len(),
    ensures
        0 <= prev_end(s, changes, k) <= b.len(),
        rewritten_prefix(b, s, changes, k) == b.subrange(0, prev_end(s, changes, k)),
    decreases k,
{
    if k == 0 {
        assert(b.subrange(0, 0) =~= Seq::<u8>::empty());
    } else {
        lemma_identity_prefix(b, s, changes, k - 1);
        let m = s[k - 1];
        let w = changes[m.pattern_index as int];
        let pe = prev_end(s, changes, k - 1);
        let st = m.relative_match_start as int;
        let me = match_end(s, changes, k - 1);
        assert(new_bytes(w) == old_bytes(w));
        assert(b.subrange(0, me) =~= b.subrange(0, pe) + b.subrange(pe, st) + b.subrange(st, me));
    }
}

/// Replacing texts by themselves changes nothing: when every replacement's
/// new text equals its old text and each match lies where its old text is,
/// the rewritten text is the text itself.
pub proof fn law_identity_replacements(b: Seq<u8>, s: Seq<MatchInfo>, changes: Seq<PartialWriteInner>)
    requires
        matches_in_place(b, s, changes),
        forall|i: int| 0 <= i < changes.len() ==> new_bytes(#[trigger] changes[i]) == old_bytes(changes[i]),
    ensures
        rewritten(b, s, changes) == b,
{
    lemma_identity_prefix(b, s, changes, s.len() as int);
    let pe = prev_end(s, changes, s.len() as int);
    assert(b =~= b.subrange(0, pe) + b.subrange(pe, b.len() as int));
}

/// With no match, the rewritten text is the text itself.
pub proof fn law_rewritten_without_matches(b: Seq<u8>, changes: Seq<PartialWriteInner>)
    ensures
        rewritten(b, seq![], changes) == b,
{
    assert(b.subrange(0, b.len() as int) =~= b);
    assert(rewritten(b, seq![], changes) =~= b);
}

/// Sorts matches by start offset, keeping the order of equal starts.
pub fn sort_by_start(ms: &[MatchInfo]) -> (r: Vec<MatchInfo>)
    ensures
        r@ == sorted_by_start(ms@),
{
    let mut out: Vec<MatchInfo> = Vec::new();
    let mut i: usize = 0;
    assert(ms@.subrange(0, 0) =~= Seq::<MatchInfo>::empty());
    while i < ms.len()
        invariant
            i <= ms@.len(),
            out@ == sorted_by_start(ms@.subrange(0, i as int)),
        decreases ms@.len() - i,
    {
        let x = ms[i];
        let mut p: usize = 0;
        proof {
            lemma_insert_pos(out@, x.relative_match_start, 0);
        }
        while p < out.len() && out[p].relative_match_start <= x.relative_match_start
            invariant
                p <= out@.len(),
                insert_pos(out@, x.relative_match_start, 0) == insert_pos(
                    out@,
                    x.relative_match_start,
                    p as int,
                ),
            decreases out@.len() - p,
        {
            p = p + 1;
        }
        let ghost before = out@;
        out.insert(p, x);
        proof {
            assert(ms@.subrange(0, i + 1).drop_last() =~= ms@.subrange(0, i as int));
            assert(ms@.subrange(0, i + 1).last() == x);
            assert(out@ =~= insert_sorted(before, x));
        }
        i = i + 1;
    }
    assert(ms@.subrange(0, ms@.len() as int) =~= ms@);
    out
}

/// The bytes of a replacement's old text.
pub open spec fn old_bytes(w: PartialWriteInner) -> Seq<u8> {
    encode_utf8(w.old_str@)
}

/// The bytes of a replacement's new text.
pub open spec fn new_bytes(w: PartialWriteInner) -> Seq<u8> {
    encode_utf8(w.new_str@)
}

/// Offset just past the `k`-th match's old text.
pub open spec fn match_end(s: Seq<MatchInfo>, changes: Seq<PartialWriteInner>, k: int) -> int {
    s[k].relative_match_start + old_bytes(changes[s[k].pattern_index as int]).len()
}

/// Offset from which the text before the `k`-th match is copied: 0, or the
/// end of the previous match.
pub open spec fn prev_end(s: Seq<MatchInfo>, changes: Seq<PartialWriteInner>, k: int) -> int {
    if k <= 0 {
        0
    } else {
        match_end(s, changes, k - 1)
    }
}

/// The new text up to and including the `k`-th replacement.
pub open spec fn rewritten_prefix(
    b: Seq<u8>,
    s: Seq<MatchInfo>,
    changes: Seq<PartialWriteInner>,
    k: int,
) -> Seq<u8>
    decreases k,
{
    if k <= 0 {
        seq![]
    } else {
        rewritten_prefix(b, s, changes, k - 1) + b.subrange(
            prev_end(s, changes, k - 1),
            s[k - 1].relative_match_start as int,
        ) + new_bytes(changes[s[k - 1].pattern_index as int])
    }
}

/// The whole new text: every match replaced, the rest copied.
pub open spec fn rewritten(b: Seq<u8>, s: Seq<MatchInfo>, changes: Seq<PartialWriteInner>) -> Seq<u8> {
    rewritten_prefix(b, s, changes, s.len() as int) + b.subrange(
        prev_end(s, changes, s.len() as int),
        b.len() as int,
    )
}

/// The 0-based line of the `k`-th match, by the line map.
pub open spec fn match_line(map: Seq<(usize, usize)>, s: Seq<MatchInfo>, k: int) -> int {
    first_spanning(map, s[k].relative_match_start as int)
}

/// The `k`-th match can be applied: it names a replacement, starts no earlier
/// than the previous match ends, lies on character boundaries and on a line
/// of the map, its context can be built, and the arithmetic fits.
pub open spec fn match_applicable_at(
    b: Seq<u8>,
    lines: Seq<Seq<u8>>,
    map: Seq<(usize, usize)>,
    s: Seq<MatchInfo>,
    pw: PartialWrite,
    k: int,
) -> bool {
    let changes = pw.changes@;
    let w = changes[s[k].pattern_index as int];
    let st = s[k].relative_match_start as int;
    &&& s[k].pattern_index < changes.len()
    &&& prev_end(s, changes, k) <= st <= b.len()
    &&& match_end(s, changes, k) <= usize::MAX
    &&& is_char_boundary(b, prev_end(s, changes, k))
    &&& is_char_boundary(b, st)
    &&& match_line(map, s, k) < map.len()
    &&& match_line(map, s, k) + 1 + count_newlines(new_bytes(w)) <= usize::MAX
    &&& context_defined(
        lines,
        map,
        match_line(map, s, k),
        st,
        trimmed_end_bytes(w.old_str@),
        pw.context_lines as int,
    )
}

/// The inputs on which the replacements can be applied: every match can be,
/// and the text after the last one starts on a character boundary.
pub open spec fn matches_applicable(
    b: Seq<u8>,
    lines: Seq<Seq<u8>>,
    map: Seq<(usize, usize)>,
    s: Seq<MatchInfo>,
    pw: PartialWrite,
) -> bool {
    &&& forall|k: int| 0 <= k < s.len() ==> #[trigger] match_applicable_at(b, lines, map, s, pw, k)
    &&& prev_end(s, pw.changes@, s.len() as int) <= b.len()
    &&& is_char_boundary(b, prev_end(s, pw.changes@, s.len() as int))
}

/// What one applied replacement reports: which replacement, the 1-based lines
/// its new text spans, and its context.
pub open spec fn change_reported(
    cr: ChangeResult,
    lines: Seq<Seq<u8>>,
    map: Seq<(usize, usize)>,
    s: Seq<MatchInfo>,
    pw: PartialWrite,
    k: int,
) -> bool {
    let w = pw.changes@[s[k].pattern_index as int];
    let line = match_line(map, s, k);
    &&& cr.partial_write_index == s[k].pattern_index
    &&& cr.line_number_start == line + 1
    &&& cr.line_number_end == line + 1 + count_newlines(new_bytes(w))
    &&& string_bytes(cr.context) == context_bytes(
        lines,
        map,
        line,
        s[k].relative_match_start as int,
        trimmed_end_bytes(w.old_str@),
        trimmed_end_bytes(w.new_str@),
        pw.context_lines as int,
    )
}

/// Applies the matched replacements, in order of their start offsets: the
/// text between matches is copied and each match is replaced by its new
/// text; reports, for each replacement applied, its lines and context.
pub fn process_matches(
    contents: &str,
    lines: &[&str],
    line_map: &[(usize, usize)],
    matches: &[MatchInfo],
    partial_writes: &PartialWrite,
) -> (r: (String, Vec<ChangeResult>))
    requires
        matches_applicable(
            contents.spec_bytes(),
            strs_bytes(lines@),
            line_map@,
            sorted_by_start(matches@),
            *partial_writes,
        ),
    ensures
        string_bytes(r.0) == rewritten(
            contents.spec_bytes(),
            sorted_by_start(matches@),
            partial_writes.changes@,
        ),
        r.1@.len() == matches@.len(),
        forall|k: int|
            0 <= k < r.1@.len() ==> change_reported(
                #[trigger] r.1@[k],
                strs_bytes(lines@),
                line_map@,
                sorted_by_start(matches@),
                *partial_writes,
                k,
            ),
{
    let ghost b = contents.spec_bytes();
    let ghost ls = strs_bytes(lines@);
    let ghost changes = partial_writes.changes@;
    let sorted = sort_by_start(matches);
    let ghost s = sorted@;
    proof {
        lemma_sorted_len(matches@);
    }
    let bytes = contents.as_bytes();
    let n = bytes.len();
    let mut output: Vec<u8> = Vec::new();
    let mut last_match_end_position: usize = 0;
    let mut matches_out: Vec<ChangeResult> = Vec::new();
    let mut k: usize = 0;
    assert(valid_utf8(output@));
    while k < sorted.len()
        invariant
            b == contents.spec_bytes(),
            bytes@ == b,
            n == b.len(),
            ls == strs_bytes(lines@),
            changes == partial_writes.changes@,
            s == sorted@,
            s == sorted_by_start(matches@),
            s.len() == matches@.len(),
            matches_applicable(b, ls, line_map@, s, *partial_writes),
            k <= s.len(),
            last_match_end_position == prev_end(s, changes, k as int),
            output@ == rewritten_prefix(b, s, changes, k as int),
            valid_utf8(output@),
            matches_out@.len() == k,
            forall|j: int|
                0 <= j < k ==> change_reported(#[trigger] matches_out@[j], ls, line_map@, s, *partial_writes, j),
        decreases s.len() - k,
    {
        let m = sorted[k];
        assert(s[k as int] == m);
        assert(match_applicable_at(b, ls, line_map@, s, *partial_writes, k as int));
        let pattern_index = m.pattern_index;
        let relative_match_start = m.relative_match_start;
        let write = &partial_writes.changes[pattern_index];
        proof {
            lemma_valid_subrange(b, last_match_end_position as int, relative_match_start as int);
        }
        let ghost before = output@;
        push_range(&mut output, bytes, last_match_end_position, relative_match_start);
        let match_pos = relative_match_start;
        proof {
            lemma_first_spanning_from(line_map@, match_pos as int, 0);
        }
        let line_num = match find_line_number(line_map, match_pos) {
            Some(l) => l,
            None => {
                proof {
                    assert(false);
                }
                0
            },
        };
        let old_str = as_str(&write.old_str);
        let new_str = as_str(&write.new_str);
        let context = build_context_lines(
            lines,
            line_map,
            line_num,
            match_pos,
            old_str,
            new_str,
            partial_writes.context_lines,
        );
        push_str(&mut output, new_str);
        proof {
            valid_utf8_concat(before, b.subrange(last_match_end_position as int, relative_match_start as int));
            assert(output@ =~= rewritten_prefix(b, s, changes, k + 1));
        }
        let nb = new_str.as_bytes();
        let new_lines = count_newlines_in(nb, 0, nb.len());
        proof {
            assert(nb@.subrange(0, nb@.len() as int) =~= nb@);
        }
        let cr = ChangeResult {
            partial_write_index: pattern_index,
            line_number_start: line_num + 1,
            line_number_end: line_num + 1 + new_lines,
            context,
        };
        matches_out.push(cr);
        last_match_end_position = relative_match_start + old_str.as_bytes().len();
        k = k + 1;
    }
    proof {
        is_char_boundary_start_end_of_seq(b);
        lemma_valid_subrange(b, last_match_end_position as int, n as int);
        valid_utf8_concat(output@, b.subrange(last_match_end_position as int, n as int));
    }
    push_range(&mut output, bytes, last_match_end_position, n);
    (string_from_utf8(output), matches_out)
}

/// Tests whether the replacements can be applied (`matches_applicable`).
pub fn matches_are_applicable(
    contents: &str,
    lines: &[&str],
    line_map: &[(usize, usize)],
    matches: &[MatchInfo],
    partial_writes: &PartialWrite,
) -> (r: bool)
    ensures
        r == matches_applicable(
            contents.spec_bytes(),
            strs_bytes(lines@),
            line_map@,
            sorted_by_start(matches@),
            *partial_writes,
        ),
{
    let ghost b = contents.spec_bytes();
    let ghost ls = strs_bytes(lines@);
    let ghost changes = partial_writes.changes@;
    let sorted = sort_by_start(matches);
    let ghost s = sorted@;
    let n = contents.as_bytes().len();
    let map_len = line_map.len();
    let mut prev: usize = 0;
    let mut k: usize = 0;
    while k < sorted.len()
        invariant
            b == contents.spec_bytes(),
            n == b.len(),
            ls == strs_bytes(lines@),
            changes == partial_writes.changes@,
            s == sorted@,
            s == sorted_by_start(matches@),
            k <= s.len(),
            map_len == line_map@.len(),
            prev == prev_end(s, changes, k as int),
            forall|j: int|
                0 <= j < k ==> #[trigger] match_applicable_at(b, ls, line_map@, s, *partial_writes, j),
        decreases s.len() - k,
    {
        let m = sorted[k];
        assert(s[k as int] == m);
        if m.pattern_index >= partial_writes.changes.len() {
            proof {
                assert(!match_applicable_at(b, ls, line_map@, s, *partial_writes, k as int));
            }
            return false;
        }
        let st = m.relative_match_start;
        if !(prev <= st && st <= n) {
            proof {
                assert(!match_applicable_at(b, ls, line_map@, s, *partial_writes, k as int));
            }
            return false;
        }
        let w = &partial_writes.changes[m.pattern_index];
        let old_str = as_str(&w.old_str);
        let new_str = as_str(&w.new_str);
        let ol = old_str.as_bytes().len();
        if ol > usize::MAX - st {
            proof {
                assert(!match_applicable_at(b, ls, line_map@, s, *partial_writes, k as int));
            }
            return false;
        }
        if !contents.is_char_boundary(prev) || !contents.is_char_boundary(st) {
            proof {
                assert(!match_applicable_at(b, ls, line_map@, s, *partial_writes, k as int));
            }
            return false;
        }
        proof {
            lemma_first_spanning_from(line_map@, st as int, 0);
        }
        let line = match find_line_number(line_map, st) {
            Some(l) => l,
            None => {
                proof {
                assert(!match_applicable_at(b, ls, line_map@, s, *partial_writes, k as int));
            }
            return false;
            },
        };
        let nb = new_str.as_bytes();
        let nl = count_newlines_in(nb, 0, nb.len());
        proof {
            assert(nb@.subrange(0, nb@.len() as int) =~= nb@);
            assert(nl == count_newlines(new_bytes(*w)));
            assert(line as int == match_line(line_map@, s, k as int));
        }
        if line >= usize::MAX || nl > usize::MAX - 1 - line {
            proof {
                assert(!match_applicable_at(b, ls, line_map@, s, *partial_writes, k as int));
            }
            return false;
        }
        let old_t = trim_end(old_str);
        if !context_is_defined(lines, line_map, line, st, old_t, partial_writes.context_lines) {
            proof {
                assert(!match_applicable_at(b, ls, line_map@, s, *partial_writes, k as int));
            }
            return false;
        }
        proof {
            assert(match_applicable_at(b, ls, line_map@, s, *partial_writes, k as int));
        }
        prev = st + ol;
        k = k + 1;
    }
    prev <= n && contents.is_char_boundary(prev)
}

} // verus!
