//! The map from lines to the byte offsets they span, and lookups in it.

use vstd::prelude::*;
use vstd::string::*;
use crate::text::{
    text_lines, line_start, split_lines, strs_bytes, lemma_text_lines_bounds, no_carriage_returns,
    line_number_at, count_newlines, lemma_lines_from_positions, lemma_count_newlines_none,
    lemma_count_newlines_concat,
};

verus! {

/// `map` gives, for each line, its start offset and the offset just past its
/// last byte, each line being taken to be followed by one separator byte.
pub open spec fn is_line_map_of(map: Seq<(usize, usize)>, lines: Seq<Seq<u8>>) -> bool {
    &&& map.len() == lines.len()
    &&& forall|i: int|
        #![trigger map[i]]
        0 <= i < lines.len() ==> map[i].0 == line_start(lines, i) && map[i].1 == line_start(
            lines,
            i,
        ) + lines[i].len()
}

/// The line map of a sequence of lines.
pub open spec fn line_map_of(lines: Seq<Seq<u8>>) -> Seq<(usize, usize)> {
    Seq::new(
        lines.len(),
        |i: int| (line_start(lines, i) as usize, (line_start(lines, i) + lines[i].len()) as usize),
    )
}

/// A line map of `lines` is the line map of `lines`.
pub proof fn lemma_line_map_unique(map: Seq<(usize, usize)>, lines: Seq<Seq<u8>>)
    requires
        is_line_map_of(map, lines),
    ensures
        map == line_map_of(lines),
{
    assert(map =~= line_map_of(lines));
}

/// Whether entry `i` of a line map spans offset `pos`.
pub open spec fn spans(map: Seq<(usize, usize)>, i: int, pos: int) -> bool {
    map[i].0 <= pos < map[i].1
}

/// The first entry of `map`, from `i` on, that spans `pos`; the length of the
/// map when there is none.
pub open spec fn first_spanning_from(map: Seq<(usize, usize)>, pos: int, i: int) -> int
    decreases map.len() - i,
{
    if i >= map.len() || i < 0 {
        map.len() as int
    } else if spans(map, i, pos) {
        i
    } else {
        first_spanning_from(map, pos, i + 1)
    }
}

/// The first entry of `map` that spans `pos`; the length of the map when there is none.
pub open spec fn first_spanning(map: Seq<(usize, usize)>, pos: int) -> int {
    first_spanning_from(map, pos, 0)
}

pub proof fn lemma_first_spanning_from(map: Seq<(usize, usize)>, pos: int, i: int)
    requires
        0 <= i <= map.len(),
    ensures
        i <= first_spanning_from(map, pos, i) <= map.len(),
        first_spanning_from(map, pos, i) < map.len() ==> spans(
            map,
            first_spanning_from(map, pos, i),
            pos,
        ),
        forall|j: int| i <= j < first_spanning_from(map, pos, i) ==> !spans(map, j, pos),
    decreases map.len() - i,
{
    if i < map.len() && !spans(map, i, pos) {
        lemma_first_spanning_from(map, pos, i + 1);
    }
}

/// Line `i` of `lines`, placed at its line start, spans offset `pos`.
pub open spec fn line_spans(lines: Seq<Seq<u8>>, i: int, pos: int) -> bool {
    line_start(lines, i) <= pos < line_start(lines, i) + lines[i].len()
}

/// The first line, from `i` on, that spans `pos`; the number of lines when none does.
pub open spec fn line_containing_from(lines: Seq<Seq<u8>>, pos: int, i: int) -> int
    decreases lines.len() - i,
{
    if i >= lines.len() || i < 0 {
        lines.len() as int
    } else if line_spans(lines, i, pos) {
        i
    } else {
        line_containing_from(lines, pos, i + 1)
    }
}

/// The (0-based) index of the first line that spans `pos`; the number of lines
/// when none does.
pub open spec fn line_containing(lines: Seq<Seq<u8>>, pos: int) -> int {
    line_containing_from(lines, pos, 0)
}

pub proof fn lemma_line_containing_from(lines: Seq<Seq<u8>>, pos: int, i: int)
    requires
        0 <= i <= lines.len(),
    ensures
        i <= line_containing_from(lines, pos, i) <= lines.len(),
        line_containing_from(lines, pos, i) < lines.len() ==> line_spans(
            lines,
            line_containing_from(lines, pos, i),
            pos,
        ),
        forall|j: int| i <= j < line_containing_from(lines, pos, i) ==> !line_spans(lines, j, pos),
    decreases lines.len() - i,
{
    if i < lines.len() && !line_spans(lines, i, pos) {
        lemma_line_containing_from(lines, pos, i + 1);
    }
}

/// Looking a position up in a line map is looking it up in the lines.
pub proof fn lemma_first_spanning_is_line_containing(
    map: Seq<(usize, usize)>,
    lines: Seq<Seq<u8>>,
    pos: int,
    i: int,
)
    requires
        is_line_map_of(map, lines),
        0 <= i <= lines.len(),
    ensures
        first_spanning_from(map, pos, i) == line_containing_from(lines, pos, i),
    decreases lines.len() - i,
{
    if i < lines.len() {
        assert(map[i].0 == line_start(lines, i));
        lemma_first_spanning_is_line_containing(map, lines, pos, i + 1);
    }
}

/// Builds the line map of a text: for each of its lines, the start offset and
/// the offset just past the line, where the next line is taken to start one
/// byte after the end of the previous one.
pub fn build_line_map(contents: &str) -> (r: Vec<(usize, usize)>)
    ensures
        is_line_map_of(r@, text_lines(contents.spec_bytes())),
{
    let total = contents.as_bytes().len();
    let lines = split_lines(contents);
    let ghost ls = text_lines(contents.spec_bytes());
    let n = lines.len();
    let mut r: Vec<(usize, usize)> = Vec::new();
    let mut start: usize = 0;
    let mut i: usize = 0;
    while i < n
        invariant
            n == lines@.len(),
            strs_bytes(lines@) == ls,
            ls == text_lines(contents.spec_bytes()),
            total == contents.spec_bytes().len(),
            i <= n,
            r@.len() == i,
            i < n ==> start == line_start(ls, i as int),
            forall|k: int|
                #![trigger r@[k]]
                0 <= k < i ==> r@[k].0 == line_start(ls, k) && r@[k].1 == line_start(ls, k)
                    + ls[k].len(),
        decreases n - i,
    {
        proof {
            lemma_text_lines_bounds(contents.spec_bytes(), i as int);
            assert(ls[i as int] == lines@[i as int].spec_bytes());
            if i + 1 < n {
                lemma_text_lines_bounds(contents.spec_bytes(), i + 1);
            }
        }
        let end = start + lines[i].len();
        r.push((start, end));
        if i + 1 < n {
            start = end + 1;
        }
        i = i + 1;
    }
    r
}

/// The index of the first line-map entry that spans `pos`, if any.
pub fn find_line_number(line_map: &[(usize, usize)], pos: usize) -> (r: Option<usize>)
    ensures
        r == (if first_spanning(line_map@, pos as int) < line_map@.len() {
            Some(first_spanning(line_map@, pos as int) as usize)
        } else {
            None
        }),
{
    let mut i: usize = 0;
    proof {
        lemma_first_spanning_from(line_map@, pos as int, 0);
    }
    while i < line_map.len()
        invariant
            i <= line_map@.len(),
            first_spanning(line_map@, pos as int) == first_spanning_from(line_map@, pos as int, i as int),
        decreases line_map@.len() - i,
    {
        let (start, end) = line_map[i];
        if pos >= start && pos < end {
            return Some(i);
        }
        i = i + 1;
    }
    None
}

/// The index of the first line-map entry that spans `pos`, or the number of entries.
pub fn line_index_or_count(line_map: &[(usize, usize)], pos: usize) -> (r: usize)
    ensures
        r == first_spanning(line_map@, pos as int),
{
    proof {
        lemma_first_spanning_from(line_map@, pos as int, 0);
    }
    let n = line_map.len();
    let found = find_line_number(line_map, pos);
    match found {
        Some(i) => i,
        None => {
            assert(first_spanning(line_map@, pos as int) == line_map@.len());
            n
        },
    }
}

/// In a text without `\r`, the two ways of numbering lines agree: an
/// offset inside the `i`-th line (0-based) of the line lookup has `i`
/// newlines before it, so its 1-based line number is `i + 1`.
pub proof fn law_line_lookup_agrees_with_newline_count(b: Seq<u8>, pos: int)
    requires
        no_carriage_returns(b),
        line_containing(text_lines(b), pos) < text_lines(b).len(),
    ensures
        line_containing(text_lines(b), pos) + 1 == line_number_at(b, pos),
{
    let lines = text_lines(b);
    let i = line_containing(lines, pos);
    lemma_line_containing_from(lines, pos, 0);
    lemma_lines_from_positions(b, 0, i);
    let st = line_start(lines, i);
    lemma_text_lines_bounds(b, i);
    let x = b.subrange(0, st);
    let y = b.subrange(st, pos);
    assert forall|k: int| 0 <= k < y.len() implies y[k] != crate::text::NEWLINE by {
        assert(y[k] == b[st + k]);
    }
    assert(b.subrange(0, pos) =~= x + y);
    lemma_count_newlines_none(y);
    lemma_count_newlines_concat(x, y);
}

} // verus!
