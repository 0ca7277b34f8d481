//! The line structure of text, as `str::lines` splits it, stated over the
//! UTF-8 bytes of the text: lines end at `\n`, a `\r` right before a `\n` is
//! not part of the line, and a final `\n` does not open an empty last line.

use vstd::prelude::*;
use vstd::utf8::*;
use vstd::string::*;
use crate::utf8_text::{lemma_ascii_boundaries, lemma_prefix_boundary};

verus! {

broadcast use vstd::utf8::group_utf8_lib;

/// Byte value of `\n`.
pub const NEWLINE: u8 = 10;

/// Byte value of `\r`.
pub const CARRIAGE_RETURN: u8 = 13;

/// `a - b`, or 0 where that is negative.
pub open spec fn saturating_sub(a: int, b: int) -> int {
    if a >= b {
        a - b
    } else {
        0
    }
}

/// The lower of two integers.
pub open spec fn min(a: int, b: int) -> int {
    if a <= b {
        a
    } else {
        b
    }
}

/// Offset of the first `\n` at or after `i`, or the length of `b` when there is none.
pub open spec fn next_newline(b: Seq<u8>, i: nat) -> nat
    decreases b.len() - i,
{
    if i >= b.len() {
        b.len()
    } else if b[i as int] == NEWLINE {
        i
    } else {
        next_newline(b, i + 1)
    }
}

/// The line that starts at `i` and whose terminator (if any) is at `j`:
/// a `\r` right before a terminating `\n` is dropped.
pub open spec fn line_body(b: Seq<u8>, i: nat, j: nat) -> Seq<u8> {
    if j < b.len() && i < j && b[j - 1] == CARRIAGE_RETURN {
        b.subrange(i as int, j - 1)
    } else {
        b.subrange(i as int, j as int)
    }
}

pub proof fn lemma_next_newline(b: Seq<u8>, i: nat)
    ensures
        i <= b.len() ==> i <= next_newline(b, i) <= b.len(),
        i > b.len() ==> next_newline(b, i) == b.len(),
        next_newline(b, i) < b.len() ==> b[next_newline(b, i) as int] == NEWLINE,
        forall|k: int| i <= k < next_newline(b, i) ==> b[k] != NEWLINE,
    decreases b.len() - i,
{
    if i < b.len() && b[i as int] != NEWLINE {
        lemma_next_newline(b, i + 1);
    }
}

/// The lines of `b` from offset `i` on.
pub open spec fn lines_from(b: Seq<u8>, i: nat) -> Seq<Seq<u8>>
    decreases b.len() - i,
{
    if i >= b.len() {
        seq![]
    } else {
        proof {
            lemma_next_newline(b, i);
        }
        let j = next_newline(b, i);
        if j < b.len() {
            seq![line_body(b, i, j)] + lines_from(b, j + 1)
        } else {
            seq![line_body(b, i, j)]
        }
    }
}

/// The lines of a text, given by its UTF-8 bytes.
pub open spec fn text_lines(b: Seq<u8>) -> Seq<Seq<u8>> {
    lines_from(b, 0)
}

/// The bytes of each string in a sequence.
pub open spec fn strs_bytes(v: Seq<&str>) -> Seq<Seq<u8>> {
    v.map_values(|l: &str| l.spec_bytes())
}

/// Offset at which line `i` starts when each line is taken to be followed by a
/// single separator byte.
pub open spec fn line_start(lines: Seq<Seq<u8>>, i: int) -> int
    decreases i,
{
    if i <= 0 {
        0
    } else {
        line_start(lines, i - 1) + lines[i - 1].len() + 1
    }
}

/// The number of `\n` bytes in `b`.
pub open spec fn count_newlines(b: Seq<u8>) -> nat
    decreases b.len(),
{
    if b.len() == 0 {
        0
    } else {
        count_newlines(b.drop_last()) + (if b.last() == NEWLINE { 1nat } else { 0nat })
    }
}

pub proof fn lemma_line_start_shift(h: Seq<u8>, rest: Seq<Seq<u8>>, k: int)
    requires
        1 <= k <= rest.len() + 1,
    ensures
        line_start(seq![h] + rest, k) == h.len() + 1 + line_start(rest, k - 1),
    decreases k,
{
    let l = seq![h] + rest;
    assert(line_start(l, k) == line_start(l, k - 1) + l[k - 1].len() + 1);
    if k > 1 {
        lemma_line_start_shift(h, rest, k - 1);
        assert(l[k - 1] == rest[k - 2]);
    } else {
        assert(l[0] == h);
    }
}

pub proof fn lemma_line_start_mono(lines: Seq<Seq<u8>>, i: int, j: int)
    requires
        0 <= i <= j,
    ensures
        line_start(lines, i) <= line_start(lines, j),
    decreases j,
{
    if j > i {
        lemma_line_start_mono(lines, i, j - 1);
    }
}

/// Every line of `lines_from(b, p)`, placed at `p` plus its line start, ends within `b`.
pub proof fn lemma_lines_from_bounds(b: Seq<u8>, p: nat, k: int)
    requires
        0 <= k < lines_from(b, p).len(),
    ensures
        p + line_start(lines_from(b, p), k) + lines_from(b, p)[k].len() <= b.len(),
    decreases b.len() - p,
{
    let l = lines_from(b, p);
    let j = next_newline(b, p);
    lemma_next_newline(b, p);
    let h = line_body(b, p, j);
    let rest = if j < b.len() { lines_from(b, j + 1) } else { Seq::empty() };
    assert(l =~= seq![h] + rest);
    if k > 0 {
        lemma_line_start_shift(h, rest, k);
        lemma_lines_from_bounds(b, j + 1, k - 1);
        assert(l[k] == rest[k - 1]);
    }
}

/// The lines of a text all fit inside it.
pub proof fn lemma_text_lines_bounds(b: Seq<u8>, k: int)
    requires
        0 <= k < text_lines(b).len(),
    ensures
        0 <= line_start(text_lines(b), k),
        line_start(text_lines(b), k) + text_lines(b)[k].len() <= b.len(),
{
    lemma_lines_from_bounds(b, 0, k);
    lemma_line_start_mono(text_lines(b), 0, k);
}

/// The bytes of `s` from offset `a` to offset `c`, both on character boundaries.
pub fn substr(s: &str, a: usize, c: usize) -> (r: &str)
    requires
        a <= c <= s.spec_bytes().len(),
        is_char_boundary(s.spec_bytes(), a as int),
        is_char_boundary(s.spec_bytes(), c as int),
    ensures
        r.spec_bytes() == s.spec_bytes().subrange(a as int, c as int),
{
    proof {
        lemma_prefix_boundary(s.spec_bytes(), a as int, c as int);
    }
    let (left, _) = s.split_at(c);
    let (_, mid) = left.split_at(a);
    mid
}

/// Splits a text into its lines, as `str::lines` does.
pub fn split_lines(s: &str) -> (r: Vec<&str>)
    ensures
        strs_bytes(r@) == text_lines(s.spec_bytes()),
{
    let b = s.as_bytes();
    let n = b.len();
    let mut r: Vec<&str> = Vec::new();
    let mut i: usize = 0;
    assert(lines_from(b@, 0) == strs_bytes(r@) + lines_from(b@, 0));
    while i < n
        invariant
            n == b@.len(),
            b@ == s.spec_bytes(),
            valid_utf8(b@),
            i <= n,
            i == n || i == 0 || b@[i - 1] == NEWLINE,
            lines_from(b@, 0) == strs_bytes(r@) + lines_from(b@, i as nat),
        decreases n - i,
    {
        let mut j = i;
        while j < n && b[j] != NEWLINE
            invariant
                n == b@.len(),
                i <= j <= n,
                next_newline(b@, i as nat) == next_newline(b@, j as nat),
            decreases n - j,
        {
            j = j + 1;
        }
        proof {
            lemma_next_newline(b@, i as nat);
        }
        let end = if j < n && i < j && b[j - 1] == CARRIAGE_RETURN {
            j - 1
        } else {
            j
        };
        proof {
            if i > 0 {
                lemma_ascii_boundaries(b@, i - 1);
            }
            if j == n {
                is_char_boundary_start_end_of_seq(b@);
            } else {
                lemma_ascii_boundaries(b@, j as int);
            }
            if end < j {
                lemma_ascii_boundaries(b@, end as int);
            }
        }
        let line = substr(s, i, end);
        let ghost old_r = r@;
        let ghost old_i = i;
        r.push(line);
        proof {
            assert(strs_bytes(r@) =~= strs_bytes(old_r).push(line.spec_bytes()));
            assert(line.spec_bytes() == line_body(b@, i as nat, j as nat));
        }
        if j < n {
            i = j + 1;
        } else {
            i = n;
        }
        proof {
            if j < n {
                assert(lines_from(b@, old_i as nat) =~= seq![line.spec_bytes()] + lines_from(b@, i as nat));
            } else {
                assert(lines_from(b@, old_i as nat) =~= seq![line.spec_bytes()]);
                assert(lines_from(b@, i as nat) =~= Seq::<Seq<u8>>::empty());
            }
            assert(lines_from(b@, 0) =~= strs_bytes(r@) + lines_from(b@, i as nat));
        }
    }
    assert(lines_from(b@, i as nat) =~= Seq::<Seq<u8>>::empty());
    assert(strs_bytes(r@) =~= lines_from(b@, 0));
    r
}

/// The number of lines of a text, as `str::lines` counts them.
pub fn count_lines(s: &str) -> (r: usize)
    ensures
        r == text_lines(s.spec_bytes()).len(),
{
    let lines = split_lines(s);
    proof {
        assert(strs_bytes(lines@).len() == lines@.len());
    }
    lines.len()
}

/// The 1-based number of the line on which offset `pos` of `b` lies: one more
/// than the number of `\n` before it.
pub open spec fn line_number_at(b: Seq<u8>, pos: int) -> int {
    count_newlines(b.subrange(0, pos)) + 1int
}

pub proof fn lemma_count_newlines_concat(x: Seq<u8>, y: Seq<u8>)
    ensures
        count_newlines(x + y) == count_newlines(x) + count_newlines(y),
    decreases y.len(),
{
    if y.len() > 0 {
        assert((x + y).drop_last() =~= x + y.drop_last());
        lemma_count_newlines_concat(x, y.drop_last());
    } else {
        assert(x + y =~= x);
    }
}

/// A text without `\r`.
pub open spec fn no_carriage_returns(b: Seq<u8>) -> bool {
    forall|k: int| 0 <= k < b.len() ==> b[k] != CARRIAGE_RETURN
}

pub proof fn lemma_count_newlines_none(x: Seq<u8>)
    requires
        forall|k: int| 0 <= k < x.len() ==> x[k] != NEWLINE,
    ensures
        count_newlines(x) == 0,
    decreases x.len(),
{
    if x.len() > 0 {
        lemma_count_newlines_none(x.drop_last());
    }
}

/// In a text without `\r`, line `k` of the lines from offset `p` starts at
/// `p` plus its line start, has `k` newlines between `p` and its start, and
/// holds no newline.
pub proof fn lemma_lines_from_positions(b: Seq<u8>, p: nat, k: int)
    requires
        no_carriage_returns(b),
        0 <= k < lines_from(b, p).len(),
    ensures
        p + line_start(lines_from(b, p), k) + lines_from(b, p)[k].len() <= b.len(),
        count_newlines(b.subrange(p as int, p + line_start(lines_from(b, p), k))) == k,
        forall|q: int|
            p + line_start(lines_from(b, p), k) <= q < p + line_start(lines_from(b, p), k) + lines_from(
                b,
                p,
            )[k].len() ==> b[q] != NEWLINE,
    decreases b.len() - p,
{
    let l = lines_from(b, p);
    let j = next_newline(b, p);
    lemma_next_newline(b, p);
    lemma_lines_from_bounds(b, p, k);
    let h = line_body(b, p, j);
    assert(h =~= b.subrange(p as int, j as int));
    let rest = if j < b.len() { lines_from(b, j + 1) } else { Seq::empty() };
    assert(l =~= seq![h] + rest);
    if k == 0 {
        assert(b.subrange(p as int, p as int) =~= Seq::<u8>::empty());
        assert(l[0] == h);
    } else {
        lemma_line_start_shift(h, rest, k);
        assert(j < b.len());
        lemma_lines_from_positions(b, j + 1, k - 1);
        assert(l[k] == rest[k - 1]);
        let st = p + line_start(l, k);
        assert(st == j + 1 + line_start(rest, k - 1));
        lemma_line_start_mono(rest, 0, k - 1);
        assert(st <= b.len());
        let x = b.subrange(p as int, j as int);
        let y = b.subrange(j as int, (j + 1) as int);
        let z = b.subrange((j + 1) as int, st);
        assert(b.subrange(p as int, st) =~= x + y + z);
        lemma_count_newlines_none(x);
        assert(y =~= seq![NEWLINE]);
        assert(count_newlines(y) == 1) by {
            assert(y.drop_last() =~= Seq::<u8>::empty());
            assert(count_newlines(Seq::<u8>::empty()) == 0);
        }
        lemma_count_newlines_concat(x, y);
        lemma_count_newlines_concat(x + y, z);
    }
}

pub proof fn lemma_count_newlines_le(x: Seq<u8>)
    ensures
        count_newlines(x) <= x.len(),
    decreases x.len(),
{
    if x.len() > 0 {
        lemma_count_newlines_le(x.drop_last());
    }
}

/// Counts `\n` bytes in `b[from..to]`.
pub fn count_newlines_in(b: &[u8], from: usize, to: usize) -> (r: usize)
    requires
        from <= to <= b@.len(),
    ensures
        r == count_newlines(b@.subrange(from as int, to as int)),
        r <= to - from,
{
    let mut k = from;
    let mut r: usize = 0;
    while k < to
        invariant
            from <= k <= to <= b@.len(),
            r == count_newlines(b@.subrange(from as int, k as int)),
            r <= k - from,
        decreases to - k,
    {
        proof {
            assert(b@.subrange(from as int, k + 1).drop_last() =~= b@.subrange(from as int, k as int));
        }
        if b[k] == NEWLINE {
            r = r + 1;
        }
        k = k + 1;
    }
    r
}

} // verus!
