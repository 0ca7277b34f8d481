//! Byte-level facts about UTF-8 text: which byte offsets are character
//! boundaries, and which byte ranges are themselves valid UTF-8.

use vstd::prelude::*;
use vstd::utf8::*;

verus! {

broadcast use vstd::utf8::group_utf8_lib;

/// Offsets `|x| + k` of `x + y` are character boundaries exactly when `k` is one of `y`.
pub proof fn lemma_concat_boundary(x: Seq<u8>, y: Seq<u8>, k: int)
    requires
        valid_utf8(x),
        valid_utf8(y),
        0 <= k,
    ensures
        is_char_boundary(x + y, x.len() + k) == is_char_boundary(y, k),
    decreases x.len(),
{
    if x.len() == 0 {
        assert(x + y =~= y);
    } else {
        let px = pop_first_scalar(x);
        let xy = x + y;
        assert(forall|i: int| 0 <= i < x.len() ==> #[trigger] xy[i] == x[i]);
        assert(length_of_first_scalar(xy) == length_of_first_scalar(x));
        assert(pop_first_scalar(xy) =~= px + y);
        lemma_concat_boundary(px, y, k);
        assert(valid_utf8(xy));
    }
}

/// A valid prefix of valid text ends on a character boundary.
pub proof fn lemma_valid_prefix_boundary(y: Seq<u8>, m: int)
    requires
        valid_utf8(y),
        0 <= m <= y.len(),
        valid_utf8(y.subrange(0, m)),
    ensures
        is_char_boundary(y, m),
    decreases m,
{
    if m != 0 {
        let p = y.subrange(0, m);
        let l = length_of_first_scalar(p);
        assert(p[0] == y[0]);
        assert(length_of_first_scalar(y) == l);
        assert(pop_first_scalar(p) =~= pop_first_scalar(y).subrange(0, m - l));
        lemma_valid_prefix_boundary(pop_first_scalar(y), m - l);
    }
}

/// A valid run of bytes that starts on a boundary also ends on one.
pub proof fn lemma_boundary_after_valid(b: Seq<u8>, i: int, j: int)
    requires
        valid_utf8(b),
        0 <= i <= j <= b.len(),
        is_char_boundary(b, i),
        valid_utf8(b.subrange(i, j)),
    ensures
        is_char_boundary(b, j),
{
    let x = b.subrange(0, i);
    let y = b.subrange(i, b.len() as int);
    valid_utf8_split(b, i);
    assert(x + y =~= b);
    assert(y.subrange(0, j - i) =~= b.subrange(i, j));
    lemma_valid_prefix_boundary(y, j - i);
    lemma_concat_boundary(x, y, j - i);
}

/// The bytes between two boundaries form valid UTF-8.
pub proof fn lemma_valid_subrange(b: Seq<u8>, a: int, c: int)
    requires
        valid_utf8(b),
        0 <= a <= c <= b.len(),
        is_char_boundary(b, a),
        is_char_boundary(b, c),
    ensures
        valid_utf8(b.subrange(a, c)),
{
    let x = b.subrange(0, a);
    let y = b.subrange(a, b.len() as int);
    valid_utf8_split(b, a);
    assert(x + y =~= b);
    lemma_concat_boundary(x, y, c - a);
    valid_utf8_split(y, c - a);
    assert(y.subrange(0, c - a) =~= b.subrange(a, c));
}

/// A boundary of valid text that lies within a prefix ending on a boundary is a boundary of that prefix.
pub proof fn lemma_prefix_boundary(b: Seq<u8>, a: int, c: int)
    requires
        valid_utf8(b),
        0 <= a <= c <= b.len(),
        is_char_boundary(b, a),
        is_char_boundary(b, c),
    ensures
        valid_utf8(b.subrange(0, c)),
        is_char_boundary(b.subrange(0, c), a),
{
    let x = b.subrange(0, c);
    valid_utf8_split(b, c);
    if a == c {
        is_char_boundary_start_end_of_seq(x);
    } else if a == 0 {
    } else {
        is_char_boundary_iff_not_is_continuation_byte(b, a);
        is_char_boundary_iff_not_is_continuation_byte(x, a);
    }
}

/// A single ASCII byte is valid UTF-8.
pub proof fn lemma_ascii_byte_valid(x: u8)
    requires
        x < 0x80,
    ensures
        valid_utf8(seq![x]),
{
    let s = seq![x];
    assert((x & 0x7F) as u32 <= 0x7f) by (bit_vector);
    assert(valid_first_scalar(s));
    assert(pop_first_scalar(s) =~= Seq::<u8>::empty());
    reveal_with_fuel(valid_utf8, 2);
}

/// Text made of ASCII bytes only is valid UTF-8.
pub proof fn lemma_ascii_valid(s: Seq<u8>)
    requires
        forall|i: int| 0 <= i < s.len() ==> #[trigger] s[i] < 0x80,
    ensures
        valid_utf8(s),
{
    assert(valid_utf8(s.subrange(0, 0)));
    assert forall|i: int| 0 <= 0 <= i < s.len() <= s.len() implies #[trigger] is_leading_byte_width_1(s[i]) by {
        assert(s[i] < 0x80);
    }
    partial_valid_utf8_extend_ascii_block(s, 0, s.len() as int);
    assert(s.subrange(0, s.len() as int) =~= s);
}

/// Both sides of an ASCII byte in valid text are character boundaries.
pub proof fn lemma_ascii_boundaries(b: Seq<u8>, j: int)
    requires
        valid_utf8(b),
        0 <= j < b.len(),
        b[j] < 0x80,
    ensures
        is_char_boundary(b, j),
        is_char_boundary(b, j + 1),
{
    is_char_boundary_iff_not_is_continuation_byte(b, j);
    lemma_ascii_byte_valid(b[j]);
    assert(b.subrange(j, j + 1) =~= seq![b[j]]);
    lemma_boundary_after_valid(b, j, j + 1);
}

/// An occurrence of valid non-empty text inside valid text starts and ends on
/// character boundaries.
pub proof fn lemma_occurrence_boundaries(b: Seq<u8>, pat: Seq<u8>, p: int)
    requires
        valid_utf8(b),
        valid_utf8(pat),
        pat.len() > 0,
        0 <= p,
        p + pat.len() <= b.len(),
        b.subrange(p, p + pat.len()) == pat,
    ensures
        is_char_boundary(b, p),
        is_char_boundary(b, p + pat.len()),
{
    assert(valid_first_scalar(pat));
    assert(b[p] == pat[0]) by {
        assert(b.subrange(p, p + pat.len())[0] == b[p]);
    }
    is_char_boundary_iff_not_is_continuation_byte(b, p);
    lemma_boundary_after_valid(b, p, p + pat.len());
}

} // verus!
