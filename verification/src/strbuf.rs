//! Building strings from UTF-8 bytes, joining lines, and the trusted string
//! operations of `std` that the editing code relies on.

use vstd::prelude::*;
use vstd::utf8::*;
use vstd::string::*;
use crate::text::{NEWLINE, strs_bytes};

verus! {

broadcast use vstd::utf8::group_utf8_lib;

/// The UTF-8 bytes of a `String`.
pub open spec fn string_bytes(s: String) -> Seq<u8> {
    encode_utf8(s@)
}

/// The UTF-8 bytes of each `String` of a sequence.
pub open spec fn strings_bytes(v: Seq<String>) -> Seq<Seq<u8>> {
    v.map_values(|s: String| string_bytes(s))
}

/// Parts joined with one `\n` between each two of them.
pub open spec fn join_lines(parts: Seq<Seq<u8>>) -> Seq<u8>
    decreases parts.len(),
{
    if parts.len() == 0 {
        seq![]
    } else if parts.len() == 1 {
        parts[0]
    } else {
        join_lines(parts.drop_last()) + seq![NEWLINE] + parts.last()
    }
}

/// Turns bytes that are valid UTF-8 into a `String` with exactly those bytes
/// (`String::from_utf8`, which succeeds on valid UTF-8).
#[verifier::external_body]
pub(crate) fn string_from_utf8(bytes: Vec<u8>) -> (s: String)
    requires
        valid_utf8(bytes@),
    ensures
        string_bytes(s) == bytes@,
{
    String::from_utf8(bytes).unwrap()
}

/// Copies a string slice into a new `String`.
pub fn to_owned_string(s: &str) -> (r: String)
    ensures
        string_bytes(r) == s.spec_bytes(),
{
    <String as StringExecFns>::from_str(s)
}

/// Views a `String` as a string slice.
pub fn as_str(s: &String) -> (r: &str)
    ensures
        r@ == s@,
        r.spec_bytes() == string_bytes(*s),
{
    s.as_str()
}

/// Appends `b[from..to]` to `out`.
pub fn push_range(out: &mut Vec<u8>, b: &[u8], from: usize, to: usize)
    requires
        from <= to <= b@.len(),
    ensures
        final(out)@ == old(out)@ + b@.subrange(from as int, to as int),
{
    let mut k = from;
    while k < to
        invariant
            from <= k <= to <= b@.len(),
            out@ == old(out)@ + b@.subrange(from as int, k as int),
        decreases to - k,
    {
        out.push(b[k]);
        k = k + 1;
        assert(out@ =~= old(out)@ + b@.subrange(from as int, k as int));
    }
}

/// Appends the bytes of `s` to `out`.
pub fn push_str(out: &mut Vec<u8>, s: &str)
    ensures
        final(out)@ == old(out)@ + s.spec_bytes(),
        valid_utf8(old(out)@) ==> valid_utf8(final(out)@),
{
    let b = s.as_bytes();
    push_range(out, b, 0, b.len());
    assert(b@.subrange(0, b@.len() as int) =~= b@);
    proof {
        if valid_utf8(old(out)@) {
            valid_utf8_concat(old(out)@, s.spec_bytes());
        }
    }
}

pub proof fn lemma_join_lines_push(parts: Seq<Seq<u8>>, p: Seq<u8>)
    ensures
        join_lines(parts.push(p)) == if parts.len() == 0 {
            p
        } else {
            join_lines(parts) + seq![NEWLINE] + p
        },
{
    assert(parts.push(p).drop_last() =~= parts);
}

pub proof fn lemma_join_lines_valid(parts: Seq<Seq<u8>>)
    requires
        forall|i: int| 0 <= i < parts.len() ==> valid_utf8(#[trigger] parts[i]),
    ensures
        valid_utf8(join_lines(parts)),
    decreases parts.len(),
{
    if parts.len() > 1 {
        lemma_join_lines_valid(parts.drop_last());
        crate::utf8_text::lemma_ascii_byte_valid(NEWLINE);
        valid_utf8_concat(join_lines(parts.drop_last()), seq![NEWLINE]);
        valid_utf8_concat(join_lines(parts.drop_last()) + seq![NEWLINE], parts.last());
    }
}

/// Appends one more part to a `\n`-joined run of parts.
pub fn push_part(out: &mut Vec<u8>, parts: Ghost<Seq<Seq<u8>>>, is_first: bool, part: &[u8])
    requires
        old(out)@ == join_lines(parts@),
        is_first == (parts@.len() == 0),
    ensures
        final(out)@ == join_lines(parts@.push(part@)),
        valid_utf8(old(out)@) && valid_utf8(part@) ==> valid_utf8(final(out)@),
{
    proof {
        lemma_join_lines_push(parts@, part@);
    }
    if !is_first {
        out.push(NEWLINE);
    }
    let ghost mid = out@;
    push_range(out, part, 0, part.len());
    proof {
        assert(part@.subrange(0, part@.len() as int) =~= part@);
        if parts@.len() > 0 {
            assert(mid =~= old(out)@ + seq![NEWLINE]);
            if valid_utf8(old(out)@) && valid_utf8(part@) {
                crate::utf8_text::lemma_ascii_byte_valid(NEWLINE);
                valid_utf8_concat(old(out)@, seq![NEWLINE]);
                valid_utf8_concat(mid, part@);
            }
        } else {
            assert(old(out)@ =~= Seq::<u8>::empty());
            assert(final(out)@ =~= part@);
        }
    }
}

/// Joins `parts[from..to]` with `\n` between each two of them.
pub fn join_str_range(parts: &[&str], from: usize, to: usize) -> (r: String)
    requires
        from <= to <= parts@.len(),
    ensures
        string_bytes(r) == join_lines(strs_bytes(parts@).subrange(from as int, to as int)),
{
    let mut out: Vec<u8> = Vec::new();
    let mut k = from;
    while k < to
        invariant
            from <= k <= to <= parts@.len(),
            out@ == join_lines(strs_bytes(parts@).subrange(from as int, k as int)),
        decreases to - k,
    {
        let ghost before = strs_bytes(parts@).subrange(from as int, k as int);
        if k > from {
            out.push(NEWLINE);
        }
        push_str(&mut out, parts[k]);
        proof {
            lemma_join_lines_push(before, parts@[k as int].spec_bytes());
            assert(strs_bytes(parts@).subrange(from as int, k + 1) =~= before.push(
                parts@[k as int].spec_bytes(),
            ));
            assert(out@ =~= join_lines(before.push(parts@[k as int].spec_bytes())));
        }
        k = k + 1;
    }
    proof {
        let ps = strs_bytes(parts@).subrange(from as int, to as int);
        assert forall|i: int| 0 <= i < ps.len() implies valid_utf8(#[trigger] ps[i]) by {
            assert(ps[i] == parts@[from + i].spec_bytes());
        }
        lemma_join_lines_valid(ps);
    }
    string_from_utf8(out)
}

/// Joins `parts[from..to]` with `\n` between each two of them.
pub fn join_string_range(parts: &[String], from: usize, to: usize) -> (r: String)
    requires
        from <= to <= parts@.len(),
    ensures
        string_bytes(r) == join_lines(strings_bytes(parts@).subrange(from as int, to as int)),
{
    let mut out: Vec<u8> = Vec::new();
    let mut k = from;
    while k < to
        invariant
            from <= k <= to <= parts@.len(),
            out@ == join_lines(strings_bytes(parts@).subrange(from as int, k as int)),
        decreases to - k,
    {
        let ghost before = strings_bytes(parts@).subrange(from as int, k as int);
        if k > from {
            out.push(NEWLINE);
        }
        push_str(&mut out, as_str(&parts[k]));
        proof {
            lemma_join_lines_push(before, string_bytes(parts@[k as int]));
            assert(strings_bytes(parts@).subrange(from as int, k + 1) =~= before.push(
                string_bytes(parts@[k as int]),
            ));
            assert(out@ =~= join_lines(before.push(string_bytes(parts@[k as int]))));
        }
        k = k + 1;
    }
    proof {
        let ps = strings_bytes(parts@).subrange(from as int, to as int);
        assert forall|i: int| 0 <= i < ps.len() implies valid_utf8(#[trigger] ps[i]) by {
            assert(ps[i] == string_bytes(parts@[from + i]));
        }
        lemma_join_lines_valid(ps);
    }
    string_from_utf8(out)
}

/// Unicode white space (the `White_Space` property), as `char::is_whitespace`
/// decides it.
pub open spec fn is_white_space(c: char) -> bool {
    let v = c as u32;
    ||| 9 <= v <= 13
    ||| v == 32
    ||| v == 0x85
    ||| v == 0xa0
    ||| v == 0x1680
    ||| 0x2000 <= v <= 0x200a
    ||| v == 0x2028
    ||| v == 0x2029
    ||| v == 0x202f
    ||| v == 0x205f
    ||| v == 0x3000
}

/// The length of `s` without its trailing white space.
pub open spec fn trimmed_end_len(s: Seq<char>) -> nat
    decreases s.len(),
{
    if s.len() == 0 {
        0
    } else if is_white_space(s.last()) {
        trimmed_end_len(s.drop_last())
    } else {
        s.len()
    }
}

/// The number of white space characters that `s` starts with.
pub open spec fn leading_white_len(s: Seq<char>) -> nat
    decreases s.len(),
{
    if s.len() == 0 {
        0
    } else if is_white_space(s[0]) {
        1 + leading_white_len(s.drop_first())
    } else {
        0
    }
}

/// What `str::trim_end` gives for a text, taken as its characters: the text
/// without its trailing white space.
pub open spec fn str_trim_end(s: Seq<char>) -> Seq<char> {
    s.subrange(0, trimmed_end_len(s) as int)
}

/// What `str::trim` gives for a text: the text without its leading and
/// trailing white space.
pub open spec fn str_trim(s: Seq<char>) -> Seq<char> {
    let t = str_trim_end(s);
    t.subrange(leading_white_len(t) as int, t.len() as int)
}

/// `str::trim_end`: the contract claims the text without its trailing white
/// space, as the std documentation defines it, which is a front part of `s`.
#[verifier::external_body]
pub(crate) fn trim_end(s: &str) -> (r: &str)
    ensures
        r@ == str_trim_end(s@),
        r.spec_bytes().len() <= s.spec_bytes().len(),
        r.spec_bytes() == s.spec_bytes().subrange(0, r.spec_bytes().len() as int),
{
    s.trim_end()
}

/// `str::trim`: the contract claims the text without its leading and
/// trailing white space, as the std documentation defines it.
#[verifier::external_body]
pub(crate) fn trim(s: &str) -> (r: &str)
    ensures
        r@ == str_trim(s@),
{
    s.trim()
}

/// Whether two string slices hold the same text.
pub fn str_eq(a: &str, b: &str) -> (r: bool)
    ensures
        r == (a.spec_bytes() == b.spec_bytes()),
{
    let x = a.as_bytes();
    let y = b.as_bytes();
    if x.len() != y.len() {
        return false;
    }
    let mut k: usize = 0;
    while k < x.len()
        invariant
            x@ == a.spec_bytes(),
            y@ == b.spec_bytes(),
            x@.len() == y@.len(),
            k <= x@.len(),
            forall|i: int| 0 <= i < k ==> x@[i] == y@[i],
        decreases x@.len() - k,
    {
        if x[k] != y[k] {
            assert(x@[k as int] != y@[k as int]);
            return false;
        }
        k = k + 1;
    }
    assert(x@ =~= y@);
    true
}

} // verus!
