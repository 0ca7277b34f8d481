//! The context reported for one applied replacement: the line of the match,
//! rewritten, with the lines around it.

use vstd::prelude::*;
use vstd::string::*;
use vstd::utf8::*;
use crate::text::{strs_bytes, substr};
use crate::strbuf::{string_bytes, join_lines, push_str, push_part, string_from_utf8, trim_end, str_trim_end};
use crate::text::{saturating_sub, min};

verus! {

broadcast use vstd::utf8::group_utf8_lib;

/// The context is a single rewritten line: there are no lines, or one line
/// and no context is asked for.
pub open spec fn single_line_case(lines: Seq<Seq<u8>>, ctx: int) -> bool {
    lines.len() == 0 || (lines.len() == 1 && ctx == 0)
}

/// The line rewritten in the single-line case: the only line, or empty.
pub open spec fn single_line(lines: Seq<Seq<u8>>) -> Seq<u8> {
    if lines.len() == 0 {
        seq![]
    } else {
        lines[0]
    }
}

/// Offset of the match in the single line: from the first map entry's start
/// when the match lies before that entry's end, else 0.
pub open spec fn single_rel(map: Seq<(usize, usize)>, mp: int) -> int {
    if mp < map[0].1 {
        mp - map[0].0
    } else {
        0
    }
}

/// Offset of the match within line `ln`: from the line's start, or 0 when the
/// match lies before it.
pub open spec fn multi_rel(map: Seq<(usize, usize)>, ln: int, mp: int) -> int {
    if mp >= map[ln].0 {
        mp - map[ln].0
    } else {
        0
    }
}

/// A line rewritten at offset `rel`: what precedes the match (nothing where
/// the offset lies past the line), the trimmed new text, and what follows
/// the trimmed old text (nothing where it runs to or past the line's end).
pub open spec fn rewritten_line(line: Seq<u8>, rel: int, old_t: Seq<u8>, new_t: Seq<u8>) -> Seq<u8> {
    (if rel <= line.len() {
        line.subrange(0, rel)
    } else {
        seq![]
    }) + new_t + (if rel + old_t.len() <= line.len() {
        line.subrange(rel + old_t.len(), line.len() as int)
    } else {
        seq![]
    })
}

/// The lines of the context: up to `ctx` lines before line `ln`, line `ln`
/// rewritten when it exists, and the lines after it up to `ln + ctx`.
pub open spec fn context_parts(
    lines: Seq<Seq<u8>>,
    map: Seq<(usize, usize)>,
    ln: int,
    mp: int,
    old_t: Seq<u8>,
    new_t: Seq<u8>,
    ctx: int,
) -> Seq<Seq<u8>> {
    let cs = saturating_sub(ln, ctx);
    let ce = min(ln + ctx + 1, lines.len() as int);
    let before = if cs < ln {
        lines.subrange(cs, ln)
    } else {
        seq![]
    };
    let mid = if ln < lines.len() {
        seq![rewritten_line(lines[ln], multi_rel(map, ln, mp), old_t, new_t)]
    } else {
        seq![]
    };
    let after = if ln + 1 < lines.len() && ln + 1 < ce {
        lines.subrange(ln + 1, ce)
    } else {
        seq![]
    };
    before + mid + after
}

/// The context text of a replacement whose match starts at `mp` on line `ln`.
pub open spec fn context_bytes(
    lines: Seq<Seq<u8>>,
    map: Seq<(usize, usize)>,
    ln: int,
    mp: int,
    old_t: Seq<u8>,
    new_t: Seq<u8>,
    ctx: int,
) -> Seq<u8> {
    if single_line_case(lines, ctx) {
        rewritten_line(single_line(lines), single_rel(map, mp), old_t, new_t)
    } else {
        join_lines(context_parts(lines, map, ln, mp, old_t, new_t, ctx))
    }
}

/// The inputs on which the context can be built: the line map covers the
/// lines used, the offsets cut the rewritten line on character boundaries,
/// and the arithmetic fits in `usize`.
pub open spec fn context_defined(
    lines: Seq<Seq<u8>>,
    map: Seq<(usize, usize)>,
    ln: int,
    mp: int,
    old_t: Seq<u8>,
    ctx: int,
) -> bool {
    if single_line_case(lines, ctx) {
        let line = single_line(lines);
        let rel = single_rel(map, mp);
        &&& map.len() >= 1
        &&& (mp < map[0].1 ==> mp >= map[0].0)
        &&& rel <= line.len()
        &&& is_char_boundary(line, rel)
        &&& rel + old_t.len() <= usize::MAX
        &&& (rel + old_t.len() <= line.len() ==> is_char_boundary(line, rel + old_t.len()))
    } else {
        &&& 0 <= ln
        &&& ln + ctx + 1 <= usize::MAX
        &&& (saturating_sub(ln, ctx) < ln ==> ln <= lines.len())
        &&& (ln < lines.len() ==> {
            let line = lines[ln];
            let rel = multi_rel(map, ln, mp);
            &&& ln < map.len()
            &&& rel + old_t.len() <= usize::MAX
            &&& (rel > 0 && rel <= line.len() ==> is_char_boundary(line, rel))
            &&& (rel + old_t.len() < line.len() ==> is_char_boundary(line, rel + old_t.len()))
        })
    }
}

/// Tests whether the context of a replacement can be built (`context_defined`).
pub fn context_is_defined(
    lines: &[&str],
    line_map: &[(usize, usize)],
    line_num: usize,
    match_pos: usize,
    old_t: &str,
    context_lines: usize,
) -> (r: bool)
    ensures
        r == context_defined(
            strs_bytes(lines@),
            line_map@,
            line_num as int,
            match_pos as int,
            old_t.spec_bytes(),
            context_lines as int,
        ),
{
    let ghost ls = strs_bytes(lines@);
    assert(ls.len() == lines@.len());
    let n = lines.len();
    let ol = old_t.as_bytes().len();
    if n == 0 || (n == 1 && context_lines == 0) {
        let line: &str = if n == 0 {
            ""
        } else {
            lines[0]
        };
        proof {
            reveal_strlit("");
            if n > 0 {
                assert(ls[0] == lines@[0].spec_bytes());
            }
        }
        if line_map.len() < 1 {
            return false;
        }
        let (start0, end0) = line_map[0];
        if match_pos < end0 && match_pos < start0 {
            return false;
        }
        let rel = if match_pos < end0 {
            match_pos - start0
        } else {
            0
        };
        let len = line.as_bytes().len();
        if rel > len || !line.is_char_boundary(rel) || ol > usize::MAX - rel {
            return false;
        }
        if rel + ol <= len && !line.is_char_boundary(rel + ol) {
            return false;
        }
        return true;
    }
    if context_lines > usize::MAX - 1 || line_num > usize::MAX - 1 - context_lines {
        return false;
    }
    let cs = if line_num >= context_lines {
        line_num - context_lines
    } else {
        0
    };
    if cs < line_num && line_num > n {
        return false;
    }
    if line_num < n {
        let line = lines[line_num];
        proof {
            assert(ls[line_num as int] == line.spec_bytes());
        }
        if line_num >= line_map.len() {
            return false;
        }
        let (start_pos, _) = line_map[line_num];
        let rel = if match_pos >= start_pos {
            match_pos - start_pos
        } else {
            0
        };
        let len = line.as_bytes().len();
        if ol > usize::MAX - rel {
            return false;
        }
        if rel > 0 && rel <= len && !line.is_char_boundary(rel) {
            return false;
        }
        if rel + ol < len && !line.is_char_boundary(rel + ol) {
            return false;
        }
    }
    true
}

/// The bytes of a text as `str::trim_end` leaves it.
pub open spec fn trimmed_end_bytes(s: Seq<char>) -> Seq<u8> {
    encode_utf8(str_trim_end(s))
}

/// Rewrites the single line of the single-line case.
fn rewrite_single(line: &str, rel: usize, old_t: &str, new_t: &str) -> (r: Vec<u8>)
    requires
        rel <= line.spec_bytes().len(),
        is_char_boundary(line.spec_bytes(), rel as int),
        rel + old_t.spec_bytes().len() <= usize::MAX,
        rel + old_t.spec_bytes().len() <= line.spec_bytes().len() ==> is_char_boundary(
            line.spec_bytes(),
            rel + old_t.spec_bytes().len(),
        ),
    ensures
        r@ == rewritten_line(line.spec_bytes(), rel as int, old_t.spec_bytes(), new_t.spec_bytes()),
        valid_utf8(r@),
{
    let n = line.as_bytes().len();
    let ol = old_t.as_bytes().len();
    let mut out: Vec<u8> = Vec::new();
    assert(valid_utf8(out@));
    proof {
        is_char_boundary_start_end_of_seq(line.spec_bytes());
    }
    push_str(&mut out, substr(line, 0, rel));
    push_str(&mut out, new_t);
    if rel + ol <= n {
        push_str(&mut out, substr(line, rel + ol, n));
    }
    proof {
        assert(out@ =~= rewritten_line(line.spec_bytes(), rel as int, old_t.spec_bytes(), new_t.spec_bytes()));
    }
    out
}

/// Rewrites the match line of the general case.
fn rewrite_multi(line: &str, rel: usize, old_t: &str, new_t: &str) -> (r: Vec<u8>)
    requires
        rel + old_t.spec_bytes().len() <= usize::MAX,
        rel > 0 && rel <= line.spec_bytes().len() ==> is_char_boundary(line.spec_bytes(), rel as int),
        rel + old_t.spec_bytes().len() < line.spec_bytes().len() ==> is_char_boundary(
            line.spec_bytes(),
            rel + old_t.spec_bytes().len(),
        ),
    ensures
        r@ == rewritten_line(line.spec_bytes(), rel as int, old_t.spec_bytes(), new_t.spec_bytes()),
        valid_utf8(r@),
{
    let n = line.as_bytes().len();
    let ol = old_t.as_bytes().len();
    let mut out: Vec<u8> = Vec::new();
    assert(valid_utf8(out@));
    proof {
        is_char_boundary_start_end_of_seq(line.spec_bytes());
    }
    if rel > 0 && rel <= n {
        push_str(&mut out, substr(line, 0, rel));
    }
    push_str(&mut out, new_t);
    if rel + ol < n {
        push_str(&mut out, substr(line, rel + ol, n));
    }
    proof {
        let b = line.spec_bytes();
        assert(b.subrange(0, 0) =~= Seq::<u8>::empty());
        assert(b.subrange(n as int, n as int) =~= Seq::<u8>::empty());
        assert(out@ =~= rewritten_line(line.spec_bytes(), rel as int, old_t.spec_bytes(), new_t.spec_bytes()));
    }
    out
}

/// The context of a replacement whose match starts at offset `match_pos` on
/// line `line_num`: that line rewritten with the trimmed new text in place of
/// the trimmed old text, between up to `context_lines` lines before and after.
#[verifier::rlimit(40)]
#[verifier::spinoff_prover]
pub fn build_context_lines(
    lines: &[&str],
    line_map: &[(usize, usize)],
    line_num: usize,
    match_pos: usize,
    old_str: &str,
    new_str: &str,
    context_lines: usize,
) -> (r: String)
    requires
        context_defined(
            strs_bytes(lines@),
            line_map@,
            line_num as int,
            match_pos as int,
            trimmed_end_bytes(old_str@),
            context_lines as int,
        ),
    ensures
        string_bytes(r) == context_bytes(
            strs_bytes(lines@),
            line_map@,
            line_num as int,
            match_pos as int,
            trimmed_end_bytes(old_str@),
            trimmed_end_bytes(new_str@),
            context_lines as int,
        ),
{
    let ghost ls = strs_bytes(lines@);
    assert(ls.len() == lines@.len());
    let old_t = trim_end(old_str);
    let new_t = trim_end(new_str);
    let n = lines.len();
    if n == 0 || (n == 1 && context_lines == 0) {
        let line: &str = if n == 0 {
            ""
        } else {
            lines[0]
        };
        proof {
            reveal_strlit("");
            if n > 0 {
                assert(ls[0] == lines@[0].spec_bytes());
            }
        }
        let (start0, end0) = line_map[0];
        let rel = if match_pos < end0 {
            match_pos - start0
        } else {
            0
        };
        let out = rewrite_single(line, rel, old_t, new_t);
        return string_from_utf8(out);
    }
    let context_start = if line_num >= context_lines {
        line_num - context_lines
    } else {
        0
    };
    let context_end = if line_num + context_lines + 1 < n {
        line_num + context_lines + 1
    } else {
        n
    };
    let ghost cs = context_start as int;
    let ghost ce = context_end as int;
    let ghost before = if cs < line_num {
        ls.subrange(cs, line_num as int)
    } else {
        seq![]
    };
    let mut out: Vec<u8> = Vec::new();
    let mut is_first = true;
    let ghost mut parts: Seq<Seq<u8>> = seq![];
    assert(valid_utf8(out@));
    if context_start < line_num {
        let mut k = context_start;
        while k < line_num
            invariant
                0 <= cs <= k <= line_num <= n,
                n == lines@.len(),
                ls == strs_bytes(lines@),
                ls.len() == n,
                parts == ls.subrange(cs, k as int),
                is_first == (parts.len() == 0),
                out@ == join_lines(parts),
                valid_utf8(out@),
            decreases line_num - k,
        {
            let part = lines[k].as_bytes();
            assert(ls[k as int] == part@);
            push_part(&mut out, Ghost(parts), is_first, part);
            is_first = false;
            proof {
                parts = parts.push(part@);
                assert(parts =~= ls.subrange(cs, k + 1));
            }
            k = k + 1;
        }
    }
    assert(parts =~= before);
    if line_num < n {
        let line = lines[line_num];
        let (start_pos, _) = line_map[line_num];
        let rel = if match_pos >= start_pos {
            match_pos - start_pos
        } else {
            0
        };
        proof {
            assert(ls[line_num as int] == line.spec_bytes());
        }
        let modified = rewrite_multi(line, rel, old_t, new_t);
        push_part(&mut out, Ghost(parts), is_first, modified.as_slice());
        is_first = false;
        proof {
            parts = parts.push(modified@);
        }
    }
    let ghost mid_end = parts;
    if line_num + 1 < n && line_num + 1 < context_end {
        let mut k = line_num + 1;
        while k < context_end
            invariant
                line_num + 1 <= k <= context_end <= n,
                n == lines@.len(),
                ls == strs_bytes(lines@),
                ls.len() == n,
                parts == mid_end + ls.subrange(line_num + 1, k as int),
                is_first == (parts.len() == 0),
                out@ == join_lines(parts),
                valid_utf8(out@),
            decreases context_end - k,
        {
            let part = lines[k].as_bytes();
            assert(ls[k as int] == part@);
            push_part(&mut out, Ghost(parts), is_first, part);
            is_first = false;
            proof {
                parts = parts.push(part@);
                assert(parts =~= mid_end + ls.subrange(line_num + 1, k + 1));
            }
            k = k + 1;
        }
    }
    proof {
        assert(parts =~= context_parts(
            ls,
            line_map@,
            line_num as int,
            match_pos as int,
            old_t.spec_bytes(),
            new_t.spec_bytes(),
            context_lines as int,
        ));
    }
    string_from_utf8(out)
}

} // verus!
