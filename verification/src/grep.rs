//! Searching the lines of a text for a regular expression, with the lines
//! around each hit as its context.

use vstd::prelude::*;
use vstd::string::*;
use vstd::utf8::*;
use crate::types::{GrepMatch, GrepOptions};
use crate::path_utils::{file_name, file_name_of};
use crate::text::{text_lines, strs_bytes, split_lines, saturating_sub, min};
use crate::strbuf::{string_bytes, strings_bytes, join_lines, join_str_range, join_string_range, to_owned_string, as_str};

verus! {

broadcast use vstd::utf8::group_utf8_lib;

/// A compiled regular expression; carried through untouched.
#[verifier::external_type_specification]
#[verifier::external_body]
pub struct ExRegex(regex::Regex);

/// Whether `regex::RegexBuilder` accepts `pattern` with the given case
/// sensitivity (its default size limits otherwise).
pub uninterp spec fn regex_compiles(pattern: Seq<char>, case_insensitive: bool) -> bool;

/// Whether the expression compiled from `pattern` matches somewhere in
/// `haystack` (`Regex::is_match`).
pub uninterp spec fn regex_matches(pattern: Seq<char>, case_insensitive: bool, haystack: Seq<char>) -> bool;

/// A regular expression together with the text and the case sensitivity
/// that it was compiled from. Only `LineMatcher::build` makes one, so the
/// expression is always the one compiled from these two.
pub struct LineMatcher {
    regex: regex::Regex,
    pattern: String,
    case_insensitive: bool,
}

impl LineMatcher {
    /// The text of the expression.
    pub closed spec fn source(&self) -> Seq<char> {
        self.pattern@
    }

    /// Whether letters match regardless of case.
    pub closed spec fn ignores_case(&self) -> bool {
        self.case_insensitive
    }

    /// Compiles `pattern` with `regex::RegexBuilder`, case-insensitively when
    /// asked. The contract claims that it succeeds exactly where
    /// `regex_compiles` holds, and that the matcher keeps the pattern and the
    /// case sensitivity; the error text is left unsaid.
    #[verifier::external_body]
    pub(crate) fn build(pattern: &str, case_insensitive: bool) -> (r: Result<LineMatcher, String>)
        ensures
            r is Ok <==> regex_compiles(pattern@, case_insensitive),
            r matches Ok(m) ==> m.source() == pattern@ && m.ignores_case() == case_insensitive,
    {
        match regex::RegexBuilder::new(pattern).case_insensitive(case_insensitive).build() {
            Ok(regex) => Ok(LineMatcher { regex, pattern: pattern.to_string(), case_insensitive }),
            Err(e) => Err(e.to_string()),
        }
    }

    /// `Regex::is_match` on `line`: the contract claims that the answer is
    /// `regex_matches` of the pattern that the matcher was built from.
    #[verifier::external_body]
    pub(crate) fn is_match(&self, line: &str) -> (r: bool)
        ensures
            r == regex_matches(self.source(), self.ignores_case(), line@),
    {
        self.regex.is_match(line)
    }
}

/// The matcher of a search for `pattern`: letters match regardless of case
/// unless the options ask for a case-sensitive search; the error text of an
/// expression that does not compile.
pub fn search_matcher(pattern: &str, options: &GrepOptions) -> (r: Result<LineMatcher, String>)
    ensures
        r is Ok <==> regex_compiles(pattern@, !options.case_sensitive),
        r matches Ok(m) ==> m.source() == pattern@ && m.ignores_case() == !options.case_sensitive,
{
    LineMatcher::build(pattern, !options.case_sensitive)
}

/// A compiled shell-style file name pattern; carried through untouched.
#[verifier::external_type_specification]
#[verifier::external_body]
pub struct ExGlobPattern(glob::Pattern);

/// Whether `glob::Pattern::new` accepts `pattern`.
pub uninterp spec fn glob_compiles(pattern: Seq<char>) -> bool;

/// Whether the pattern compiled from `pattern` matches all of `name` with
/// the default options (`glob::Pattern::matches`).
pub uninterp spec fn glob_matches(pattern: Seq<char>, name: Seq<char>) -> bool;

/// A shell-style file name pattern together with its text. Only
/// `FilePattern::new` makes one, so the pattern is always the one compiled
/// from that text.
pub struct FilePattern {
    pattern: glob::Pattern,
    source: String,
}

impl FilePattern {
    /// The text of the pattern.
    pub closed spec fn text(&self) -> Seq<char> {
        self.source@
    }

    /// Compiles `pattern` with `glob::Pattern::new`. The contract claims that
    /// it succeeds exactly where `glob_compiles` holds and keeps the text.
    #[verifier::external_body]
    fn new(pattern: &str) -> (r: Option<FilePattern>)
        ensures
            r is Some <==> glob_compiles(pattern@),
            r matches Some(p) ==> p.text() == pattern@,
    {
        match glob::Pattern::new(pattern) {
            Ok(p) => Some(FilePattern { pattern: p, source: pattern.to_string() }),
            Err(_) => None,
        }
    }

    /// `glob::Pattern::matches` on `name`: the contract claims that the
    /// answer is `glob_matches` of the text the pattern was built from.
    #[verifier::external_body]
    fn matches(&self, name: &str) -> (r: bool)
        ensures
            r == glob_matches(self.text(), name@),
    {
        self.pattern.matches(name)
    }
}

/// Whether a file is searched: with no pattern every file is; with one, the
/// file's name (empty where the path has none) must match it, and a pattern
/// that does not compile selects nothing.
pub open spec fn file_selected(file_pattern: Option<Seq<char>>, path: Seq<u8>) -> bool {
    match file_pattern {
        None => true,
        Some(p) => {
            let name = match file_name_of(path) {
                Some(n) => decode_utf8(n),
                None => Seq::<char>::empty(),
            };
            glob_compiles(p) && glob_matches(p, name)
        },
    }
}

/// Decides by `options.file_pattern` whether the file at `path` is searched.
pub fn file_is_selected(options: &GrepOptions, path: &str) -> (r: bool)
    ensures
        r == file_selected(
            match options.file_pattern {
                Some(p) => Some(p@),
                None => None,
            },
            path.spec_bytes(),
        ),
{
    match &options.file_pattern {
        None => true,
        Some(p) => match FilePattern::new(as_str(p)) {
            None => false,
            Some(fp) => {
                let name = match file_name(path) {
                    Some(n) => n,
                    None => "",
                };
                proof {
                    reveal_strlit("");
                    encode_utf8_decode_utf8(name@);
                    match file_name_of(path.spec_bytes()) {
                        Some(n) => assert(name@ == decode_utf8(n)),
                        None => assert(name@ =~= Seq::<char>::empty()),
                    }
                }
                fp.matches(name)
            },
        },
    }
}

/// The lines from `before` lines above line `i` (0-based) to `after` lines
/// below it, cut at the ends of the text, joined with `\n`.
pub open spec fn context_window(lines: Seq<Seq<u8>>, i: int, before: int, after: int) -> Seq<u8> {
    join_lines(lines.subrange(saturating_sub(i, before), min(i + after + 1, lines.len() as int)))
}

/// Whether the matcher matches the line given by its bytes.
pub open spec fn line_hit(m: LineMatcher, line: Seq<u8>) -> bool {
    regex_matches(m.source(), m.ignores_case(), decode_utf8(line))
}

/// The 0-based numbers of the lines that the matcher matches, in order.
pub open spec fn hit_lines(m: LineMatcher, lines: Seq<Seq<u8>>) -> Seq<int>
    decreases lines.len(),
{
    if lines.len() == 0 {
        seq![]
    } else if line_hit(m, lines.last()) {
        hit_lines(m, lines.drop_last()).push(lines.len() - 1)
    } else {
        hit_lines(m, lines.drop_last())
    }
}

/// The hit lines are lines of the text, each reported once, from the top
/// down.
pub proof fn law_hit_lines_increasing(m: LineMatcher, lines: Seq<Seq<u8>>)
    ensures
        forall|k: int| 0 <= k < hit_lines(m, lines).len() ==> 0 <= #[trigger] hit_lines(m, lines)[k] < lines.len(),
        forall|i: int, j: int|
            0 <= i < j < hit_lines(m, lines).len() ==> hit_lines(m, lines)[i] < hit_lines(m, lines)[j],
    decreases lines.len(),
{
    if lines.len() > 0 {
        let d = lines.drop_last();
        law_hit_lines_increasing(m, d);
        let h = hit_lines(m, d);
        if line_hit(m, lines.last()) {
            let hp = h.push(lines.len() - 1);
            assert(hit_lines(m, lines) == hp);
            assert forall|k: int| 0 <= k < hp.len() implies 0 <= #[trigger] hp[k] < lines.len() by {
                if k < h.len() {
                    assert(hp[k] == h[k]);
                }
            }
            assert forall|i: int, j: int| 0 <= i < j < hp.len() implies hp[i] < hp[j] by {
                assert(hp[i] == h[i]);
                if j < h.len() {
                    assert(hp[j] == h[j]);
                }
            }
        }
    }
}

/// A line is reported exactly when the matcher matches it.
pub proof fn law_hit_lines_complete(m: LineMatcher, lines: Seq<Seq<u8>>, i: int)
    requires
        0 <= i < lines.len(),
    ensures
        hit_lines(m, lines).contains(i) <==> line_hit(m, lines[i]),
    decreases lines.len(),
{
    let d = lines.drop_last();
    law_hit_lines_increasing(m, d);
    if i < lines.len() - 1 {
        law_hit_lines_complete(m, d, i);
        assert(d[i] == lines[i]);
        if line_hit(m, lines.last()) {
            let h = hit_lines(m, d);
            let hp = h.push(lines.len() - 1);
            assert(hit_lines(m, lines) == hp);
            if hp.contains(i) {
                let k = choose|k: int| 0 <= k < hp.len() && #[trigger] hp[k] == i;
                assert(k < h.len());
                assert(h[k] == i);
            }
            if h.contains(i) {
                let k = choose|k: int| 0 <= k < h.len() && #[trigger] h[k] == i;
                assert(hp[k] == i);
            }
        }
    } else {
        let h = hit_lines(m, d);
        assert forall|k: int| 0 <= k < h.len() implies h[k] != i by {}
        if line_hit(m, lines.last()) {
            assert(hit_lines(m, lines)[h.len() as int] == i);
        }
    }
}

/// `r` reports, in order, each hit line with its 1-based number and its
/// context window.
pub open spec fn reports_hits(
    r: Seq<GrepMatch>,
    m: LineMatcher,
    lines: Seq<Seq<u8>>,
    before: int,
    after: int,
) -> bool {
    let hits = hit_lines(m, lines);
    &&& r.len() == hits.len()
    &&& forall|k: int|
        0 <= k < r.len() ==> {
            &&& #[trigger] r[k].line_number == hits[k] + 1
            &&& string_bytes(r[k].context) == context_window(lines, hits[k], before, after)
        }
}

/// The lines of `content` that `matcher` matches, each with the
/// `options.context_before` lines above it and the `options.context_after`
/// lines below it.
pub fn grep_content(content: &str, matcher: &LineMatcher, options: &GrepOptions) -> (r: Vec<GrepMatch>)
    requires
        text_lines(content.spec_bytes()).len() + options.context_after < usize::MAX,
    ensures
        reports_hits(
            r@,
            *matcher,
            text_lines(content.spec_bytes()),
            options.context_before as int,
            options.context_after as int,
        ),
{
    let lines = split_lines(content);
    let ghost ls = text_lines(content.spec_bytes());
    let n = lines.len();
    let mut r: Vec<GrepMatch> = Vec::new();
    let mut i: usize = 0;
    assert(ls.subrange(0, 0) =~= Seq::<Seq<u8>>::empty());
    while i < n
        invariant
            n == lines@.len(),
            strs_bytes(lines@) == ls,
            ls.len() + options.context_after < usize::MAX,
            i <= n,
            r@.len() == hit_lines(*matcher, ls.subrange(0, i as int)).len(),
            forall|k: int|
                0 <= k < r@.len() ==> {
                    &&& #[trigger] r@[k].line_number == hit_lines(*matcher, ls.subrange(0, i as int))[k] + 1
                    &&& string_bytes(r@[k].context) == context_window(
                        ls,
                        hit_lines(*matcher, ls.subrange(0, i as int))[k],
                        options.context_before as int,
                        options.context_after as int,
                    )
                },
        decreases n - i,
    {
        let ghost prev = ls.subrange(0, i as int);
        let ghost next = ls.subrange(0, i + 1);
        assert(next.drop_last() =~= prev);
        assert(lines@[i as int].spec_bytes() == ls[i as int]);
        assert(next.last() == ls[i as int]);
        if matcher.is_match(lines[i]) {
            let start = if i >= options.context_before { i - options.context_before } else { 0 };
            let end = if i + options.context_after + 1 <= n { i + options.context_after + 1 } else { n };
            let context = join_str_range(lines.as_slice(), start, end);
            let ghost old_r = r@;
            r.push(GrepMatch { line_number: i + 1, context });
            proof {
                assert(line_hit(*matcher, next.last()));
                let hn = hit_lines(*matcher, next);
                let hp = hit_lines(*matcher, prev);
                assert(hn == hp.push(i as int));
                assert(string_bytes(context) == context_window(
                    ls,
                    i as int,
                    options.context_before as int,
                    options.context_after as int,
                ));
                assert forall|k: int| 0 <= k < r@.len() implies {
                    &&& #[trigger] r@[k].line_number == hn[k] + 1
                    &&& string_bytes(r@[k].context) == context_window(
                        ls,
                        hn[k],
                        options.context_before as int,
                        options.context_after as int,
                    )
                } by {
                    if k < old_r.len() {
                        assert(r@[k] == old_r[k]);
                        assert(hn[k] == hp[k]);
                    } else {
                        assert(hn[k] == i);
                    }
                }
            }
        } else {
            proof {
                assert(!line_hit(*matcher, next.last()));
                assert(hit_lines(*matcher, next) == hit_lines(*matcher, prev));
            }
        }
        i = i + 1;
    }
    assert(ls.subrange(0, n as int) =~= ls);
    r
}

/// What a match handler keeps while a search walks a text: the text's
/// lines, and a match with its context for each reported line.
pub struct GrepSink {
    pub matches: Vec<GrepMatch>,
    pub lines: Vec<String>,
    pub context_lines: usize,
}

impl GrepSink {
    /// A handler for `content`, with no match yet.
    pub fn new(content: String, context_lines: usize) -> (r: Self)
        ensures
            strings_bytes(r.lines@) == text_lines(string_bytes(content)),
            r.matches@.len() == 0,
            r.context_lines == context_lines,
    {
        let parts = split_lines(as_str(&content));
        let mut lines: Vec<String> = Vec::new();
        let mut k: usize = 0;
        while k < parts.len()
            invariant
                k <= parts@.len(),
                strings_bytes(lines@) == strs_bytes(parts@).subrange(0, k as int),
            decreases parts@.len() - k,
        {
            let line = to_owned_string(parts[k]);
            let ghost before = lines@;
            lines.push(line);
            proof {
                assert(strings_bytes(lines@) =~= strings_bytes(before).push(string_bytes(line)));
                assert(strs_bytes(parts@).subrange(0, k + 1) =~= strs_bytes(parts@).subrange(0, k as int).push(
                    parts@[k as int].spec_bytes(),
                ));
            }
            k = k + 1;
        }
        assert(strs_bytes(parts@).subrange(0, parts@.len() as int) =~= strs_bytes(parts@));
        GrepSink { matches: Vec::new(), lines, context_lines }
    }

    /// Whether a reported 1-based line number can be handled: it is at
    /// least 1, the window's end fits in a `usize`, and the window does
    /// not start past the last line.
    pub open spec fn accepts(&self, n: u64) -> bool {
        &&& n >= 1
        &&& n + self.context_lines <= usize::MAX
        &&& saturating_sub(n - 1, self.context_lines as int) <= self.lines@.len()
    }

    /// Handles a matching line that the search reports by its 1-based
    /// number: records it with the lines around it. A report without a
    /// number is skipped. The search always goes on.
    pub fn matched(&mut self, line_number: Option<u64>) -> (r: bool)
        requires
            line_number matches Some(n) ==> old(self).accepts(n),
        ensures
            r,
            final(self).lines == old(self).lines,
            final(self).context_lines == old(self).context_lines,
            match line_number {
                None => final(self).matches@ == old(self).matches@,
                Some(n) => {
                    &&& final(self).matches@.len() == old(self).matches@.len() + 1
                    &&& final(self).matches@.subrange(0, old(self).matches@.len() as int) == old(self).matches@
                    &&& final(self).matches@.last().line_number == n
                    &&& string_bytes(final(self).matches@.last().context) == context_window(
                        strings_bytes(old(self).lines@),
                        n - 1,
                        old(self).context_lines as int,
                        old(self).context_lines as int,
                    )
                },
            },
    {
        let n = match line_number {
            Some(n) => n,
            None => {
                return true;
            },
        };
        let line = (n - 1) as usize;
        let start = if line >= self.context_lines { line - self.context_lines } else { 0 };
        let end = if line + self.context_lines + 1 <= self.lines.len() {
            line + self.context_lines + 1
        } else {
            self.lines.len()
        };
        let context = join_string_range(self.lines.as_slice(), start, end);
        self.matches.push(GrepMatch { line_number: n as usize, context });
        proof {
            assert(strings_bytes(self.lines@).len() == self.lines@.len());
        }
        true
    }
}

/// A search of `content` that hands each matching line, by its 1-based
/// number, to a `GrepSink` keeping `context_lines` lines on each side; the
/// matches that the sink recorded.
pub fn grep_with_sink(content: String, matcher: &LineMatcher, context_lines: usize) -> (r: Vec<GrepMatch>)
    requires
        text_lines(string_bytes(content)).len() + context_lines < usize::MAX,
    ensures
        reports_hits(
            r@,
            *matcher,
            text_lines(string_bytes(content)),
            context_lines as int,
            context_lines as int,
        ),
{
    let ghost ls = text_lines(string_bytes(content));
    let ghost c = context_lines as int;
    let mut sink = GrepSink::new(content, context_lines);
    let n = sink.lines.len();
    let ghost lines0 = sink.lines;
    assert(strings_bytes(sink.lines@).len() == sink.lines@.len());
    let mut i: usize = 0;
    assert(ls.subrange(0, 0) =~= Seq::<Seq<u8>>::empty());
    while i < n
        invariant
            sink.lines == lines0,
            strings_bytes(lines0@) == ls,
            n == lines0@.len(),
            sink.context_lines == context_lines,
            c == context_lines,
            ls.len() + context_lines < usize::MAX,
            i <= n,
            sink.matches@.len() == hit_lines(*matcher, ls.subrange(0, i as int)).len(),
            forall|k: int|
                0 <= k < sink.matches@.len() ==> #[trigger] sink.matches@[k].line_number == hit_lines(
                    *matcher,
                    ls.subrange(0, i as int),
                )[k] + 1,
            forall|k: int|
                0 <= k < sink.matches@.len() ==> string_bytes(#[trigger] sink.matches@[k].context)
                    == context_window(ls, hit_lines(*matcher, ls.subrange(0, i as int))[k], c, c),
        decreases n - i,
    {
        let ghost prev = ls.subrange(0, i as int);
        let ghost next = ls.subrange(0, i + 1);
        assert(next.drop_last() =~= prev);
        assert(next.last() == ls[i as int]);
        assert(string_bytes(lines0@[i as int]) == ls[i as int]);
        let ghost old_m = sink.matches@;
        let line = as_str(&sink.lines[i]);
        proof {
            encode_utf8_decode_utf8(line@);
        }
        if matcher.is_match(line) {
            let number = (i + 1) as u64;
            assert(number == i + 1);
            sink.matched(Some(number));
            proof {
                let hn = hit_lines(*matcher, next);
                let hp = hit_lines(*matcher, prev);
                assert(line_hit(*matcher, next.last()));
                assert(hn == hp.push(i as int));
                let m = sink.matches@;
                assert forall|k: int| #![trigger m[k]] 0 <= k < m.len() implies m[k].line_number == hn[k] + 1
                    && string_bytes(m[k].context) == context_window(ls, hn[k], c, c) by {
                    if k < old_m.len() {
                        assert(m[k] == m.subrange(0, old_m.len() as int)[k]);
                        assert(old_m[k].line_number == hp[k] + 1);
                        assert(string_bytes(old_m[k].context) == context_window(ls, hp[k], c, c));
                        assert(hn[k] == hp[k]);
                    } else {
                        assert(hn[k] == i);
                    }
                }
            }
        } else {
            proof {
                let hn = hit_lines(*matcher, next);
                let hp = hit_lines(*matcher, prev);
                assert(!line_hit(*matcher, next.last()));
                assert(hn == hp);
                let m = sink.matches@;
                assert forall|k: int| #![trigger m[k]] 0 <= k < m.len() implies m[k].line_number == hn[k] + 1
                    && string_bytes(m[k].context) == context_window(ls, hn[k], c, c) by {
                    assert(m[k].line_number == hp[k] + 1);
                    assert(string_bytes(m[k].context) == context_window(ls, hp[k], c, c));
                }
            }
        }
        i = i + 1;
    }
    assert(ls.subrange(0, n as int) =~= ls);
    sink.matches
}

} // verus!
