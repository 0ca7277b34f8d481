//! Paths as sequences of components, and the check that a path lies under
//! one of a set of allowed directories.
//!
//! A path is split as `std::path::Path::components` splits a Unix path: a
//! leading `/` is the root component, a leading `.` (alone or before a `/`)
//! is the current-directory component, and after that empty segments and
//! `.` segments are dropped. Components are stated by their bytes: the root
//! as `/`, the current directory as `.`, every other component as itself.

use vstd::prelude::*;
use vstd::string::*;
use vstd::utf8::*;
use crate::text::substr;
use crate::strbuf::{string_bytes, as_str};
use crate::utf8_text::lemma_ascii_boundaries;

verus! {

broadcast use vstd::utf8::group_utf8_lib;

/// Byte value of `/`.
pub const SLASH: u8 = 47;

/// Byte value of `.`.
pub const DOT: u8 = 46;

/// Offset of the first `/` at or after `i`, or the length of `b` when there is none.
pub open spec fn next_slash(b: Seq<u8>, i: nat) -> nat
    decreases b.len() - i,
{
    if i >= b.len() {
        b.len()
    } else if b[i as int] == SLASH {
        i
    } else {
        next_slash(b, i + 1)
    }
}

pub proof fn lemma_next_slash(b: Seq<u8>, i: nat)
    ensures
        i <= b.len() ==> i <= next_slash(b, i) <= b.len(),
        i > b.len() ==> next_slash(b, i) == b.len(),
        next_slash(b, i) < b.len() ==> b[next_slash(b, i) as int] == SLASH,
        forall|k: int| i <= k < next_slash(b, i) ==> b[k] != SLASH,
    decreases b.len() - i,
{
    if i < b.len() && b[i as int] != SLASH {
        lemma_next_slash(b, i + 1);
    }
}

/// A segment between separators that names nothing: empty, or `.`.
pub open spec fn is_skipped_segment(seg: Seq<u8>) -> bool {
    seg.len() == 0 || seg == seq![DOT]
}

/// The named segments of `b` from offset `i` on: the pieces between `/`
/// separators, without empty and `.` pieces.
pub open spec fn named_segments(b: Seq<u8>, i: nat) -> Seq<Seq<u8>>
    decreases b.len() - i,
{
    if i >= b.len() {
        seq![]
    } else {
        proof {
            lemma_next_slash(b, i);
        }
        let j = next_slash(b, i);
        let seg = b.subrange(i as int, j as int);
        let rest = if j < b.len() {
            named_segments(b, j + 1)
        } else {
            seq![]
        };
        if is_skipped_segment(seg) {
            rest
        } else {
            seq![seg] + rest
        }
    }
}

/// Whether a path starts with the current-directory component: `.` alone
/// or followed by `/`.
pub open spec fn starts_with_cur_dir(b: Seq<u8>) -> bool {
    b.len() > 0 && b[0] == DOT && (b.len() == 1 || b[1] == SLASH)
}

/// The components of a path, given by its bytes.
pub open spec fn path_components(b: Seq<u8>) -> Seq<Seq<u8>> {
    if b.len() > 0 && b[0] == SLASH {
        seq![seq![SLASH]] + named_segments(b, 0)
    } else if starts_with_cur_dir(b) {
        seq![seq![DOT]] + named_segments(b, 0)
    } else {
        named_segments(b, 0)
    }
}

/// `base`'s components are the first components of `path`: `Path::starts_with`.
pub open spec fn components_prefix(path: Seq<Seq<u8>>, base: Seq<Seq<u8>>) -> bool {
    base.len() <= path.len() && path.subrange(0, base.len() as int) == base
}

/// The named segments of `s` from offset `i` on, as slices of `s`.
fn named_segments_exec(s: &str, i: usize) -> (r: Vec<&str>)
    requires
        i == 0 || (i <= s.spec_bytes().len() && s.spec_bytes()[i - 1] == SLASH),
    ensures
        r@.map_values(|c: &str| c.spec_bytes()) == named_segments(s.spec_bytes(), i as nat),
{
    let b = s.as_bytes();
    let n = b.len();
    let mut r: Vec<&str> = Vec::new();
    let mut i = i;
    let ghost start = i;
    assert(named_segments(b@, i as nat) == r@.map_values(|c: &str| c.spec_bytes()) + named_segments(b@, i as nat));
    while i < n
        invariant
            n == b@.len(),
            b@ == s.spec_bytes(),
            valid_utf8(b@),
            i <= n,
            i == 0 || b@[i - 1] == SLASH || i == n,
            named_segments(b@, start as nat) == r@.map_values(|c: &str| c.spec_bytes()) + named_segments(b@, i as nat),
        decreases n - i,
    {
        let mut j = i;
        while j < n && b[j] != SLASH
            invariant
                n == b@.len(),
                i <= j <= n,
                next_slash(b@, i as nat) == next_slash(b@, j as nat),
            decreases n - j,
        {
            j = j + 1;
        }
        proof {
            lemma_next_slash(b@, i as nat);
        }
        let ghost old_i = i;
        let ghost old_r = r@;
        let skipped = j == i || (j == i + 1 && b[i] == DOT);
        proof {
            let seg = b@.subrange(i as int, j as int);
            if j == i + 1 {
                if b@[i as int] == DOT {
                    assert(seg =~= seq![DOT]);
                } else {
                    assert(seg[0] != seq![DOT][0]);
                }
            } else if j > i + 1 {
                assert(seg.len() != seq![DOT].len());
            }
            assert(skipped == is_skipped_segment(seg));
        }
        if !skipped {
            proof {
                if i > 0 {
                    lemma_ascii_boundaries(b@, i - 1);
                }
                if j == n {
                    is_char_boundary_start_end_of_seq(b@);
                } else {
                    lemma_ascii_boundaries(b@, j as int);
                }
            }
            let seg = substr(s, i, j);
            r.push(seg);
            proof {
                assert(r@.map_values(|c: &str| c.spec_bytes()) =~= old_r.map_values(|c: &str| c.spec_bytes()).push(seg.spec_bytes()));
            }
        }
        if j < n {
            i = j + 1;
        } else {
            i = n;
        }
        proof {
            if j < n {
                assert(named_segments(b@, i as nat) == named_segments(b@, (j + 1) as nat));
            } else {
                assert(named_segments(b@, i as nat) =~= Seq::<Seq<u8>>::empty());
            }
            if skipped {
                assert(r@ == old_r);
            }
            assert(named_segments(b@, start as nat) =~= r@.map_values(|c: &str| c.spec_bytes()) + named_segments(b@, i as nat));
        }
    }
    assert(named_segments(b@, i as nat) =~= Seq::<Seq<u8>>::empty());
    assert(r@.map_values(|c: &str| c.spec_bytes()) =~= named_segments(b@, start as nat));
    r
}

/// A resolved path lies under a resolved directory; an unresolved one holds nothing.
pub open spec fn resolved_under(path: Seq<u8>, dir: Option<String>) -> bool {
    match dir {
        Some(d) => components_prefix(path_components(path), path_components(string_bytes(d))),
        None => false,
    }
}

/// The components of a path, as slices of it.
pub fn components(s: &str) -> (r: Vec<&str>)
    ensures
        r@.map_values(|c: &str| c.spec_bytes()) == path_components(s.spec_bytes()),
{
    let b = s.as_bytes();
    let n = b.len();
    let rest = named_segments_exec(s, 0);
    if n > 0 && (b[0] == SLASH || (b[0] == DOT && (n == 1 || b[1] == SLASH))) {
        proof {
            lemma_ascii_boundaries(b@, 0);
        }
        let first = substr(s, 0, 1);
        assert(first.spec_bytes() =~= seq![b@[0]]);
        let mut r: Vec<&str> = Vec::new();
        r.push(first);
        let mut k: usize = 0;
        while k < rest.len()
            invariant
                n == b@.len(),
                n > 0,
                k <= rest@.len(),
                r@.len() == k + 1,
                r@[0].spec_bytes() == seq![b@[0]],
                forall|t: int| 1 <= t <= k ==> #[trigger] r@[t] == rest@[t - 1],
            decreases rest@.len() - k,
        {
            r.push(rest[k]);
            k = k + 1;
        }
        assert(r@.map_values(|c: &str| c.spec_bytes()) =~= seq![seq![b@[0]]] + rest@.map_values(|c: &str| c.spec_bytes()));
        r
    } else {
        rest
    }
}

/// The bytes of two strings are equal.
fn bytes_equal(a: &[u8], b: &[u8]) -> (r: bool)
    ensures
        r == (a@ == b@),
{
    if a.len() != b.len() {
        return false;
    }
    let mut i: usize = 0;
    while i < a.len()
        invariant
            a@.len() == b@.len(),
            i <= a@.len(),
            forall|k: int| 0 <= k < i ==> a@[k] == b@[k],
        decreases a@.len() - i,
    {
        if a[i] != b[i] {
            return false;
        }
        i = i + 1;
    }
    assert(a@ =~= b@);
    true
}

/// Whether the components of `base` are the first components of `path`.
pub fn starts_with(path: &str, base: &str) -> (r: bool)
    ensures
        r == components_prefix(path_components(path.spec_bytes()), path_components(base.spec_bytes())),
{
    let pc = components(path);
    let bc = components(base);
    let ghost p = path_components(path.spec_bytes());
    let ghost q = path_components(base.spec_bytes());
    assert(p.len() == pc@.len());
    assert(q.len() == bc@.len());
    if bc.len() > pc.len() {
        return false;
    }
    let mut k: usize = 0;
    while k < bc.len()
        invariant
            bc@.len() <= pc@.len(),
            p == path_components(path.spec_bytes()),
            q == path_components(base.spec_bytes()),
            pc@.map_values(|c: &str| c.spec_bytes()) == p,
            bc@.map_values(|c: &str| c.spec_bytes()) == q,
            k <= bc@.len(),
            forall|t: int| 0 <= t < k ==> p[t] == q[t],
        decreases bc@.len() - k,
    {
        if !bytes_equal(pc[k].as_bytes(), bc[k].as_bytes()) {
            assert(p[k as int] != q[k as int]);
            assert(p.subrange(0, q.len() as int)[k as int] != q[k as int]);
            return false;
        }
        k = k + 1;
    }
    assert(p.subrange(0, q.len() as int) =~= q);
    true
}

/// The bytes of the name `..`.
pub open spec fn parent_dir_name() -> Seq<u8> {
    seq![DOT, DOT]
}

/// The last component of a path when it is a name (`Path::file_name`): not
/// the root, the current directory or `..`.
pub open spec fn file_name_of(b: Seq<u8>) -> Option<Seq<u8>> {
    let cs = path_components(b);
    if cs.len() == 0 {
        None
    } else {
        let last = cs.last();
        if last == seq![SLASH] || last == seq![DOT] || last == parent_dir_name() {
            None
        } else {
            Some(last)
        }
    }
}

/// The final name of a path, as `Path::file_name` gives it.
pub fn file_name(path: &str) -> (r: Option<&str>)
    ensures
        match r {
            Some(n) => file_name_of(path.spec_bytes()) == Some(n.spec_bytes()),
            None => file_name_of(path.spec_bytes()) is None,
        },
{
    let cs = components(path);
    let ghost p = path_components(path.spec_bytes());
    assert(p.len() == cs@.len());
    if cs.len() == 0 {
        return None;
    }
    let last = cs[cs.len() - 1];
    let b = last.as_bytes();
    assert(b@ == p.last());
    let special = (b.len() == 1 && (b[0] == SLASH || b[0] == DOT)) || (b.len() == 2 && b[0] == DOT
        && b[1] == DOT);
    proof {
        if b@.len() == 1 {
            if b@[0] == SLASH {
                assert(b@ =~= seq![SLASH]);
            } else if b@[0] == DOT {
                assert(b@ =~= seq![DOT]);
            } else {
                assert(b@[0] != seq![SLASH][0] && b@[0] != seq![DOT][0]);
            }
            assert(b@.len() != parent_dir_name().len());
        } else if b@.len() == 2 {
            if b@[0] == DOT && b@[1] == DOT {
                assert(b@ =~= parent_dir_name());
            } else {
                assert(b@[0] != parent_dir_name()[0] || b@[1] != parent_dir_name()[1]);
            }
            assert(b@.len() != seq![SLASH].len() && b@.len() != seq![DOT].len());
        } else {
            assert(b@.len() != seq![SLASH].len() && b@.len() != seq![DOT].len());
            assert(b@.len() != parent_dir_name().len());
        }
    }
    if special {
        None
    } else {
        Some(last)
    }
}

/// Checks paths against a fixed list of allowed directories.
pub struct PathValidator {
    allowed_dirs: Vec<String>,
}

impl PathValidator {
    /// The allowed directories.
    pub closed spec fn allowed(&self) -> Seq<String> {
        self.allowed_dirs@
    }

    /// Whether `path` lies under one of the allowed directories, by components.
    pub open spec fn under_allowed(&self, path: Seq<u8>) -> bool {
        exists|k: int|
            0 <= k < self.allowed().len() && #[trigger] components_prefix(
                path_components(path),
                path_components(string_bytes(self.allowed()[k])),
            )
    }

    pub fn new(allowed_dirs: Vec<String>) -> (r: Self)
        ensures
            r.allowed() == allowed_dirs@,
    {
        PathValidator { allowed_dirs }
    }

    pub fn get_allowed_dirs(&self) -> (r: Vec<String>)
        ensures
            r@ == self.allowed(),
    {
        let mut r: Vec<String> = Vec::new();
        let mut k: usize = 0;
        while k < self.allowed_dirs.len()
            invariant
                k <= self.allowed_dirs@.len(),
                r@ == self.allowed_dirs@.subrange(0, k as int),
            decreases self.allowed_dirs@.len() - k,
        {
            r.push(self.allowed_dirs[k].clone());
            k = k + 1;
        }
        r
    }

    /// Whether `path` lies under one of the allowed directories, comparing
    /// whole components (`/a/bc` is not under `/a/b`).
    pub fn is_under_allowed(&self, path: &str) -> (r: bool)
        ensures
            r == self.under_allowed(path.spec_bytes()),
    {
        let mut k: usize = 0;
        while k < self.allowed_dirs.len()
            invariant
                k <= self.allowed_dirs@.len(),
                forall|t: int| 0 <= t < k ==> !#[trigger] components_prefix(
                    path_components(path.spec_bytes()),
                    path_components(string_bytes(self.allowed()[t])),
                ),
            decreases self.allowed_dirs@.len() - k,
        {
            if starts_with(path, as_str(&self.allowed_dirs[k])) {
                assert(components_prefix(
                    path_components(path.spec_bytes()),
                    path_components(string_bytes(self.allowed()[k as int])),
                ));
                return true;
            }
            k = k + 1;
        }
        false
    }

    /// Whether `path` is allowed, given what the file system says of it: a
    /// path that does not exist is checked by its components; an existing
    /// one by its canonical form (`None` where it could not be resolved)
    /// against the canonical form of each allowed directory.
    pub open spec fn allowed_decision(
        &self,
        path: Seq<u8>,
        path_exists: bool,
        canonical_path: Option<String>,
        canonical_allowed: Seq<Option<String>>,
    ) -> bool {
        if !path_exists {
            self.under_allowed(path)
        } else {
            match canonical_path {
                None => false,
                Some(c) => exists|k: int|
                    0 <= k < canonical_allowed.len() && #[trigger] resolved_under(
                        string_bytes(c),
                        canonical_allowed[k],
                    ),
            }
        }
    }

    /// An allowed directory lies under itself.
    pub proof fn law_allowed_dir_under_itself(&self, k: int)
        requires
            0 <= k < self.allowed().len(),
        ensures
            self.under_allowed(string_bytes(self.allowed()[k])),
    {
        let c = path_components(string_bytes(self.allowed()[k]));
        assert(c.subrange(0, c.len() as int) =~= c);
        assert(components_prefix(c, c));
    }

    /// Checks `path` as `allowed_decision` says; `canonical_allowed` holds
    /// the canonical form of each allowed directory, in the same order.
    pub fn is_allowed(
        &self,
        path: &str,
        path_exists: bool,
        canonical_path: &Option<String>,
        canonical_allowed: &Vec<Option<String>>,
    ) -> (r: bool)
        requires
            canonical_allowed@.len() == self.allowed().len(),
        ensures
            r == self.allowed_decision(path.spec_bytes(), path_exists, *canonical_path, canonical_allowed@),
    {
        if !path_exists {
            return self.is_under_allowed(path);
        }
        match canonical_path {
            None => false,
            Some(c) => any_resolved_under(as_str(c), canonical_allowed),
        }
    }
}

/// Whether `path` lies under one of the resolved directories.
fn any_resolved_under(path: &str, dirs: &Vec<Option<String>>) -> (r: bool)
    ensures
        r == exists|k: int| 0 <= k < dirs@.len() && #[trigger] resolved_under(path.spec_bytes(), dirs@[k]),
{
    let mut k: usize = 0;
    while k < dirs.len()
        invariant
            k <= dirs@.len(),
            forall|t: int| 0 <= t < k ==> !#[trigger] resolved_under(path.spec_bytes(), dirs@[t]),
        decreases dirs@.len() - k,
    {
        match &dirs[k] {
            Some(a) => {
                if starts_with(path, as_str(a)) {
                    assert(resolved_under(path.spec_bytes(), dirs@[k as int]));
                    return true;
                }
            },
            None => {},
        }
        k = k + 1;
    }
    false
}

} // verus!
