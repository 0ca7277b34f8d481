//! Byte-wise search of one text inside another, as `str::find` and
//! `str::contains` do it for a string pattern.

use vstd::prelude::*;
use vstd::string::*;

verus! {

/// `needle` occurs in `hay` at offset `i`.
pub open spec fn occurs_at(hay: Seq<u8>, needle: Seq<u8>, i: int) -> bool {
    0 <= i && i + needle.len() <= hay.len() && hay.subrange(i, i + needle.len()) == needle
}

/// `needle` occurs somewhere in `hay`.
pub open spec fn contains_bytes(hay: Seq<u8>, needle: Seq<u8>) -> bool {
    exists|i: int| occurs_at(hay, needle, i)
}

/// The first offset at or after `from` at which `needle` occurs in `hay`.
pub open spec fn first_occurrence_from(hay: Seq<u8>, needle: Seq<u8>, from: int) -> Option<int>
    decreases hay.len() + 1 - from,
{
    if from < 0 || from > hay.len() {
        None
    } else if occurs_at(hay, needle, from) {
        Some(from)
    } else {
        first_occurrence_from(hay, needle, from + 1)
    }
}

pub proof fn lemma_first_occurrence_from(hay: Seq<u8>, needle: Seq<u8>, from: int)
    requires
        0 <= from,
    ensures
        match first_occurrence_from(hay, needle, from) {
            Some(i) => from <= i && occurs_at(hay, needle, i) && forall|k: int|
                from <= k < i ==> !occurs_at(hay, needle, k),
            None => forall|k: int| from <= k ==> !occurs_at(hay, needle, k),
        },
    decreases hay.len() + 1 - from,
{
    if from <= hay.len() && !occurs_at(hay, needle, from) {
        lemma_first_occurrence_from(hay, needle, from + 1);
    }
}

/// Whether `needle` occurs in `hay` at offset `i`.
pub fn occurs_at_exec(hay: &[u8], needle: &[u8], i: usize) -> (r: bool)
    ensures
        r == occurs_at(hay@, needle@, i as int),
{
    let hn = hay.len();
    if i > hn || needle.len() > hn - i {
        return false;
    }
    let mut k: usize = 0;
    while k < needle.len()
        invariant
            hn == hay@.len(),
            i + needle@.len() <= hay@.len(),
            k <= needle@.len(),
            forall|j: int| 0 <= j < k ==> hay@[i + j] == needle@[j],
        decreases needle@.len() - k,
    {
        if hay[i + k] != needle[k] {
            assert(hay@.subrange(i as int, i + needle@.len())[k as int] != needle@[k as int]);
            return false;
        }
        k = k + 1;
    }
    assert(hay@.subrange(i as int, i + needle@.len()) =~= needle@);
    true
}

/// The first offset at or after `from` at which `needle` occurs in `hay`.
pub fn find_bytes_from(hay: &[u8], needle: &[u8], from: usize) -> (r: Option<usize>)
    ensures
        r == (match first_occurrence_from(hay@, needle@, from as int) {
            Some(i) => Some(i as usize),
            None => None,
        }),
{
    let n = hay.len();
    if from > n {
        return None;
    }
    let mut i = from;
    while i <= n
        invariant
            from <= i <= n + 1,
            n == hay@.len(),
            first_occurrence_from(hay@, needle@, from as int) == first_occurrence_from(
                hay@,
                needle@,
                i as int,
            ),
        decreases n + 1 - i,
    {
        if occurs_at_exec(hay, needle, i) {
            return Some(i);
        }
        if i == n {
            assert(first_occurrence_from(hay@, needle@, (n + 1) as int) == None::<int>);
            return None;
        }
        i = i + 1;
    }
    None
}

/// Whether the text `needle` occurs in the text `hay` (`str::contains`).
pub fn str_contains(hay: &str, needle: &str) -> (r: bool)
    ensures
        r == contains_bytes(hay.spec_bytes(), needle.spec_bytes()),
{
    let found = find_bytes_from(hay.as_bytes(), needle.as_bytes(), 0);
    proof {
        lemma_first_occurrence_from(hay.spec_bytes(), needle.spec_bytes(), 0);
    }
    found.is_some()
}

} // verus!
