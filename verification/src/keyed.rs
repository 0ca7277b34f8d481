//! A table from text keys to values, each key at most once: the lookups
//! that sessions and the session store make by path and by id.

use vstd::prelude::*;
use vstd::string::*;
use vstd::utf8::*;
use crate::strbuf::{str_eq, as_str};

verus! {

broadcast use vstd::utf8::group_utf8_lib;

/// No key occurs twice among the entries.
pub open spec fn keys_unique<V>(s: Seq<(String, V)>) -> bool {
    forall|i: int, j: int| 0 <= i < j < s.len() ==> (#[trigger] s[i]).0@ != (#[trigger] s[j]).0@
}

/// Whether some entry has key `k`.
pub open spec fn has_key<V>(s: Seq<(String, V)>, k: Seq<char>) -> bool {
    exists|i: int| 0 <= i < s.len() && (#[trigger] s[i]).0@ == k
}

/// The map that the entries stand for.
pub open spec fn entries_map<V>(s: Seq<(String, V)>) -> Map<Seq<char>, V> {
    Map::new(
        |k: Seq<char>| has_key(s, k),
        |k: Seq<char>| s[choose|i: int| 0 <= i < s.len() && (#[trigger] s[i]).0@ == k].1,
    )
}

/// With unique keys, the entry at `i` is what the map holds for its key.
proof fn lemma_entry_in_map<V>(s: Seq<(String, V)>, i: int)
    requires
        keys_unique(s),
        0 <= i < s.len(),
    ensures
        entries_map(s).contains_key(s[i].0@),
        entries_map(s)[s[i].0@] == s[i].1,
{
    let k = s[i].0@;
    assert(has_key(s, k));
    let j = choose|j: int| 0 <= j < s.len() && (#[trigger] s[j]).0@ == k;
    if j != i {
        if j < i {
            assert(s[j].0@ != s[i].0@);
        } else {
            assert(s[i].0@ != s[j].0@);
        }
    }
}

/// Giving the entry at `i` another value keeps the keys unique and gives
/// its key that value.
proof fn lemma_update_value<V>(s: Seq<(String, V)>, i: int, v: V)
    requires
        keys_unique(s),
        0 <= i < s.len(),
    ensures
        keys_unique(s.update(i, (s[i].0, v))),
        entries_map(s.update(i, (s[i].0, v))) == entries_map(s).insert(s[i].0@, v),
{
    let t = s.update(i, (s[i].0, v));
    assert forall|a: int, b: int| 0 <= a < b < t.len() implies (#[trigger] t[a]).0@ != (#[trigger] t[b]).0@ by {
        assert(t[a].0 == s[a].0 && t[b].0 == s[b].0);
    }
    assert forall|k: Seq<char>| #[trigger] has_key(t, k) == has_key(s, k) by {
        if has_key(t, k) {
            let j = choose|j: int| 0 <= j < t.len() && (#[trigger] t[j]).0@ == k;
            assert(s[j].0 == t[j].0);
        }
        if has_key(s, k) {
            let j = choose|j: int| 0 <= j < s.len() && (#[trigger] s[j]).0@ == k;
            assert(s[j].0 == t[j].0);
        }
    }
    lemma_entry_in_map(s, i);
    assert forall|k: Seq<char>| #[trigger] has_key(t, k) implies entries_map(t)[k] == entries_map(s).insert(s[i].0@, v)[k] by {
        let j = choose|j: int| 0 <= j < t.len() && (#[trigger] t[j]).0@ == k;
        lemma_entry_in_map(t, j);
        if j != i {
            assert(t[j] == s[j]);
            lemma_entry_in_map(s, j);
        }
    }
    assert(entries_map(t) =~= entries_map(s).insert(s[i].0@, v));
}

/// Two strings with the same bytes hold the same text.
proof fn lemma_same_bytes_same_text(a: Seq<char>, b: Seq<char>)
    requires
        encode_utf8(a) == encode_utf8(b),
    ensures
        a == b,
{
    encode_utf8_decode_utf8(a);
    encode_utf8_decode_utf8(b);
}

/// A table from text keys to values in which each key occurs at most once.
#[derive(Debug, Clone)]
pub struct KeyedTable<V> {
    entries: Vec<(String, V)>,
}

impl<V> KeyedTable<V> {
    /// The map from keys to values that the table holds.
    pub closed spec fn map(&self) -> Map<Seq<char>, V> {
        entries_map(self.entries@)
    }

    /// The table is well formed: no key occurs twice.
    pub closed spec fn wf(&self) -> bool {
        keys_unique(self.entries@)
    }

    /// The keys, in the table's order.
    pub closed spec fn key_seq(&self) -> Seq<Seq<char>> {
        self.entries@.map_values(|e: (String, V)| e.0@)
    }

    /// An empty table.
    pub fn new() -> (r: Self)
        ensures
            r.wf(),
            r.map() =~= Map::<Seq<char>, V>::empty(),
    {
        KeyedTable { entries: Vec::new() }
    }

    /// The position of the entry with key `key`, if there is one.
    fn find(&self, key: &str) -> (r: Option<usize>)
        requires
            self.wf(),
        ensures
            match r {
                Some(i) => i < self.entries@.len() && self.entries@[i as int].0@ == key@,
                None => !has_key(self.entries@, key@),
            },
    {
        let mut i: usize = 0;
        while i < self.entries.len()
            invariant
                i <= self.entries@.len(),
                forall|j: int| 0 <= j < i ==> (#[trigger] self.entries@[j]).0@ != key@,
            decreases self.entries@.len() - i,
        {
            if str_eq(as_str(&self.entries[i].0), key) {
                proof {
                    lemma_same_bytes_same_text(self.entries@[i as int].0@, key@);
                }
                return Some(i);
            }
            i = i + 1;
        }
        None
    }

    /// Whether `key` has a value.
    pub fn contains_key(&self, key: &str) -> (r: bool)
        requires
            self.wf(),
        ensures
            r == self.map().contains_key(key@),
    {
        self.find(key).is_some()
    }

    /// The value of `key`, if it has one.
    pub fn get(&self, key: &str) -> (r: Option<&V>)
        requires
            self.wf(),
        ensures
            match r {
                Some(v) => self.map().contains_key(key@) && self.map()[key@] == *v,
                None => !self.map().contains_key(key@),
            },
    {
        match self.find(key) {
            Some(i) => {
                proof {
                    lemma_entry_in_map(self.entries@, i as int);
                }
                Some(&self.entries[i].1)
            },
            None => None,
        }
    }

    /// The keys, in the table's order.
    pub fn keys(&self) -> (r: Vec<String>)
        ensures
            r@.map_values(|k: String| k@) == self.key_seq(),
    {
        let mut r: Vec<String> = Vec::new();
        let mut i: usize = 0;
        while i < self.entries.len()
            invariant
                i <= self.entries@.len(),
                r@.map_values(|k: String| k@) == self.key_seq().subrange(0, i as int),
            decreases self.entries@.len() - i,
        {
            let ghost before = r@;
            r.push(self.entries[i].0.clone());
            proof {
                assert(r@.map_values(|k: String| k@) =~= before.map_values(|k: String| k@).push(self.entries@[i as int].0@));
                assert(self.key_seq().subrange(0, i + 1) =~= self.key_seq().subrange(0, i as int).push(self.key_seq()[i as int]));
            }
            i = i + 1;
        }
        assert(self.key_seq().subrange(0, self.entries@.len() as int) =~= self.key_seq());
        r
    }

    /// A mutable borrow of the value of `key`, if it has one; what is written
    /// through it becomes the key's value.
    pub fn get_mut(&mut self, key: &str) -> (r: Option<&mut V>)
        requires
            old(self).wf(),
        ensures
            match r {
                Some(v) => {
                    &&& old(self).map().contains_key(key@)
                    &&& *v == old(self).map()[key@]
                    &&& final(self).wf()
                    &&& final(self).map() == old(self).map().insert(key@, *final(v))
                },
                None => !old(self).map().contains_key(key@) && *final(self) == *old(self),
            },
    {
        match self.find(key) {
            Some(i) => {
                proof {
                    lemma_entry_in_map(self.entries@, i as int);
                }
                let ghost old_entries = self.entries@;
                let v = &mut self.entries[i].1;
                proof {
                    lemma_update_value(old_entries, i as int, *final(v));
                }
                Some(v)
            },
            None => None,
        }
    }

    /// Gives `key` the value `value`, replacing any value it had.
    pub fn insert(&mut self, key: String, value: V)
        requires
            old(self).wf(),
        ensures
            final(self).wf(),
            final(self).map() == old(self).map().insert(key@, value),
    {
        let ghost old_entries = self.entries@;
        match self.find(as_str(&key)) {
            Some(i) => {
                self.entries.set(i, (key, value));
                proof {
                    let s = self.entries@;
                    assert forall|a: int, b: int| 0 <= a < b < s.len() implies (#[trigger] s[a]).0@ != (
                    #[trigger] s[b]).0@ by {
                        assert(old_entries[a].0@ != old_entries[b].0@);
                        if a == i {
                            assert(old_entries[i as int].0@ == s[a].0@);
                        }
                        if b == i {
                            assert(old_entries[i as int].0@ == s[b].0@);
                        }
                    }
                    assert forall|k: Seq<char>| #[trigger] has_key(s, k) == (has_key(old_entries, k) || k == key@) by {
                        if has_key(s, k) {
                            let j = choose|j: int| 0 <= j < s.len() && (#[trigger] s[j]).0@ == k;
                            if j != i {
                                assert(old_entries[j] == s[j]);
                            }
                        }
                        if has_key(old_entries, k) {
                            let j = choose|j: int| 0 <= j < old_entries.len() && (#[trigger] old_entries[j]).0@ == k;
                            if j == i {
                                assert(s[j].0@ == k);
                            } else {
                                assert(s[j] == old_entries[j]);
                            }
                        }
                        if k == key@ {
                            assert(s[i as int].0@ == k);
                        }
                    }
                    assert forall|k: Seq<char>| #[trigger] has_key(s, k) implies entries_map(s)[k] == old(self).map().insert(key@, value)[k] by {
                        let j = choose|j: int| 0 <= j < s.len() && (#[trigger] s[j]).0@ == k;
                        lemma_entry_in_map(s, j);
                        if j != i {
                            assert(s[j] == old_entries[j]);
                            lemma_entry_in_map(old_entries, j);
                        }
                    }
                    assert(entries_map(s) =~= old(self).map().insert(key@, value));
                }
            },
            None => {
                let ghost k0 = key@;
                self.entries.push((key, value));
                proof {
                    let s = self.entries@;
                    assert forall|a: int, b: int| 0 <= a < b < s.len() implies (#[trigger] s[a]).0@ != (
                    #[trigger] s[b]).0@ by {
                        if b == s.len() - 1 {
                            assert(s[a] == old_entries[a]);
                        } else {
                            assert(s[a] == old_entries[a] && s[b] == old_entries[b]);
                        }
                    }
                    assert forall|k: Seq<char>| #[trigger] has_key(s, k) == (has_key(old_entries, k) || k == k0) by {
                        if has_key(s, k) {
                            let j = choose|j: int| 0 <= j < s.len() && (#[trigger] s[j]).0@ == k;
                            if j < old_entries.len() {
                                assert(old_entries[j] == s[j]);
                            }
                        }
                        if has_key(old_entries, k) {
                            let j = choose|j: int| 0 <= j < old_entries.len() && (#[trigger] old_entries[j]).0@ == k;
                            assert(s[j] == old_entries[j]);
                        }
                        if k == k0 {
                            assert(s[s.len() - 1].0@ == k);
                        }
                    }
                    assert forall|k: Seq<char>| #[trigger] has_key(s, k) implies entries_map(s)[k] == old(self).map().insert(k0, value)[k] by {
                        let j = choose|j: int| 0 <= j < s.len() && (#[trigger] s[j]).0@ == k;
                        lemma_entry_in_map(s, j);
                        if j < old_entries.len() {
                            assert(s[j] == old_entries[j]);
                            lemma_entry_in_map(old_entries, j);
                        }
                    }
                    assert(entries_map(s) =~= old(self).map().insert(k0, value));
                }
            },
        }
    }

    /// Takes away `key` and its value, if it has one.
    pub fn remove(&mut self, key: &str)
        requires
            old(self).wf(),
        ensures
            final(self).wf(),
            final(self).map() == old(self).map().remove(key@),
    {
        let ghost old_entries = self.entries@;
        match self.find(key) {
            Some(i) => {
                self.entries.remove(i);
                proof {
                    let s = self.entries@;
                    assert(s == old_entries.remove(i as int));
                    assert forall|a: int| 0 <= a < s.len() implies #[trigger] s[a] == old_entries[if a < i { a } else { a + 1 }] by {}
                    assert forall|a: int, b: int| 0 <= a < b < s.len() implies (#[trigger] s[a]).0@ != (
                    #[trigger] s[b]).0@ by {
                        let a2 = if a < i { a } else { a + 1 };
                        let b2 = if b < i { b } else { b + 1 };
                        assert(s[a] == old_entries[a2] && s[b] == old_entries[b2]);
                        assert(old_entries[a2].0@ != old_entries[b2].0@);
                    }
                    assert forall|k: Seq<char>| #[trigger] has_key(s, k) == (has_key(old_entries, k) && k != key@) by {
                        if has_key(s, k) {
                            let j = choose|j: int| 0 <= j < s.len() && (#[trigger] s[j]).0@ == k;
                            let j2 = if j < i { j } else { j + 1 };
                            assert(s[j] == old_entries[j2]);
                            assert(old_entries[j2].0@ != old_entries[i as int].0@);
                        }
                        if has_key(old_entries, k) && k != key@ {
                            let j = choose|j: int| 0 <= j < old_entries.len() && (#[trigger] old_entries[j]).0@ == k;
                            assert(j != i);
                            let j2 = if j < i { j } else { j - 1 };
                            assert(s[j2] == old_entries[j]);
                        }
                    }
                    assert forall|k: Seq<char>| #[trigger] has_key(s, k) implies entries_map(s)[k] == old(self).map()[k] by {
                        let j = choose|j: int| 0 <= j < s.len() && (#[trigger] s[j]).0@ == k;
                        lemma_entry_in_map(s, j);
                        let j2 = if j < i { j } else { j + 1 };
                        assert(s[j] == old_entries[j2]);
                        lemma_entry_in_map(old_entries, j2);
                    }
                    assert(entries_map(s) =~= old(self).map().remove(key@));
                }
            },
            None => {
                assert(old(self).map().remove(key@) =~= old(self).map());
            },
        }
    }

    /// Whether the table has no entry.
    pub fn is_empty(&self) -> (r: bool)
        requires
            self.wf(),
        ensures
            r == (self.map().dom() =~= Set::<Seq<char>>::empty()),
    {
        proof {
            if self.entries@.len() > 0 {
                lemma_entry_in_map(self.entries@, 0);
            }
        }
        self.entries.len() == 0
    }
}

} // verus!
