//! `StrMap`: a map from strings to strings, kept as a list of pairs in which
//! a later pair takes precedence over an earlier one with the same key.

use vstd::prelude::*;
use vstd::string::*;
use crate::text::str_eq;

verus! {

/// The map that a list of pairs denotes: each pair sets its key, later
/// pairs overriding earlier ones.
pub open spec fn pairs_map(s: Seq<(String, String)>) -> Map<Seq<char>, Seq<char>>
    decreases s.len(),
{
    if s.len() == 0 {
        Map::empty()
    } else {
        pairs_map(s.drop_last()).insert(s.last().0@, s.last().1@)
    }
}

/// The value of the last pair with key `k` is what the map holds for `k`.
pub proof fn lemma_pairs_map_last(s: Seq<(String, String)>, k: Seq<char>, j: int)
    requires
        0 <= j < s.len(),
        s[j].0@ == k,
        forall|l: int| j < l < s.len() ==> s[l].0@ != k,
    ensures
        pairs_map(s).contains_key(k),
        pairs_map(s)[k] == s[j].1@,
    decreases s.len(),
{
    if j < s.len() - 1 {
        lemma_pairs_map_last(s.drop_last(), k, j);
    }
}

/// A key that no pair carries is not in the map.
pub proof fn lemma_pairs_map_absent(s: Seq<(String, String)>, k: Seq<char>)
    requires
        forall|l: int| 0 <= l < s.len() ==> s[l].0@ != k,
    ensures
        !pairs_map(s).contains_key(k),
    decreases s.len(),
{
    if s.len() > 0 {
        lemma_pairs_map_absent(s.drop_last(), k);
    }
}

/// Overwriting the last pair with key `k` sets `k` in the map.
pub proof fn lemma_pairs_map_update(s: Seq<(String, String)>, j: int, p: (String, String))
    requires
        0 <= j < s.len(),
        s[j].0@ == p.0@,
        forall|l: int| j < l < s.len() ==> s[l].0@ != p.0@,
    ensures
        pairs_map(s.update(j, p)) == pairs_map(s).insert(p.0@, p.1@),
    decreases s.len(),
{
    let t = s.update(j, p);
    if j == s.len() - 1 {
        assert(t.drop_last() =~= s.drop_last());
        assert(pairs_map(t) =~= pairs_map(s).insert(p.0@, p.1@));
    } else {
        lemma_pairs_map_update(s.drop_last(), j, p);
        assert(t.drop_last() =~= s.drop_last().update(j, p));
        assert(pairs_map(t) =~= pairs_map(s).insert(p.0@, p.1@));
    }
}

/// The characters of each pair of strings.
pub open spec fn pairs_view(s: Seq<(String, String)>) -> Seq<(Seq<char>, Seq<char>)> {
    s.map_values(|p: (String, String)| (p.0@, p.1@))
}

/// A map from strings to strings.
pub struct StrMap {
    entries: Vec<(String, String)>,
}

impl View for StrMap {
    type V = Map<Seq<char>, Seq<char>>;

    closed spec fn view(&self) -> Map<Seq<char>, Seq<char>> {
        pairs_map(self.entries@)
    }
}

impl StrMap {
    /// The empty map.
    pub fn new() -> (r: Self)
        ensures
            r@ == Map::<Seq<char>, Seq<char>>::empty(),
    {
        StrMap { entries: Vec::new() }
    }

    /// The index of the last pair whose key is `key`.
    fn last_index_of(&self, key: &str) -> (r: Option<usize>)
        ensures
            match r {
                Some(j) => j < self.entries@.len() && self.entries@[j as int].0@ == key@
                    && forall|l: int| j < l < self.entries@.len() ==> self.entries@[l].0@ != key@,
                None => forall|l: int|
                    0 <= l < self.entries@.len() ==> self.entries@[l].0@ != key@,
            },
    {
        let mut i = self.entries.len();
        while i > 0
            invariant
                i <= self.entries@.len(),
                forall|l: int| i <= l < self.entries@.len() ==> self.entries@[l].0@ != key@,
            decreases i,
        {
            i = i - 1;
            if str_eq(self.entries[i].0.as_str(), key) {
                return Some(i);
            }
        }
        None
    }

    /// The value stored for `key`, if any.
    pub fn get(&self, key: &str) -> (r: Option<&str>)
        ensures
            r is Some <==> self@.contains_key(key@),
            r matches Some(v) ==> v@ == self@[key@],
    {
        match self.last_index_of(key) {
            Some(j) => {
                proof {
                    lemma_pairs_map_last(self.entries@, key@, j as int);
                }
                Some(self.entries[j].1.as_str())
            },
            None => {
                proof {
                    lemma_pairs_map_absent(self.entries@, key@);
                }
                None
            },
        }
    }

    /// Sets `key` to `value`, replacing any value it had.
    pub fn insert(&mut self, key: String, value: String)
        ensures
            final(self)@ == old(self)@.insert(key@, value@),
    {
        match self.last_index_of(key.as_str()) {
            Some(j) => {
                let ghost p = (key, value);
                proof {
                    lemma_pairs_map_update(self.entries@, j as int, p);
                }
                self.entries.set(j, (key, value));
            },
            None => {
                let ghost old_entries = self.entries@;
                self.entries.push((key, value));
                assert(self.entries@.drop_last() =~= old_entries);
            },
        }
    }
}

} // verus!
