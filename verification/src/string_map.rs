//! A map from strings to strings.

use vstd::prelude::*;

verus! {

/// The keys and values of a list of pairs.
pub open spec fn pair_texts(list: Seq<(String, String)>) -> Seq<(Seq<char>, Seq<char>)> {
    list.map_values(|e: (String, String)| (e.0@, e.1@))
}

/// Whether `list` holds every entry of `map` once, and nothing else.
pub open spec fn lists(list: Seq<(Seq<char>, Seq<char>)>, map: Map<Seq<char>, Seq<char>>) -> bool {
    &&& forall|i: int, j: int|
        #![trigger list[i], list[j]]
        0 <= i < j < list.len() ==> list[i].0 != list[j].0
    &&& forall|i: int|
        0 <= i < list.len() ==> map.contains_key((#[trigger] list[i]).0) && map[list[i].0]
            == list[i].1
    &&& forall|k: Seq<char>| #[trigger]
        map.contains_key(k) ==> exists|i: int| 0 <= i < list.len() && (#[trigger] list[i]).0 == k
}

spec fn distinct_keys(s: Seq<(Seq<char>, Seq<char>)>) -> bool {
    forall|i: int, j: int|
        #![trigger s[i], s[j]]
        0 <= i < j < s.len() ==> s[i].0 != s[j].0
}

spec fn has_key(s: Seq<(Seq<char>, Seq<char>)>, k: Seq<char>) -> bool {
    exists|i: int| 0 <= i < s.len() && (#[trigger] s[i]).0 == k
}

spec fn key_index(s: Seq<(Seq<char>, Seq<char>)>, k: Seq<char>) -> int {
    choose|i: int| 0 <= i < s.len() && (#[trigger] s[i]).0 == k
}

spec fn pair_map(s: Seq<(Seq<char>, Seq<char>)>) -> Map<Seq<char>, Seq<char>> {
    Map::new(|k: Seq<char>| has_key(s, k), |k: Seq<char>| s[key_index(s, k)].1)
}

proof fn lemma_pair_map(s: Seq<(Seq<char>, Seq<char>)>, i: int)
    requires
        distinct_keys(s),
        0 <= i < s.len(),
    ensures
        pair_map(s).contains_key(s[i].0),
        pair_map(s)[s[i].0] == s[i].1,
{
    let k = s[i].0;
    assert(has_key(s, k));
    let j = key_index(s, k);
    assert(s[j].0 == k);
    if j < i {
        assert(s[j].0 != s[i].0);
    } else if i < j {
        assert(s[i].0 != s[j].0);
    }
}

/// A map from strings to strings, for the few entries of a field's metadata or a schema's
/// renamed columns. Every key stands in it once.
#[derive(Debug)]
pub struct StringMap {
    entries: Vec<(String, String)>,
}

impl View for StringMap {
    type V = Map<Seq<char>, Seq<char>>;

    closed spec fn view(&self) -> Map<Seq<char>, Seq<char>> {
        pair_map(pair_texts(self.entries@))
    }
}

impl StringMap {
    #[verifier::type_invariant]
    spec fn well_formed(self) -> bool {
        distinct_keys(pair_texts(self.entries@))
    }

    /// A map without entries.
    pub fn new() -> (r: Self)
        ensures
            r@ == Map::<Seq<char>, Seq<char>>::empty(),
    {
        let r = StringMap { entries: Vec::new() };
        assert(r@ =~= Map::<Seq<char>, Seq<char>>::empty());
        r
    }

    /// Whether the map has no entries.
    pub fn is_empty(&self) -> (r: bool)
        ensures
            r == self@.is_empty(),
            r == (self@ == Map::<Seq<char>, Seq<char>>::empty()),
    {
        proof {
            use_type_invariant(self);
            let e = pair_texts(self.entries@);
            if e.len() > 0 {
                lemma_pair_map(e, 0);
                assert(self@.contains_key(e[0].0));
            } else {
                assert(self@ =~= Map::<Seq<char>, Seq<char>>::empty());
            }
            assert(self@.is_empty() == (self@ =~= Map::<Seq<char>, Seq<char>>::empty())) by {
                if self@.is_empty() {
                    assert(self@ =~= Map::<Seq<char>, Seq<char>>::empty());
                }
            }
        }
        self.entries.len() == 0
    }

    /// The position of `key` among the entries.
    fn position(&self, key: &String) -> (r: Option<usize>)
        ensures
            match r {
                Some(i) => i < self.entries.len() && self.entries@[i as int].0@ == key@,
                None => !has_key(pair_texts(self.entries@), key@),
            },
    {
        let ghost e = pair_texts(self.entries@);
        for i in 0..self.entries.len()
            invariant
                e == pair_texts(self.entries@),
                forall|k: int| 0 <= k < i ==> (#[trigger] e[k]).0 != key@,
        {
            if self.entries[i].0 == *key {
                return Some(i);
            }
        }
        None
    }

    /// The value of `key`.
    pub fn get(&self, key: &str) -> (r: Option<&String>)
        ensures
            match r {
                Some(v) => self@.contains_key(key@) && self@[key@] == v@,
                None => !self@.contains_key(key@),
            },
    {
        proof {
            use_type_invariant(self);
        }
        match self.position(&key.to_owned()) {
            Some(i) => {
                proof {
                    lemma_pair_map(pair_texts(self.entries@), i as int);
                }
                Some(&self.entries[i].1)
            },
            None => None,
        }
    }

    /// The entries, each key once.
    pub fn entries(&self) -> (r: &Vec<(String, String)>)
        ensures
            lists(pair_texts(r@), self@),
    {
        proof {
            use_type_invariant(self);
            let e = pair_texts(self.entries@);
            assert forall|i: int| 0 <= i < e.len() implies self@.contains_key((#[trigger] e[i]).0)
                && self@[e[i].0] == e[i].1 by {
                lemma_pair_map(e, i);
            }
        }
        &self.entries
    }

    /// Enters `value` under `key`, in place of the value that it may have.
    pub fn insert(&mut self, key: String, value: String)
        ensures
            final(self)@ == old(self)@.insert(key@, value@),
    {
        proof {
            use_type_invariant(&*self);
        }
        let ghost e0 = pair_texts(self.entries@);
        let ghost k0 = key@;
        let ghost v0 = value@;
        let at = self.position(&key);
        let mut entries: Vec<(String, String)> = Vec::new();
        std::mem::swap(&mut entries, &mut self.entries);
        match at {
            Some(i) => {
                entries.set(i, (key, value));
            },
            None => {
                entries.push((key, value));
            },
        }
        proof {
            let e = pair_texts(entries@);
            let n: int = match at {
                Some(i) => i as int,
                None => e0.len() as int,
            };
            assert(e[n] == (k0, v0));
            assert forall|i: int| 0 <= i < e0.len() && i != n implies e[i] == #[trigger] e0[i] by {}
            assert forall|i: int, j: int|
                #![trigger e[i], e[j]]
                0 <= i < j < e.len() implies e[i].0 != e[j].0 by {
                match at {
                    Some(p) => {
                        assert(e[i].0 == e0[i].0);
                        assert(e[j].0 == e0[j].0);
                        assert(e0[i].0 != e0[j].0);
                    },
                    None => {
                        assert(e[i] == e0[i]);
                        if j < n {
                            assert(e[j] == e0[j]);
                        }
                    },
                }
            }
            assert(distinct_keys(e));
            let m = pair_map(e);
            let m0 = pair_map(e0).insert(k0, v0);
            assert forall|k: Seq<char>| m.contains_key(k) == m0.contains_key(k) by {
                if has_key(e, k) {
                    let i = key_index(e, k);
                    if i != n {
                        assert(e0[i].0 == k);
                    }
                }
                if has_key(e0, k) {
                    let i = key_index(e0, k);
                    assert(e[i].0 == k);
                }
                if k == k0 {
                    assert(e[n].0 == k);
                }
            }
            assert forall|k: Seq<char>| m.contains_key(k) implies m[k] == m0[k] by {
                let i = key_index(e, k);
                lemma_pair_map(e, i);
                if i != n {
                    lemma_pair_map(e0, i);
                    assert(e[i] == e0[i]);
                    assert(e[i].0 != e[n].0);
                }
            }
            assert(m =~= m0);
        }
        self.entries = entries;
    }

    /// Whether every entry is also an entry of `other`.
    fn within(&self, other: &Self) -> (r: bool)
        ensures
            r == (forall|k: Seq<char>|
                #![trigger self@.contains_key(k)]
                self@.contains_key(k) ==> other@.contains_key(k) && other@[k] == self@[k]),
    {
        proof {
            use_type_invariant(self);
        }
        let ghost e = pair_texts(self.entries@);
        for i in 0..self.entries.len()
            invariant
                distinct_keys(e),
                e == pair_texts(self.entries@),
                self@ == pair_map(e),
                forall|k: int|
                    0 <= k < i ==> other@.contains_key((#[trigger] e[k]).0) && other@[e[k].0]
                        == e[k].1,
        {
            proof {
                lemma_pair_map(e, i as int);
                assert(self@.contains_key(e[i as int].0));
            }
            match other.get(self.entries[i].0.as_str()) {
                Some(v) => {
                    if self.entries[i].1 != *v {
                        return false;
                    }
                },
                None => {
                    return false;
                },
            }
        }
        proof {
            assert forall|k: Seq<char>|
                #![trigger self@.contains_key(k)]
                self@.contains_key(k) implies other@.contains_key(k) && other@[k] == self@[k] by {
                let i = key_index(e, k);
                lemma_pair_map(e, i);
            }
        }
        true
    }

    /// Whether two maps have the same entries.
    pub fn same_entries(&self, other: &Self) -> (r: bool)
        ensures
            r == (self@ == other@),
    {
        let r = self.within(other) && other.within(self);
        proof {
            if r {
                assert(self@ =~= other@);
            }
        }
        r
    }
}

} // verus!
