//! A small map keyed by strings, each key held once.

use vstd::prelude::*;

use crate::text::str_eq;

verus! {

/// The map that a list of (key, value) pairs denotes: later pairs win.
pub open spec fn pairs_map<V>(s: Seq<(String, V)>) -> Map<Seq<char>, V>
    decreases s.len(),
{
    if s.len() == 0 {
        Map::empty()
    } else {
        pairs_map(s.drop_last()).insert(s.last().0@, s.last().1)
    }
}

/// No key occurs twice.
pub open spec fn distinct_pairs<V>(s: Seq<(String, V)>) -> bool {
    forall|i: int, j: int| 0 <= i < j < s.len() ==> s[i].0@ != s[j].0@
}

proof fn lemma_pairs_map<V>(s: Seq<(String, V)>)
    requires
        distinct_pairs(s),
    ensures
        pairs_map(s).dom().finite(),
        pairs_map(s).dom().len() == s.len(),
        forall|k: Seq<char>|
            #[trigger] pairs_map(s).contains_key(k) <==> exists|i: int| 0 <= i < s.len() && s[i].0@ == k,
        forall|i: int| 0 <= i < s.len() ==> #[trigger] pairs_map(s)[s[i].0@] == s[i].1,
    decreases s.len(),
{
    if s.len() > 0 {
        let p = s.drop_last();
        assert(distinct_pairs(p));
        lemma_pairs_map(p);
        assert(pairs_map(s) == pairs_map(p).insert(s.last().0@, s.last().1));
        assert(!pairs_map(p).contains_key(s.last().0@)) by {
            if pairs_map(p).contains_key(s.last().0@) {
                let i = choose|i: int| 0 <= i < p.len() && p[i].0@ == s.last().0@;
                assert(s[i].0@ == s[s.len() - 1].0@);
            }
        }
        assert forall|k: Seq<char>| #[trigger] pairs_map(s).contains_key(k) implies exists|i: int|
            0 <= i < s.len() && s[i].0@ == k by {
            if k != s.last().0@ {
                let i = choose|i: int| 0 <= i < p.len() && p[i].0@ == k;
                assert(s[i] == p[i]);
            } else {
                assert(s[s.len() - 1].0@ == k);
            }
        }
        assert forall|i: int| 0 <= i < s.len() implies #[trigger] pairs_map(s)[s[i].0@] == s[i].1 by {
            if i < s.len() - 1 {
                assert(s[i] == p[i]);
                assert(s[i].0@ != s.last().0@);
            }
        }
        assert forall|k: Seq<char>| (exists|i: int| 0 <= i < s.len() && s[i].0@ == k) implies #[trigger] pairs_map(s).contains_key(k) by {
            let i = choose|i: int| 0 <= i < s.len() && s[i].0@ == k;
            if i < s.len() - 1 {
                assert(s[i] == p[i]);
            }
        }
    }
}

/// A map from strings to values, each key held once.
pub struct StrMap<V> {
    pairs: Vec<(String, V)>,
}

impl<V> View for StrMap<V> {
    type V = Map<Seq<char>, V>;

    closed spec fn view(&self) -> Map<Seq<char>, V> {
        pairs_map(self.pairs@)
    }
}

impl<V> StrMap<V> {
    #[verifier::type_invariant]
    spec fn keys_distinct(self) -> bool {
        distinct_pairs(self.pairs@)
    }

    /// An empty map.
    pub fn new() -> (m: Self)
        ensures
            m@ == Map::<Seq<char>, V>::empty(),
    {
        StrMap { pairs: Vec::new() }
    }

    fn find(&self, key: &str) -> (r: Option<usize>)
        ensures
            match r {
                Some(i) => i < self.pairs@.len() && self.pairs@[i as int].0@ == key@,
                None => forall|i: int| 0 <= i < self.pairs@.len() ==> self.pairs@[i].0@ != key@,
            },
    {
        let n = self.pairs.len();
        for i in 0..n
            invariant
                n == self.pairs@.len(),
                forall|j: int| 0 <= j < i ==> self.pairs@[j].0@ != key@,
        {
            if str_eq(self.pairs[i].0.as_str(), key) {
                return Some(i);
            }
        }
        None
    }

    /// The value for `key`, if any.
    pub fn get(&self, key: &str) -> (r: Option<&V>)
        ensures
            match r {
                Some(v) => self@.contains_key(key@) && *v == self@[key@],
                None => !self@.contains_key(key@),
            },
    {
        proof {
            use_type_invariant(self);
            lemma_pairs_map(self.pairs@);
        }
        match self.find(key) {
            Some(i) => Some(&self.pairs[i].1),
            None => None,
        }
    }

    /// Number of keys.
    pub fn len(&self) -> (n: usize)
        ensures
            n == self@.len(),
    {
        proof {
            use_type_invariant(self);
            lemma_pairs_map(self.pairs@);
        }
        self.pairs.len()
    }

    /// Sets the value for `key`, replacing any earlier one.
    pub fn insert(&mut self, key: String, value: V)
        ensures
            final(self)@ == old(self)@.insert(key@, value),
    {
        proof {
            use_type_invariant(&*self);
            lemma_pairs_map(self.pairs@);
        }
        let ghost kv = key@;
        let ghost vv = value;
        let ghost before = self.pairs@;
        let mut v: Vec<(String, V)> = Vec::new();
        std::mem::swap(&mut v, &mut self.pairs);
        match self.find_in(&v, key.as_str()) {
            Some(i) => {
                v.set(i, (key, value));
                proof {
                    let after = v@;
                    assert(distinct_pairs(after)) by {
                        assert forall|a: int, b: int| 0 <= a < b < after.len() implies after[a].0@ != after[b].0@ by {
                            if a != i && b != i {
                                assert(after[a] == before[a] && after[b] == before[b]);
                            } else if a == i {
                                assert(after[b] == before[b]);
                            } else {
                                assert(after[a] == before[a]);
                            }
                        }
                    }
                    lemma_pairs_map(after);
                    assert(pairs_map(after) =~= pairs_map(before).insert(kv, vv)) by {
                        assert forall|k: Seq<char>| #[trigger] pairs_map(after).contains_key(k) <==> pairs_map(before).insert(kv, vv).contains_key(k) by {
                            if pairs_map(after).contains_key(k) {
                                let a = choose|a: int| 0 <= a < after.len() && after[a].0@ == k;
                                if a != i {
                                    assert(after[a] == before[a]);
                                }
                            }
                            if pairs_map(before).contains_key(k) {
                                let a = choose|a: int| 0 <= a < before.len() && before[a].0@ == k;
                                if a != i {
                                    assert(after[a] == before[a]);
                                } else {
                                    assert(after[a].0@ == k);
                                }
                            }
                            if k == kv {
                                assert(after[i as int].0@ == k);
                            }
                        }
                        assert forall|k: Seq<char>| #[trigger] pairs_map(after).contains_key(k) implies pairs_map(after)[k] == pairs_map(before).insert(kv, vv)[k] by {
                            let a = choose|a: int| 0 <= a < after.len() && after[a].0@ == k;
                            assert(pairs_map(after)[after[a].0@] == after[a].1);
                            if a != i {
                                assert(after[a] == before[a]);
                                assert(pairs_map(before)[before[a].0@] == before[a].1);
                            }
                        }
                    }
                }
            },
            None => {
                v.push((key, value));
                proof {
                    assert(v@.drop_last() =~= before);
                }
            },
        }
        self.pairs = v;
    }

    /// The keys, each once.
    pub fn keys(&self) -> (ks: Vec<String>)
        ensures
            ks@.len() == self@.len(),
            forall|k: Seq<char>|
                self@.contains_key(k) <==> exists|i: int| 0 <= i < ks@.len() && #[trigger] ks@[i]@ == k,
    {
        proof {
            use_type_invariant(self);
            lemma_pairs_map(self.pairs@);
        }
        let mut ks: Vec<String> = Vec::new();
        let n = self.pairs.len();
        for i in 0..n
            invariant
                n == self.pairs@.len(),
                ks@.len() == i,
                forall|j: int| 0 <= j < i ==> #[trigger] ks@[j]@ == self.pairs@[j].0@,
        {
            ks.push(self.pairs[i].0.clone());
        }
        proof {
            assert forall|k: Seq<char>| self@.contains_key(k) implies exists|i: int|
                0 <= i < ks@.len() && #[trigger] ks@[i]@ == k by {
                let i = choose|i: int| 0 <= i < self.pairs@.len() && self.pairs@[i].0@ == k;
                assert(ks@[i]@ == k);
            }
            assert forall|k: Seq<char>| (exists|i: int| 0 <= i < ks@.len() && #[trigger] ks@[i]@ == k) implies self@.contains_key(k) by {
                let i = choose|i: int| 0 <= i < ks@.len() && #[trigger] ks@[i]@ == k;
                assert(self.pairs@[i].0@ == k);
            }
        }
        ks
    }

    /// The (key, value) pairs, each key once.
    pub fn into_pairs(self) -> (v: Vec<(String, V)>)
        ensures
            distinct_pairs(v@),
            pairs_map(v@) == self@,
    {
        proof {
            use_type_invariant(&self);
        }
        self.pairs
    }

    fn find_in(&self, v: &Vec<(String, V)>, key: &str) -> (r: Option<usize>)
        ensures
            match r {
                Some(i) => i < v@.len() && v@[i as int].0@ == key@,
                None => forall|i: int| 0 <= i < v@.len() ==> v@[i].0@ != key@,
            },
    {
        let n = v.len();
        for i in 0..n
            invariant
                n == v@.len(),
                forall|j: int| 0 <= j < i ==> v@[j].0@ != key@,
        {
            if str_eq(v[i].0.as_str(), key) {
                return Some(i);
            }
        }
        None
    }

    /// Removes `key`, returning its value if it was present.
    pub fn remove(&mut self, key: &str) -> (r: Option<V>)
        ensures
            final(self)@ == old(self)@.remove(key@),
            match r {
                Some(v) => old(self)@.contains_key(key@) && v == old(self)@[key@],
                None => !old(self)@.contains_key(key@),
            },
    {
        proof {
            use_type_invariant(&*self);
            lemma_pairs_map(self.pairs@);
        }
        let ghost before = self.pairs@;
        let mut v: Vec<(String, V)> = Vec::new();
        std::mem::swap(&mut v, &mut self.pairs);
        let r = match self.find_in(&v, key) {
            Some(i) => {
                let (_, value) = v.remove(i);
                proof {
                    let after = v@;
                    assert(after =~= before.remove(i as int));
                    assert(distinct_pairs(after)) by {
                        assert forall|a: int, b: int| 0 <= a < b < after.len() implies after[a].0@ != after[b].0@ by {
                            let a2 = if a < i { a } else { a + 1 };
                            let b2 = if b < i { b } else { b + 1 };
                            assert(after[a] == before[a2] && after[b] == before[b2]);
                        }
                    }
                    lemma_pairs_map(after);
                    assert(pairs_map(after) =~= pairs_map(before).remove(key@)) by {
                        assert forall|k: Seq<char>| #[trigger] pairs_map(after).contains_key(k) <==> pairs_map(before).remove(key@).contains_key(k) by {
                            if pairs_map(after).contains_key(k) {
                                let a = choose|a: int| 0 <= a < after.len() && after[a].0@ == k;
                                let a2 = if a < i { a } else { a + 1 };
                                assert(after[a] == before[a2]);
                            }
                            if pairs_map(before).contains_key(k) && k != key@ {
                                let a = choose|a: int| 0 <= a < before.len() && before[a].0@ == k;
                                assert(a != i);
                                let a1 = if a < i { a } else { a - 1 };
                                assert(after[a1] == before[a]);
                            }
                        }
                        assert forall|k: Seq<char>| #[trigger] pairs_map(after).contains_key(k) implies pairs_map(after)[k] == pairs_map(before).remove(key@)[k] by {
                            let a = choose|a: int| 0 <= a < after.len() && after[a].0@ == k;
                            let a2 = if a < i { a } else { a + 1 };
                            assert(after[a] == before[a2]);
                            assert(pairs_map(after)[after[a].0@] == after[a].1);
                            assert(pairs_map(before)[before[a2].0@] == before[a2].1);
                        }
                    }
                }
                Some(value)
            },
            None => {
                proof {
                    assert(pairs_map(before) =~= pairs_map(before).remove(key@));
                }
                None
            },
        };
        self.pairs = v;
        r
    }
}

} // verus!
