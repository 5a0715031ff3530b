//! An owned mapping from property name to property value.
//!
//! The snapshot of a host's property namespace, and each per-slot
//! subset of it, is held in a [`PropMap`]: a vector of key/value
//! string pairs with pairwise-distinct keys, viewed in specifications
//! as a `Map<Seq<char>, Seq<char>>`.

use vstd::prelude::*;

verus! {

/// No two entries share a key.
pub open spec fn distinct_keys(s: Seq<(Seq<char>, Seq<char>)>) -> bool {
    forall|i: int, j: int|
        0 <= i < j < s.len() ==> (#[trigger] s[i]).0 != (#[trigger] s[j]).0
}

/// The value under `k`, scanning from the most recent entry.
spec fn lookup(s: Seq<(Seq<char>, Seq<char>)>, k: Seq<char>) -> Option<Seq<char>>
    decreases s.len(),
{
    if s.len() == 0 {
        None
    } else if s.last().0 == k {
        Some(s.last().1)
    } else {
        lookup(s.drop_last(), k)
    }
}

/// The mapping that a sequence of key/value pairs denotes when a later
/// pair with the same key overrides an earlier one.
pub open spec fn map_of_pairs(s: Seq<(Seq<char>, Seq<char>)>) -> Map<Seq<char>, Seq<char>>
    decreases s.len(),
{
    if s.len() == 0 {
        Map::empty()
    } else {
        map_of_pairs(s.drop_last()).insert(s.last().0, s.last().1)
    }
}

/// A flat mapping from property name to string value.
#[derive(Debug, Clone, PartialEq, Eq)]
pub struct PropMap {
    entries: Vec<(String, String)>,
}

impl View for PropMap {
    type V = Map<Seq<char>, Seq<char>>;

    open spec fn view(&self) -> Map<Seq<char>, Seq<char>> {
        map_of_pairs(self.kv())
    }
}

proof fn lemma_lookup_absent(s: Seq<(Seq<char>, Seq<char>)>, q: Seq<char>)
    requires
        forall|i: int| 0 <= i < s.len() ==> (#[trigger] s[i]).0 != q,
    ensures
        lookup(s, q) is None,
    decreases s.len(),
{
    if s.len() > 0 {
        lemma_lookup_absent(s.drop_last(), q);
    }
}

/// `lookup` and `map_of_pairs` agree on every key.
proof fn lemma_lookup_is_map(s: Seq<(Seq<char>, Seq<char>)>, q: Seq<char>)
    ensures
        map_of_pairs(s).contains_key(q) <==> lookup(s, q) is Some,
        lookup(s, q) matches Some(v) ==> map_of_pairs(s)[q] == v,
    decreases s.len(),
{
    if s.len() > 0 {
        lemma_lookup_is_map(s.drop_last(), q);
    }
}

/// With distinct keys, the entry at `i` is the one `lookup` finds.
proof fn lemma_lookup_at(s: Seq<(Seq<char>, Seq<char>)>, i: int)
    requires
        distinct_keys(s),
        0 <= i < s.len(),
    ensures
        lookup(s, s[i].0) == Some(s[i].1),
    decreases s.len(),
{
    if i == s.len() - 1 {
    } else {
        assert(s.last().0 != s[i].0);
        assert(s.drop_last()[i] == s[i]);
        lemma_lookup_at(s.drop_last(), i);
    }
}

/// Removing the entry at `i` removes exactly its key from the mapping.
proof fn lemma_lookup_remove(s: Seq<(Seq<char>, Seq<char>)>, i: int, q: Seq<char>)
    requires
        distinct_keys(s),
        0 <= i < s.len(),
    ensures
        lookup(s.remove(i), q) == (if q == s[i].0 {
            None::<Seq<char>>
        } else {
            lookup(s, q)
        }),
    decreases s.len(),
{
    if i == s.len() - 1 {
        assert(s.remove(i) =~= s.drop_last());
        if q == s[i].0 {
            assert(forall|j: int|
                0 <= j < s.drop_last().len() ==> (#[trigger] s.drop_last()[j]).0 != q);
            lemma_lookup_absent(s.drop_last(), q);
        }
    } else {
        assert(s.remove(i).last() == s.last());
        assert(s.remove(i).drop_last() =~= s.drop_last().remove(i));
        assert(distinct_keys(s.drop_last())) by {
            assert(forall|a: int, b: int|
                0 <= a < b < s.drop_last().len() ==> (#[trigger] s.drop_last()[a]).0 != (
                #[trigger] s.drop_last()[b]).0);
        }
        assert(s.drop_last()[i] == s[i]);
        lemma_lookup_remove(s.drop_last(), i, q);
    }
}

impl PropMap {
    /// The entries, as pairs of key view and value view, in storage order.
    pub closed spec fn kv(self) -> Seq<(Seq<char>, Seq<char>)> {
        self.entries@.map_values(|e: (String, String)| (e.0@, e.1@))
    }

    /// Well-formed: no two entries share a key.
    pub open spec fn wf(self) -> bool {
        distinct_keys(self.kv())
    }

    /// Each entry is a binding of the mapping, and every key of the
    /// mapping has an entry.
    pub proof fn lemma_kv_view(self)
        requires
            self.wf(),
        ensures
            forall|i: int|
                0 <= i < self.kv().len() ==> self@.contains_key((#[trigger] self.kv()[i]).0)
                    && self@[self.kv()[i].0] == self.kv()[i].1,
            forall|q: Seq<char>|
                self@.contains_key(q) ==> exists|i: int|
                    0 <= i < self.kv().len() && (#[trigger] self.kv()[i]).0 == q,
    {
        assert forall|i: int| 0 <= i < self.kv().len() implies self@.contains_key(
            (#[trigger] self.kv()[i]).0,
        ) && self@[self.kv()[i].0] == self.kv()[i].1 by {
            lemma_lookup_at(self.kv(), i);
            lemma_lookup_is_map(self.kv(), self.kv()[i].0);
        }
        assert forall|q: Seq<char>| self@.contains_key(q) implies exists|i: int|
            0 <= i < self.kv().len() && (#[trigger] self.kv()[i]).0 == q by {
            if forall|i: int| 0 <= i < self.kv().len() ==> (#[trigger] self.kv()[i]).0 != q {
                lemma_lookup_absent(self.kv(), q);
                lemma_lookup_is_map(self.kv(), q);
            }
        }
    }

    /// An empty mapping.
    pub fn new() -> (r: PropMap)
        ensures
            r.wf(),
            r@ == Map::<Seq<char>, Seq<char>>::empty(),
            r.kv() == Seq::<(Seq<char>, Seq<char>)>::empty(),
    {
        let r = PropMap { entries: Vec::new() };
        proof {
            assert(r.kv() =~= Seq::<(Seq<char>, Seq<char>)>::empty());
        }
        r
    }

    /// The number of entries.
    pub fn num_entries(&self) -> (n: usize)
        ensures
            n == self.kv().len(),
    {
        self.entries.len()
    }

    /// The key of the entry at `i`.
    pub fn key_at(&self, i: usize) -> (k: &String)
        requires
            i < self.kv().len(),
        ensures
            k@ == self.kv()[i as int].0,
    {
        &self.entries[i].0
    }

    /// The value of the entry at `i`.
    pub fn value_at(&self, i: usize) -> (v: &String)
        requires
            i < self.kv().len(),
        ensures
            v@ == self.kv()[i as int].1,
    {
        &self.entries[i].1
    }

    /// The index of the entry whose key is `k`, if one exists.
    fn find_index(&self, k: &str) -> (r: Option<usize>)
        ensures
            match r {
                Some(i) => i < self.kv().len() && self.kv()[i as int].0 == k@,
                None => forall|i: int|
                    0 <= i < self.kv().len() ==> (#[trigger] self.kv()[i]).0 != k@,
            },
    {
        let n = self.entries.len();
        let mut i: usize = 0;
        while i < n
            invariant
                0 <= i <= n,
                n == self.kv().len(),
                n == self.entries@.len(),
                forall|j: int| 0 <= j < i ==> (#[trigger] self.kv()[j]).0 != k@,
            decreases n - i,
        {
            if crate::text::str_eq(self.entries[i].0.as_str(), k) {
                return Some(i);
            }
            i += 1;
        }
        None
    }

    /// Binds `k` to `v`; a binding already present under `k` is
    /// replaced, so a later insertion wins.
    pub fn insert(&mut self, k: String, v: String)
        requires
            old(self).wf(),
        ensures
            final(self).wf(),
            final(self)@ == old(self)@.insert(k@, v@),
    {
        let ghost s0 = self.kv();
        match self.find_index(k.as_str()) {
            Some(i) => {
                self.entries.remove(i);
                proof {
                    assert(self.kv() =~= s0.remove(i as int));
                    assert forall|q: Seq<char>| #[trigger] lookup(self.kv(), q) == (if q == k@ {
                        None::<Seq<char>>
                    } else {
                        lookup(s0, q)
                    }) by {
                        lemma_lookup_remove(s0, i as int, q);
                    }
                    assert(distinct_keys(self.kv()));
                }
            },
            None => {
                proof {
                    lemma_lookup_absent(s0, k@);
                    assert forall|q: Seq<char>| #[trigger] lookup(self.kv(), q) == (if q == k@ {
                        None::<Seq<char>>
                    } else {
                        lookup(s0, q)
                    }) by {}
                }
            },
        }
        let ghost s1 = self.kv();
        proof {
            assert(distinct_keys(s1));
            assert forall|a: int| 0 <= a < s1.len() implies (#[trigger] s1[a]).0 != k@ by {
                lemma_lookup_at(s1, a);
            }
        }
        self.entries.push((k, v));
        proof {
            let s2 = self.kv();
            assert(s2 =~= s1.push((k@, v@)));
            assert(s2.drop_last() =~= s1);
            assert(s2.last() == (k@, v@));
            assert(distinct_keys(s2));
            assert(map_of_pairs(s2) == map_of_pairs(s1).insert(k@, v@));
            assert(map_of_pairs(s1) =~= map_of_pairs(s0).remove(k@)) by {
                assert forall|q: Seq<char>| #[trigger] map_of_pairs(s1).contains_key(q)
                    == map_of_pairs(s0).remove(k@).contains_key(q) && (map_of_pairs(
                    s1,
                ).contains_key(q) ==> map_of_pairs(s1)[q] == map_of_pairs(s0).remove(k@)[q]) by {
                    lemma_lookup_is_map(s1, q);
                    lemma_lookup_is_map(s0, q);
                }
            }
            assert(final(self)@ =~= old(self)@.insert(k@, v@));
        }
    }

    /// The value bound to `k`, if any.
    pub fn get(&self, k: &str) -> (r: Option<&String>)
        requires
            self.wf(),
        ensures
            match r {
                Some(v) => self@.contains_key(k@) && v@ == self@[k@],
                None => !self@.contains_key(k@),
            },
    {
        match self.find_index(k) {
            Some(i) => {
                proof {
                    lemma_lookup_at(self.kv(), i as int);
                    lemma_lookup_is_map(self.kv(), k@);
                }
                Some(&self.entries[i].1)
            },
            None => {
                proof {
                    lemma_lookup_absent(self.kv(), k@);
                    lemma_lookup_is_map(self.kv(), k@);
                }
                None
            },
        }
    }

    /// Removes the binding of `k`, returning its value when one was
    /// present.
    pub fn remove(&mut self, k: &str) -> (r: Option<String>)
        requires
            old(self).wf(),
        ensures
            final(self).wf(),
            final(self)@ == old(self)@.remove(k@),
            match r {
                Some(v) => old(self)@.contains_key(k@) && v@ == old(self)@[k@],
                None => !old(self)@.contains_key(k@),
            },
    {
        let ghost s0 = self.kv();
        match self.find_index(k) {
            Some(i) => {
                proof {
                    lemma_lookup_at(s0, i as int);
                    lemma_lookup_is_map(s0, k@);
                }
                let e = self.entries.remove(i);
                proof {
                    assert(self.kv() =~= s0.remove(i as int));
                    assert(distinct_keys(self.kv()));
                    assert(final(self)@ =~= old(self)@.remove(k@)) by {
                        assert forall|q: Seq<char>| #[trigger] map_of_pairs(
                            self.kv(),
                        ).contains_key(q) == old(self)@.remove(k@).contains_key(q) && (map_of_pairs(
                            self.kv(),
                        ).contains_key(q) ==> map_of_pairs(self.kv())[q] == old(self)@.remove(k@)[q])
                            by {
                            lemma_lookup_remove(s0, i as int, q);
                            lemma_lookup_is_map(self.kv(), q);
                            lemma_lookup_is_map(s0, q);
                        }
                    }
                }
                Some(e.1)
            },
            None => {
                proof {
                    lemma_lookup_absent(s0, k@);
                    lemma_lookup_is_map(s0, k@);
                    assert(final(self)@ =~= old(self)@.remove(k@));
                }
                None
            },
        }
    }

    /// Collects a sequence of name/value pairs into a mapping; when a
    /// name repeats, the later occurrence wins.
    pub fn from_pairs(pairs: Vec<(String, String)>) -> (r: PropMap)
        ensures
            r.wf(),
            r@ == map_of_pairs(pairs.deep_view()),
    {
        let mut r = PropMap::new();
        let n = pairs.len();
        let mut i: usize = 0;
        while i < n
            invariant
                0 <= i <= n,
                n == pairs@.len(),
                r.wf(),
                r@ == map_of_pairs(pairs.deep_view().take(i as int)),
            decreases n - i,
        {
            let k = pairs[i].0.clone();
            let v = pairs[i].1.clone();
            r.insert(k, v);
            proof {
                let d = pairs.deep_view();
                assert(d.take(i + 1).drop_last() =~= d.take(i as int));
                assert(d.take(i + 1).last() == d[i as int]);
            }
            i += 1;
        }
        proof {
            assert(pairs.deep_view().take(n as int) =~= pairs.deep_view());
        }
        r
    }
}

} // verus!
