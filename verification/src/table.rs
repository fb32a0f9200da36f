//! A map from identifier strings to values, backed by a vector of
//! entries with pairwise-distinct keys.
//!
//! This is the one shape of lookup structure the system needs: the
//! relay's identifier table, the client's per-peer answer store and the
//! registry's session store are all instances. Contracts speak of the
//! abstract `Map` from key views to values.

use vstd::prelude::*;

use crate::codec::str_eq;

verus! {

/// The abstract contents of an entry sequence: later entries win, though
/// under [`StrMap::wf`] keys never repeat.
pub open spec fn map_of<V>(s: Seq<(String, V)>) -> Map<Seq<char>, V>
    decreases s.len(),
{
    if s.len() == 0 {
        Map::empty()
    } else {
        map_of(s.drop_last()).insert(s.last().0@, s.last().1)
    }
}

/// A vector-backed map keyed by strings.
pub struct StrMap<V> {
    entries: Vec<(String, V)>,
}

impl<V> View for StrMap<V> {
    type V = Map<Seq<char>, V>;

    closed spec fn view(&self) -> Map<Seq<char>, V> {
        map_of(self.entries@)
    }
}

proof fn lemma_map_of_index<V>(s: Seq<(String, V)>, i: int)
    requires
        0 <= i < s.len(),
        forall|j: int| i < j < s.len() ==> s[j].0@ != s[i].0@,
    ensures
        map_of(s).contains_key(s[i].0@),
        map_of(s)[s[i].0@] == s[i].1,
    decreases s.len(),
{
    if i == s.len() - 1 {
    } else {
        lemma_map_of_index(s.drop_last(), i);
    }
}

proof fn lemma_map_of_absent<V>(s: Seq<(String, V)>, k: Seq<char>)
    requires
        forall|i: int| 0 <= i < s.len() ==> s[i].0@ != k,
    ensures
        !map_of(s).contains_key(k),
    decreases s.len(),
{
    if s.len() > 0 {
        lemma_map_of_absent(s.drop_last(), k);
    }
}

proof fn lemma_map_of_push<V>(s: Seq<(String, V)>, p: (String, V))
    ensures
        map_of(s.push(p)) == map_of(s).insert(p.0@, p.1),
{
    assert(s.push(p).drop_last() =~= s);
    assert(s.push(p).last() == p);
}

proof fn lemma_map_of_remove_at<V>(s: Seq<(String, V)>, i: int)
    requires
        0 <= i < s.len(),
        forall|p: int, q: int| 0 <= p < q < s.len() ==> s[p].0@ != s[q].0@,
    ensures
        map_of(s.remove(i)) == map_of(s).remove(s[i].0@),
    decreases s.len(),
{
    let k = s[i].0@;
    if i == s.len() - 1 {
        assert(s.remove(i) =~= s.drop_last());
        assert(forall|j: int| 0 <= j < s.drop_last().len() ==> s.drop_last()[j].0@ != k);
        lemma_map_of_absent(s.drop_last(), k);
        assert(map_of(s.drop_last()).insert(k, s[i].1).remove(k) =~= map_of(s.drop_last()));
    } else {
        let d = s.drop_last();
        lemma_map_of_remove_at(d, i);
        assert(s.remove(i).drop_last() =~= d.remove(i));
        assert(s.remove(i).last() == s.last());
        assert(map_of(s.remove(i)) == map_of(d.remove(i)).insert(s.last().0@, s.last().1));
        assert(map_of(d).remove(k).insert(s.last().0@, s.last().1) =~= map_of(d).insert(
            s.last().0@,
            s.last().1,
        ).remove(k)) by {
            assert(s.last().0@ != k);
        }
    }
}

impl<V> StrMap<V> {
    /// Keys are pairwise distinct.
    pub closed spec fn wf(&self) -> bool {
        forall|p: int, q: int|
            0 <= p < q < self.entries@.len() ==> self.entries@[p].0@ != self.entries@[q].0@
    }

    /// The number of entries, which under `wf` is the number of keys.
    pub closed spec fn spec_len(&self) -> nat {
        self.entries@.len()
    }

    /// An empty map.
    pub fn new() -> (r: StrMap<V>)
        ensures
            r.wf(),
            r@ == Map::<Seq<char>, V>::empty(),
    {
        StrMap { entries: Vec::new() }
    }

    /// The index holding `k`, if any.
    fn find(&self, k: &str) -> (r: Option<usize>)
        ensures
            r matches Some(i) ==> i < self.entries@.len() && self.entries@[i as int].0@ == k@,
            r is None ==> forall|i: int| 0 <= i < self.entries@.len() ==> self.entries@[i].0@
                != k@,
    {
        let mut i: usize = 0;
        let n = self.entries.len();
        while i < n
            invariant
                0 <= i <= n,
                n == self.entries@.len(),
                forall|j: int| 0 <= j < i ==> self.entries@[j].0@ != k@,
            decreases n - i,
        {
            if str_eq(self.entries[i].0.as_str(), k) {
                return Some(i);
            }
            i += 1;
        }
        None
    }

    /// Is `k` present?
    pub fn contains_key(&self, k: &str) -> (r: bool)
        requires
            self.wf(),
        ensures
            r == self@.contains_key(k@),
    {
        let f = self.find(k);
        proof {
            match f {
                Some(i) => {
                    lemma_map_of_index(self.entries@, i as int);
                },
                None => {
                    lemma_map_of_absent(self.entries@, k@);
                },
            }
        }
        match f {
            Some(_) => true,
            None => false,
        }
    }

    /// The value under `k`, if any.
    pub fn get(&self, k: &str) -> (r: Option<&V>)
        requires
            self.wf(),
        ensures
            r matches Some(v) ==> self@.contains_key(k@) && *v == self@[k@],
            r is None ==> !self@.contains_key(k@),
    {
        let f = self.find(k);
        proof {
            match f {
                Some(i) => {
                    lemma_map_of_index(self.entries@, i as int);
                },
                None => {
                    lemma_map_of_absent(self.entries@, k@);
                },
            }
        }
        match f {
            Some(i) => Some(&self.entries[i].1),
            None => None,
        }
    }

    /// Removes `k`, returning its value if it was present.
    pub fn remove(&mut self, k: &str) -> (r: Option<V>)
        requires
            old(self).wf(),
        ensures
            final(self).wf(),
            final(self)@ == old(self)@.remove(k@),
            r matches Some(v) ==> old(self)@.contains_key(k@) && v == old(self)@[k@]
                && final(self).spec_len() == old(self).spec_len() - 1,
            r is None ==> !old(self)@.contains_key(k@) && *final(self) == *old(self),
    {
        let f = self.find(k);
        match f {
            Some(i) => {
                proof {
                    lemma_map_of_index(self.entries@, i as int);
                    lemma_map_of_remove_at(self.entries@, i as int);
                }
                let (_, v) = self.entries.remove(i);
                proof {
                    assert(final(self).wf()) by {
                        assert(forall|p: int, q: int|
                            0 <= p < q < self.entries@.len() ==> self.entries@[p].0@
                                != self.entries@[q].0@);
                    }
                }
                Some(v)
            },
            None => {
                proof {
                    lemma_map_of_absent(self.entries@, k@);
                    assert(old(self)@.remove(k@) =~= old(self)@);
                }
                None
            },
        }
    }

    /// Binds `k` to `v`, replacing any previous binding.
    pub fn insert(&mut self, k: String, v: V)
        requires
            old(self).wf(),
        ensures
            final(self).wf(),
            final(self)@ == old(self)@.insert(k@, v),
    {
        let _ = self.remove(k.as_str());
        proof {
            lemma_map_of_push(self.entries@, (k, v));
        }
        let ghost mid = self.entries@;
        proof {
            assert(!map_of(mid).contains_key(k@));
            assert forall|i: int| 0 <= i < mid.len() implies mid[i].0@ != k@ by {
                if mid[i].0@ == k@ {
                    lemma_map_of_index(mid, i);
                }
            }
        }
        self.entries.push((k, v));
        proof {
            assert(final(self)@ == old(self)@.remove(k@).insert(k@, v));
            assert(old(self)@.remove(k@).insert(k@, v) =~= old(self)@.insert(k@, v));
            assert(final(self).wf()) by {
                assert(self.entries@.drop_last() =~= mid);
            }
        }
    }

    /// The number of entries.
    pub fn len(&self) -> (r: usize)
        ensures
            r == self.spec_len(),
    {
        self.entries.len()
    }
}

} // verus!
