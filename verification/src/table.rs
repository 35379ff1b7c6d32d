//! A small association table with unique keys, viewed as a `Map` over the
//! deep views of its keys and values.  Every sub-map of the configuration
//! state is one of these.

use vstd::prelude::*;

use crate::types::DeepEq;

verus! {

/// The map described by an association list: later entries win.
pub open spec fn assoc_map<KV, VV>(s: Seq<(KV, VV)>) -> Map<KV, VV>
    decreases s.len(),
{
    if s.len() == 0 {
        Map::empty()
    } else {
        assoc_map(s.drop_last()).insert(s.last().0, s.last().1)
    }
}

/// Pairwise distinct keys.
pub open spec fn assoc_unique<KV, VV>(s: Seq<(KV, VV)>) -> bool {
    forall|i: int, j: int| 0 <= i < j < s.len() ==> s[i].0 != s[j].0
}

/// A key is in the map exactly when some entry holds it.
pub proof fn lemma_assoc_contains<KV, VV>(s: Seq<(KV, VV)>, k: KV)
    ensures
        assoc_map(s).contains_key(k) <==> exists|i: int| 0 <= i < s.len() && s[i].0 == k,
    decreases s.len(),
{
    if s.len() > 0 {
        lemma_assoc_contains(s.drop_last(), k);
        if s.last().0 == k {
            assert(s[s.len() - 1].0 == k);
        } else {
            if assoc_map(s).contains_key(k) {
                let i = choose|i: int| 0 <= i < s.drop_last().len() && s.drop_last()[i].0 == k;
                assert(s[i].0 == k);
            }
            if exists|i: int| 0 <= i < s.len() && s[i].0 == k {
                let i = choose|i: int| 0 <= i < s.len() && s[i].0 == k;
                assert(i < s.len() - 1);
                assert(s.drop_last()[i].0 == k);
            }
        }
    }
}

/// With unique keys, the entry holding a key gives its mapped value.
pub proof fn lemma_assoc_index<KV, VV>(s: Seq<(KV, VV)>, i: int)
    requires
        assoc_unique(s),
        0 <= i < s.len(),
    ensures
        assoc_map(s).contains_key(s[i].0),
        assoc_map(s)[s[i].0] == s[i].1,
    decreases s.len(),
{
    lemma_assoc_contains(s, s[i].0);
    if i == s.len() - 1 {
    } else {
        assert(assoc_unique(s.drop_last()));
        assert(s.drop_last()[i] == s[i]);
        lemma_assoc_index(s.drop_last(), i);
        assert(s[i].0 != s.last().0);
    }
}

/// Removing the entry that holds a key removes the key from the map.
pub proof fn lemma_assoc_remove<KV, VV>(s: Seq<(KV, VV)>, j: int)
    requires
        assoc_unique(s),
        0 <= j < s.len(),
    ensures
        assoc_map(s.remove(j)) == assoc_map(s).remove(s[j].0),
    decreases s.len(),
{
    let k = s[j].0;
    lemma_assoc_contains(s, k);
    if j == s.len() - 1 {
        lemma_assoc_contains(s.drop_last(), k);
        assert(!assoc_map(s.drop_last()).contains_key(k));
        assert(s.remove(j) =~= s.drop_last());
        assert(assoc_map(s.drop_last()).insert(k, s[j].1).remove(k) =~= assoc_map(s.drop_last()));
    } else {
        assert(s.remove(j).drop_last() =~= s.drop_last().remove(j));
        assert(assoc_unique(s.drop_last()));
        lemma_assoc_remove(s.drop_last(), j);
        assert(s.remove(j).last() == s.last());
        assert(assoc_map(s.remove(j)) == assoc_map(s.drop_last().remove(j)).insert(
            s.last().0,
            s.last().1,
        ));
        assert(k != s.last().0);
        assert(assoc_map(s.drop_last()).remove(k).insert(s.last().0, s.last().1) =~= assoc_map(
            s.drop_last(),
        ).insert(s.last().0, s.last().1).remove(k));
    }
}

/// An association table with unique keys.
#[derive(Debug, Clone, PartialEq, Eq)]
pub struct Table<K, V> {
    pub entries: Vec<(K, V)>,
}

impl<K: DeepEq, V: DeepView> Table<K, V> {
    /// The map this table holds.
    pub open spec fn view_map(&self) -> Map<K::V, V::V> {
        assoc_map(self.entries.deep_view())
    }

    /// Well-formed: no two entries share a key.
    pub open spec fn wf(&self) -> bool {
        assoc_unique(self.entries.deep_view())
    }

    /// The empty table.
    pub fn new() -> (r: Table<K, V>)
        ensures
            r.wf(),
            r.view_map() == Map::<K::V, V::V>::empty(),
            r.entries@.len() == 0,
    {
        let r = Table { entries: Vec::new() };
        proof {
            assert(r.entries.deep_view() =~= Seq::<(K::V, V::V)>::empty());
        }
        r
    }

    /// How many entries the table holds.
    pub fn len(&self) -> (n: usize)
        ensures
            n == self.entries@.len(),
    {
        self.entries.len()
    }

    /// The position of the entry holding the given key, if any.
    fn position(&self, k: &K) -> (r: Option<usize>)
        ensures
            match r {
                Option::Some(i) => i < self.entries@.len() && self.entries.deep_view()[i as int].0
                    == k.deep_view(),
                Option::None => forall|i: int|
                    0 <= i < self.entries@.len() ==> self.entries.deep_view()[i].0
                        != k.deep_view(),
            },
    {
        let mut i: usize = 0;
        while i < self.entries.len()
            invariant
                0 <= i <= self.entries@.len(),
                forall|j: int| 0 <= j < i ==> self.entries.deep_view()[j].0 != k.deep_view(),
            decreases self.entries@.len() - i,
        {
            if self.entries[i].0.deep_eq(k) {
                return Option::Some(i);
            }
            proof {
                assert(self.entries.deep_view()[i as int].0 == self.entries@[i as int].0.deep_view());
            }
            i += 1;
        }
        Option::None
    }

    /// Whether the table maps the given key.
    pub fn contains(&self, k: &K) -> (r: bool)
        ensures
            r <==> self.view_map().contains_key(k.deep_view()),
    {
        proof {
            lemma_assoc_contains(self.entries.deep_view(), k.deep_view());
        }
        match self.position(k) {
            Option::Some(_) => true,
            Option::None => false,
        }
    }

    /// The value mapped to a key, if any.
    pub fn get(&self, k: &K) -> (r: Option<&V>)
        requires
            self.wf(),
        ensures
            match r {
                Option::Some(v) => self.view_map().contains_key(k.deep_view())
                    && self.view_map()[k.deep_view()] == v.deep_view(),
                Option::None => !self.view_map().contains_key(k.deep_view()),
            },
    {
        proof {
            lemma_assoc_contains(self.entries.deep_view(), k.deep_view());
        }
        match self.position(k) {
            Option::Some(i) => {
                proof {
                    lemma_assoc_index(self.entries.deep_view(), i as int);
                }
                Option::Some(&self.entries[i].1)
            },
            Option::None => Option::None,
        }
    }

    /// Removes the entry holding a key.  Returns whether one was there.
    pub fn remove(&mut self, k: &K) -> (removed: bool)
        requires
            old(self).wf(),
        ensures
            final(self).wf(),
            final(self).view_map() == old(self).view_map().remove(k.deep_view()),
            removed <==> old(self).view_map().contains_key(k.deep_view()),
            final(self).entries@.len() <= old(self).entries@.len(),
    {
        proof {
            lemma_assoc_contains(self.entries.deep_view(), k.deep_view());
        }
        match self.position(k) {
            Option::Some(i) => {
                proof {
                    lemma_assoc_remove(self.entries.deep_view(), i as int);
                }
                let ghost pre = self.entries.deep_view();
                self.entries.remove(i);
                proof {
                    assert(self.entries.deep_view() =~= pre.remove(i as int));
                    assert forall|a: int, b: int|
                        0 <= a < b < self.entries.deep_view().len() implies self.entries.deep_view()[a].0
                        != self.entries.deep_view()[b].0 by {
                        let p = pre.remove(i as int);
                        if a < i {
                            assert(p[a] == pre[a]);
                        } else {
                            assert(p[a] == pre[a + 1]);
                        }
                        if b < i {
                            assert(p[b] == pre[b]);
                        } else {
                            assert(p[b] == pre[b + 1]);
                        }
                    }
                }
                true
            },
            Option::None => {
                proof {
                    assert(!self.view_map().contains_key(k.deep_view()));
                    assert(self.view_map().remove(k.deep_view()) =~= self.view_map());
                }
                false
            },
        }
    }

    /// Maps a key to a value, replacing what an earlier entry held for it.
    pub fn insert(&mut self, k: K, v: V)
        requires
            old(self).wf(),
        ensures
            final(self).wf(),
            final(self).view_map() == old(self).view_map().insert(k.deep_view(), v.deep_view()),
            final(self).entries@.len() <= old(self).entries@.len() + 1,
    {
        self.remove(&k);
        let ghost pre = self.entries.deep_view();
        let ghost premap = self.view_map();
        self.entries.push((k, v));
        proof {
            assert(self.entries.deep_view() =~= pre.push((k.deep_view(), v.deep_view())));
            assert(self.entries.deep_view().drop_last() =~= pre);
            lemma_assoc_contains(pre, k.deep_view());
            assert forall|a: int, b: int|
                0 <= a < b < self.entries.deep_view().len() implies self.entries.deep_view()[a].0
                != self.entries.deep_view()[b].0 by {
                if b < self.entries.deep_view().len() - 1 {
                    assert(pre[a] == self.entries.deep_view()[a]);
                } else {
                    assert(!premap.contains_key(k.deep_view()));
                }
            }
            assert(premap.insert(k.deep_view(), v.deep_view()) =~= old(self).view_map().insert(
                k.deep_view(),
                v.deep_view(),
            ));
        }
    }
}

} // verus!
