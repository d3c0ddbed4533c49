//! Hash maps and hash sets as recorded containers and as half-deltas.

use std::collections::{HashMap, HashSet};

use vstd::prelude::*;
use vstd::std_specs::iter::IteratorSpec;

use crate::collection::{
    replaced, Clear, Collection, Get, Insert, IntoIter, Iter, Keyed, Modify, Remove, SetAt,
};
use crate::delta::{
    apply_delta_on_map, applies_entrywise, apply_entries, ApplyDelta, Delta, HalfDelta,
};
use crate::key::HashKey;

verus! {

impl<K, V> Collection for HashMap<K, V> {
    type Item = V;
}

impl<K, V> Keyed for HashMap<K, V> {
    type Key = K;

    open spec fn entries(&self) -> Map<K, V> {
        self@
    }
}

impl<K: HashKey, V> Get<K> for HashMap<K, V> {
    fn get(&self, key: &K) -> (r: Option<&V>) {
        proof {
            K::lemma_key_model();
        }
        HashMap::get(self, key)
    }
}

impl<K: HashKey, V> SetAt<K> for HashMap<K, V> {
    type Output = Option<V>;

    open spec fn settable(&self, key: K) -> bool {
        self@.contains_key(key)
    }

    open spec fn set_output(before: Map<K, V>, key: K, out: Option<V>) -> bool {
        replaced(before, key, out)
    }

    fn set(&mut self, key: K, value: V) -> (out: Option<V>) {
        proof {
            K::lemma_key_model();
        }
        HashMap::insert(self, key, value)
    }
}

impl<K: HashKey, V> Insert<K> for HashMap<K, V> {
    type Output = Option<V>;

    open spec fn insert_output(before: Map<K, V>, key: K, out: Option<V>) -> bool {
        replaced(before, key, out)
    }

    fn insert(&mut self, key: K, value: V) -> (out: Option<V>) {
        proof {
            K::lemma_key_model();
        }
        HashMap::insert(self, key, value)
    }
}

impl<K: HashKey, V> Remove<K> for HashMap<K, V> {
    fn remove(&mut self, key: &K) -> (r: Option<V>) {
        proof {
            K::lemma_key_model();
        }
        HashMap::remove(self, key)
    }
}

impl<K: HashKey, V> Clear for HashMap<K, V> {
    fn clear(&mut self) {
        HashMap::clear(self);
    }
}

impl<K: HashKey, V> Modify<K> for HashMap<K, V> {
    fn modify<F: FnMut(&mut V)>(&mut self, key: &K, mut f: F) {
        proof {
            K::lemma_key_model();
        }
        let mut value = HashMap::remove(self, key).unwrap();
        f(&mut value);
        HashMap::insert(self, *key, value);
    }
}

impl<K: HashKey, V: Copy> Iter<K> for HashMap<K, V> {
    fn iter(&self) -> (r: Vec<(K, V)>) {
        proof {
            K::lemma_key_model();
        }
        let mut r: Vec<(K, V)> = Vec::new();
        let entries_iter = self.iter();
        let ghost s = entries_iter.remaining();
        proof {
            assert(s.no_duplicates());
        }
        for kv in it: entries_iter
            invariant
                r@.len() == it.index(),
                forall|i: int|
                    0 <= i < it.index() ==> (#[trigger] r@[i]).0 == *it.seq()[i].0 && r@[i].1
                        == *it.seq()[i].1,
        {
            let (k, v) = kv;
            r.push((*k, *v));
        }
        proof {
            assert(r@.len() == s.len());
            assert forall|i: int, j: int| 0 <= i < j < r@.len() implies r@[i].0 != r@[j].0 by {
                if r@[i].0 == r@[j].0 {
                    assert(self@.contains_key(*s[i].0) && self@[*s[i].0] == *s[i].1);
                    assert(self@.contains_key(*s[j].0) && self@[*s[j].0] == *s[j].1);
                    assert(s[i] == s[j]);
                }
            }
            assert forall|k: K| self@.contains_key(k) implies exists|i: int|
                0 <= i < r@.len() && #[trigger] r@[i].0 == k by {
                assert(s.contains((&k, &self@[k])));
                let i = choose|i: int| 0 <= i < s.len() && s[i] == (&k, &self@[k]);
                assert(r@[i].0 == k);
            }
        }
        r
    }
}

impl<K: HashKey, V: Copy> IntoIter<K> for HashMap<K, V> {
}

impl<K: HashKey, V: Copy> HalfDelta<K, V> for HashMap<K, V> {
    fn empty() -> (r: Self) {
        HashMap::new()
    }

    proof fn lemma_cloned_entries(a: Self, b: Self) {
    }

    proof fn lemma_default_empty(d: Self) {
    }
}

impl<
    K: HashKey,
    V: Copy,
    DC: Keyed<Key = K, Item = V> + IntoIter<K>,
> ApplyDelta<DC> for HashMap<K, V> {
    open spec fn delta_applied(&self, delta: Delta<DC>, after: Self) -> bool {
        after@ == apply_entries(self@, delta.removed.entries(), delta.inserted.entries())
    }

    fn apply_delta(&mut self, delta: Delta<DC>) {
        apply_delta_on_map(self, delta);
    }
}

impl<K> Collection for HashSet<K> {
    type Item = ();
}

impl<K> Keyed for HashSet<K> {
    type Key = K;

    open spec fn entries(&self) -> Map<K, ()> {
        Map::new(|k: K| self@.contains(k), |k: K| ())
    }
}

impl<K: HashKey> Get<K> for HashSet<K> {
    fn get(&self, key: &K) -> (r: Option<&()>) {
        proof {
            K::lemma_key_model();
        }
        if HashSet::contains(self, key) {
            Some(&())
        } else {
            None
        }
    }
}

impl<K: HashKey> Insert<K> for HashSet<K> {
    type Output = bool;

    open spec fn insert_output(before: Map<K, ()>, key: K, out: bool) -> bool {
        out == !before.contains_key(key)
    }

    fn insert(&mut self, key: K, _value: ()) -> (out: bool) {
        proof {
            K::lemma_key_model();
        }
        let out = HashSet::insert(self, key);
        proof {
            assert(self.entries() =~= old(self).entries().insert(key, ()));
        }
        out
    }
}

impl<K: HashKey> Remove<K> for HashSet<K> {
    fn remove(&mut self, key: &K) -> (r: Option<()>) {
        proof {
            K::lemma_key_model();
        }
        let removed = HashSet::remove(self, key);
        proof {
            assert(self.entries() =~= old(self).entries().remove(*key));
        }
        if removed {
            Some(())
        } else {
            None
        }
    }
}

impl<K: HashKey> Clear for HashSet<K> {
    fn clear(&mut self) {
        HashSet::clear(self);
        proof {
            assert(self.entries() =~= Map::<K, ()>::empty());
        }
    }
}

impl<K: HashKey> Iter<K> for HashSet<K> {
    fn iter(&self) -> (r: Vec<(K, ())>) {
        proof {
            K::lemma_key_model();
        }
        let mut r: Vec<(K, ())> = Vec::new();
        let keys_iter = self.iter();
        let ghost s = keys_iter.remaining();
        proof {
            assert(s.no_duplicates());
            assert(s.unref().to_set() == self@);
        }
        for k in it: keys_iter
            invariant
                r@.len() == it.index(),
                forall|i: int| 0 <= i < it.index() ==> (#[trigger] r@[i]).0 == *it.seq()[i],
        {
            r.push((*k, ()));
        }
        proof {
            assert(r@.len() == s.len());
            assert forall|i: int| 0 <= i < r@.len() implies self.entries().contains_key(
                #[trigger] r@[i].0,
            ) && self.entries()[r@[i].0] == r@[i].1 by {
                assert(s.unref()[i] == *s[i]);
                assert(s.unref().to_set().contains(s.unref()[i]));
            }
            assert forall|i: int, j: int| 0 <= i < j < r@.len() implies r@[i].0 != r@[j].0 by {
                if r@[i].0 == r@[j].0 {
                    assert(s[i] == s[j]);
                }
            }
            assert forall|k: K| self.entries().contains_key(k) implies exists|i: int|
                0 <= i < r@.len() && #[trigger] r@[i].0 == k by {
                assert(s.unref().to_set().contains(k));
                let i = choose|i: int| 0 <= i < s.unref().len() && s.unref()[i] == k;
                assert(r@[i].0 == k);
            }
        }
        r
    }
}

impl<K: HashKey> IntoIter<K> for HashSet<K> {
}

impl<K: HashKey, DC: Keyed<Key = K, Item = ()> + IntoIter<K>> ApplyDelta<DC> for HashSet<K> {
    open spec fn delta_applied(&self, delta: Delta<DC>, after: Self) -> bool {
        after.entries() == apply_entries(
            self.entries(),
            delta.removed.entries(),
            delta.inserted.entries(),
        )
    }

    fn apply_delta(&mut self, delta: Delta<DC>) {
        apply_delta_on_map(self, delta);
    }
}

/// A hash map applies a delta entry by entry.
pub proof fn lemma_hashmap_applies_entrywise<
    K: HashKey,
    V: Copy,
    DC: Keyed<Key = K, Item = V> + IntoIter<K>,
>()
    ensures
        applies_entrywise::<K, V, HashMap<K, V>, DC>(),
{
}

/// A hash set applies a delta entry by entry.
pub proof fn lemma_hashset_applies_entrywise<
    K: HashKey,
    DC: Keyed<Key = K, Item = ()> + IntoIter<K>,
>()
    ensures
        applies_entrywise::<K, (), HashSet<K>, DC>(),
{
}

} // verus!
