use std::collections::{BTreeMap, BTreeSet};

use vstd::prelude::*;
use vstd::std_specs::iter::IteratorSpec;

use crate::key::OrdKey;

verus! {

/// The entries of a sequence, seen as a map from indices to elements.
pub open spec fn seq_entries<V>(s: Seq<V>) -> Map<usize, V> {
    Map::new(|i: usize| i < s.len(), |i: usize| s[i as int])
}

/// `v` lists every entry of `m` exactly once, in any order.
pub open spec fn lists_entries<K, V>(v: Seq<(K, V)>, m: Map<K, V>) -> bool {
    &&& forall|i: int, j: int| 0 <= i < j < v.len() ==> v[i].0 != v[j].0
    &&& forall|i: int|
        0 <= i < v.len() ==> m.contains_key(#[trigger] v[i].0) && m[v[i].0] == v[i].1
    &&& forall|k: K| m.contains_key(k) ==> exists|i: int| 0 <= i < v.len() && #[trigger] v[i].0 == k
}

/// A collection of items.
pub trait Collection {
    /// Type of the items in the collection.
    type Item;
}

/// A collection whose items are reached by keys.
pub trait Keyed: Collection {
    /// Type of the keys.
    type Key;

    /// The collection seen as a map from keys to items.
    spec fn entries(&self) -> Map<Self::Key, Self::Item>;
}

/// Get the item under a key.
pub trait Get<K>: Keyed<Key = K> {
    /// Returns a reference to the item under `key`, if there is one.
    fn get(&self, key: &K) -> (r: Option<&Self::Item>)
        ensures
            match r {
                Some(v) => self.entries().contains_key(*key) && self.entries()[*key] == *v,
                None => !self.entries().contains_key(*key),
            },
    ;
}

/// Set the item under a key that the collection can hold.
pub trait SetAt<K>: Keyed<Key = K> {
    /// What setting an item hands back.
    type Output;

    /// Whether `set` accepts `key`.
    spec fn settable(&self, key: K) -> bool;

    /// `out` is what setting the item under `key` hands back where the
    /// entries were `before`.
    spec fn set_output(before: Map<K, Self::Item>, key: K, out: Self::Output) -> bool;

    /// Set the item under `key` to `value`.
    fn set(&mut self, key: K, value: Self::Item) -> (out: Self::Output)
        requires
            old(self).settable(key),
        ensures
            final(self).entries() == old(self).entries().insert(key, value),
            Self::set_output(old(self).entries(), key, out),
    ;
}

/// Modify the item under a key with a closure.
pub trait Modify<K>: Keyed<Key = K> {
    /// Call `f` on the item under `key`, which must be there.
    fn modify<F: FnMut(&mut Self::Item)>(&mut self, key: &K, f: F)
        requires
            old(self).entries().contains_key(*key),
            forall|v: &mut Self::Item| call_requires(f, (v,)),
        ensures
            exists|v: &mut Self::Item|
                *v == old(self).entries()[*key] && #[trigger] call_ensures(f, (v,), ())
                    && final(self).entries() == old(self).entries().insert(*key, *final(v)),
    ;
}

/// Insert an item under an arbitrary key.
pub trait Insert<K>: Keyed<Key = K> {
    /// What an insertion hands back.
    type Output;

    /// `out` is what inserting under `key` hands back where the entries were
    /// `before`.
    spec fn insert_output(before: Map<K, Self::Item>, key: K, out: Self::Output) -> bool;

    /// Insert `value` under `key`, replacing any item already there.
    fn insert(&mut self, key: K, value: Self::Item) -> (out: Self::Output)
        ensures
            final(self).entries() == old(self).entries().insert(key, value),
            Self::insert_output(old(self).entries(), key, out),
    ;
}

/// `out` is the item that was under `key` in `before`, if there was one.
pub open spec fn replaced<K, V>(before: Map<K, V>, key: K, out: Option<V>) -> bool {
    match out {
        Some(v) => before.contains_key(key) && before[key] == v,
        None => !before.contains_key(key),
    }
}

/// Remove the item under a key.
pub trait Remove<K>: Keyed<Key = K> {
    /// Remove the item under `key`, returning it if there was one.
    fn remove(&mut self, key: &K) -> (r: Option<Self::Item>)
        ensures
            final(self).entries() == old(self).entries().remove(*key),
            match r {
                Some(v) => old(self).entries().contains_key(*key) && old(self).entries()[*key] == v,
                None => !old(self).entries().contains_key(*key),
            },
    ;
}

/// Insert an item under a key that the collection picks.
pub trait Push<K>: Keyed<Key = K> {
    /// Insert `value` under a fresh key and return that key.
    fn push(&mut self, value: Self::Item) -> (key: K)
        ensures
            !old(self).entries().contains_key(key),
            final(self).entries() == old(self).entries().insert(key, value),
    ;
}

/// Remove every item.
pub trait Clear: Keyed {
    /// Remove every item.
    fn clear(&mut self)
        ensures
            final(self).entries() == Map::<Self::Key, Self::Item>::empty(),
    ;
}

/// List the entries of a collection.
pub trait Iter<K>: Keyed<Key = K> {
    /// The entries of the collection, each once, as key-item pairs.
    fn iter(&self) -> (r: Vec<(K, Self::Item)>)
        ensures
            lists_entries(r@, self.entries()),
    ;
}

/// Turn a collection into the list of its entries.
pub trait IntoIter<K>: Iter<K> + Sized {
    /// The entries of the collection, each once, as key-item pairs.
    fn into_iter(self) -> (r: Vec<(K, Self::Item)>)
        ensures
            lists_entries(r@, self.entries()),
    {
        self.iter()
    }
}

impl<K, V> Collection for BTreeMap<K, V> {
    type Item = V;
}

impl<K, V> Keyed for BTreeMap<K, V> {
    type Key = K;

    open spec fn entries(&self) -> Map<K, V> {
        self@
    }
}

impl<K: OrdKey, V> Get<K> for BTreeMap<K, V> {
    fn get(&self, key: &K) -> (r: Option<&V>) {
        proof {
            K::lemma_ord_laws();
        }
        BTreeMap::get(self, key)
    }
}

impl<K: OrdKey, V> SetAt<K> for BTreeMap<K, V> {
    type Output = Option<V>;

    open spec fn settable(&self, key: K) -> bool {
        true
    }

    open spec fn set_output(before: Map<K, V>, key: K, out: Option<V>) -> bool {
        replaced(before, key, out)
    }

    fn set(&mut self, key: K, value: V) -> (out: Option<V>) {
        proof {
            K::lemma_ord_laws();
        }
        BTreeMap::insert(self, key, value)
    }
}

impl<K: OrdKey, V> Insert<K> for BTreeMap<K, V> {
    type Output = Option<V>;

    open spec fn insert_output(before: Map<K, V>, key: K, out: Option<V>) -> bool {
        replaced(before, key, out)
    }

    fn insert(&mut self, key: K, value: V) -> (out: Option<V>) {
        proof {
            K::lemma_ord_laws();
        }
        BTreeMap::insert(self, key, value)
    }
}

impl<K: OrdKey, V> Remove<K> for BTreeMap<K, V> {
    fn remove(&mut self, key: &K) -> (r: Option<V>) {
        proof {
            K::lemma_ord_laws();
        }
        BTreeMap::remove(self, key)
    }
}

impl<K: OrdKey, V> Clear for BTreeMap<K, V> {
    fn clear(&mut self) {
        BTreeMap::clear(self);
    }
}

impl<K: OrdKey, V: Copy> Iter<K> for BTreeMap<K, V> {
    fn iter(&self) -> (r: Vec<(K, V)>) {
        proof {
            K::lemma_ord_laws();
        }
        let mut r: Vec<(K, V)> = Vec::new();
        let entries_iter = self.iter();
        let ghost s = entries_iter.remaining();
        proof {
            assert(s.no_duplicates());
        }
        for kv in it: entries_iter
            invariant
                r@.len() == it.index(),
                forall|i: int|
                    0 <= i < it.index() ==> (#[trigger] r@[i]).0 == *it.seq()[i].0 && r@[i].1
                        == *it.seq()[i].1,
        {
            let (k, v) = kv;
            r.push((*k, *v));
        }
        proof {
            assert(r@.len() == s.len());
            assert forall|i: int, j: int| 0 <= i < j < r@.len() implies r@[i].0 != r@[j].0 by {
                if r@[i].0 == r@[j].0 {
                    assert(self@.contains_key(*s[i].0) && self@[*s[i].0] == *s[i].1);
                    assert(self@.contains_key(*s[j].0) && self@[*s[j].0] == *s[j].1);
                    assert(s[i] == s[j]);
                }
            }
            assert forall|k: K| self@.contains_key(k) implies exists|i: int|
                0 <= i < r@.len() && #[trigger] r@[i].0 == k by {
                assert(s.contains((&k, &self@[k])));
                let i = choose|i: int| 0 <= i < s.len() && s[i] == (&k, &self@[k]);
                assert(r@[i].0 == k);
            }
        }
        r
    }
}

impl<K> Collection for BTreeSet<K> {
    type Item = ();
}

impl<K> Keyed for BTreeSet<K> {
    type Key = K;

    open spec fn entries(&self) -> Map<K, ()> {
        Map::new(|k: K| self@.contains(k), |k: K| ())
    }
}

impl<K: OrdKey> Get<K> for BTreeSet<K> {
    fn get(&self, key: &K) -> (r: Option<&()>) {
        proof {
            K::lemma_ord_laws();
        }
        if BTreeSet::contains(self, key) {
            Some(&())
        } else {
            None
        }
    }
}

impl<K: OrdKey> Insert<K> for BTreeSet<K> {
    type Output = bool;

    open spec fn insert_output(before: Map<K, ()>, key: K, out: bool) -> bool {
        out == !before.contains_key(key)
    }

    fn insert(&mut self, key: K, _value: ()) -> (out: bool) {
        proof {
            K::lemma_ord_laws();
        }
        let out = BTreeSet::insert(self, key);
        proof {
            assert(self.entries() =~= old(self).entries().insert(key, ()));
        }
        out
    }
}

impl<K: OrdKey> Remove<K> for BTreeSet<K> {
    fn remove(&mut self, key: &K) -> (r: Option<()>) {
        proof {
            K::lemma_ord_laws();
        }
        let removed = BTreeSet::remove(self, key);
        proof {
            assert(self.entries() =~= old(self).entries().remove(*key));
        }
        if removed {
            Some(())
        } else {
            None
        }
    }
}

impl<K: OrdKey> Clear for BTreeSet<K> {
    fn clear(&mut self) {
        BTreeSet::clear(self);
        proof {
            assert(self.entries() =~= Map::<K, ()>::empty());
        }
    }
}

impl<V> Collection for Vec<V> {
    type Item = V;
}

impl<V> Keyed for Vec<V> {
    type Key = usize;

    open spec fn entries(&self) -> Map<usize, V> {
        seq_entries(self@)
    }
}

impl<V> Get<usize> for Vec<V> {
    fn get(&self, index: &usize) -> (r: Option<&V>) {
        if *index < self.len() {
            Some(&self[*index])
        } else {
            None
        }
    }
}

impl<V> SetAt<usize> for Vec<V> {
    type Output = ();

    open spec fn settable(&self, key: usize) -> bool {
        key < self@.len()
    }

    open spec fn set_output(before: Map<usize, V>, key: usize, out: ()) -> bool {
        true
    }

    fn set(&mut self, index: usize, value: V) {
        self[index] = value;
        proof {
            assert(self.entries() =~= old(self).entries().insert(index, value));
        }
    }
}

impl<V> Push<usize> for Vec<V> {
    fn push(&mut self, value: V) -> (key: usize) {
        let key = self.len();
        Vec::push(self, value);
        proof {
            assert(self.entries() =~= old(self).entries().insert(key, value));
        }
        key
    }
}

/// What a push does to a vector: the fresh key it hands back is the old
/// length, and the new vector is the old one with the value appended.
pub proof fn lemma_vec_push_key<V>(before: Seq<V>, after: Seq<V>, key: usize, value: V)
    requires
        after.len() <= usize::MAX,
        !seq_entries(before).contains_key(key),
        seq_entries(after) == seq_entries(before).insert(key, value),
    ensures
        key == before.len(),
        after == before.push(value),
{
    assert(seq_entries(after).contains_key(key));
    let n = before.len() as usize;
    assert(seq_entries(after).contains_key(n));
    if after.len() > before.len() + 1 {
        let m = (before.len() + 1) as usize;
        assert(seq_entries(after).contains_key(m));
    }
    assert forall|i: int| 0 <= i < after.len() implies after[i] == before.push(value)[i] by {
        assert(seq_entries(after)[i as usize] == after[i]);
        if i < before.len() {
            assert(seq_entries(before).contains_key(i as usize));
        }
    }
    assert(after =~= before.push(value));
}

impl<V> Clear for Vec<V> {
    fn clear(&mut self) {
        Vec::clear(self);
        proof {
            assert(self.entries() =~= Map::<usize, V>::empty());
        }
    }
}

impl<V: Copy> Iter<usize> for Vec<V> {
    fn iter(&self) -> (r: Vec<(usize, V)>) {
        let mut r: Vec<(usize, V)> = Vec::new();
        let mut i: usize = 0;
        while i < self.len()
            invariant
                i <= self@.len(),
                r@.len() == i,
                forall|j: int| 0 <= j < i ==> (#[trigger] r@[j]) == (j as usize, self@[j]),
            decreases self@.len() - i,
        {
            r.push((i, self[i]));
            i = i + 1;
        }
        proof {
            assert forall|k: usize| self.entries().contains_key(k) implies exists|j: int|
                0 <= j < r@.len() && #[trigger] r@[j].0 == k by {
                assert(r@[k as int].0 == k);
            }
        }
        r
    }
}

impl<V> Collection for Option<V> {
    type Item = V;
}

impl<V> Keyed for Option<V> {
    type Key = usize;

    open spec fn entries(&self) -> Map<usize, V> {
        match self {
            Some(v) => Map::empty().insert(0usize, *v),
            None => Map::empty(),
        }
    }
}

impl<V> Get<usize> for Option<V> {
    fn get(&self, index: &usize) -> (r: Option<&V>) {
        match self {
            Some(v) => {
                if *index == 0 {
                    Some(v)
                } else {
                    None
                }
            },
            None => None,
        }
    }
}

impl<V> SetAt<usize> for Option<V> {
    type Output = Option<V>;

    open spec fn settable(&self, key: usize) -> bool {
        key == 0
    }

    open spec fn set_output(before: Map<usize, V>, key: usize, out: Option<V>) -> bool {
        replaced(before, key, out)
    }

    fn set(&mut self, index: usize, value: V) -> (out: Option<V>) {
        let mut out = Some(value);
        std::mem::swap(self, &mut out);
        proof {
            assert(self.entries() =~= old(self).entries().insert(index, value));
        }
        out
    }
}

impl<V> Remove<usize> for Option<V> {
    fn remove(&mut self, index: &usize) -> (r: Option<V>) {
        if *index == 0 {
            let r = self.take();
            proof {
                assert(self.entries() =~= old(self).entries().remove(*index));
            }
            r
        } else {
            proof {
                assert(self.entries() =~= old(self).entries().remove(*index));
            }
            None
        }
    }
}

impl<V> Clear for Option<V> {
    fn clear(&mut self) {
        *self = None;
    }
}

impl<V: Copy> Iter<usize> for Option<V> {
    fn iter(&self) -> (r: Vec<(usize, V)>) {
        let mut r: Vec<(usize, V)> = Vec::new();
        if let Some(v) = self {
            r.push((0, *v));
        }
        proof {
            if self.is_some() {
                assert forall|k: usize| self.entries().contains_key(k) implies exists|j: int|
                    0 <= j < r@.len() && #[trigger] r@[j].0 == k by {
                    assert(r@[0].0 == k);
                }
            }
        }
        r
    }
}

impl<V> Collection for Box<V> {
    type Item = V;
}

impl<V> Keyed for Box<V> {
    type Key = usize;

    open spec fn entries(&self) -> Map<usize, V> {
        Map::empty().insert(0usize, **self)
    }
}

impl<V> Get<usize> for Box<V> {
    fn get(&self, index: &usize) -> (r: Option<&V>) {
        if *index == 0 {
            Some(&**self)
        } else {
            None
        }
    }
}

impl<V> SetAt<usize> for Box<V> {
    type Output = Option<V>;

    open spec fn settable(&self, key: usize) -> bool {
        key == 0
    }

    open spec fn set_output(before: Map<usize, V>, key: usize, out: Option<V>) -> bool {
        replaced(before, key, out)
    }

    fn set(&mut self, index: usize, value: V) -> (out: Option<V>) {
        let mut previous = Box::new(value);
        std::mem::swap(self, &mut previous);
        proof {
            assert(self.entries() =~= old(self).entries().insert(index, value));
        }
        Some(*previous)
    }
}

impl<V: Copy> Iter<usize> for Box<V> {
    fn iter(&self) -> (r: Vec<(usize, V)>) {
        let mut r: Vec<(usize, V)> = Vec::new();
        r.push((0, **self));
        proof {
            assert forall|k: usize| self.entries().contains_key(k) implies exists|j: int|
                0 <= j < r@.len() && #[trigger] r@[j].0 == k by {
                assert(r@[0].0 == k);
            }
        }
        r
    }
}

impl<K: OrdKey, V: Copy> IntoIter<K> for BTreeMap<K, V> {

}

impl<V: Copy> IntoIter<usize> for Vec<V> {

}

impl<V: Copy> IntoIter<usize> for Option<V> {

}

impl<V: Copy> IntoIter<usize> for Box<V> {

}

impl<K: OrdKey, V> Modify<K> for BTreeMap<K, V> {
    fn modify<F: FnMut(&mut V)>(&mut self, key: &K, mut f: F) {
        proof {
            K::lemma_ord_laws();
        }
        let mut value = BTreeMap::remove(self, key).unwrap();
        f(&mut value);
        BTreeMap::insert(self, *key, value);
    }
}

impl<V> Modify<usize> for Vec<V> {
    fn modify<F: FnMut(&mut V)>(&mut self, index: &usize, mut f: F) {
        f(&mut self[*index]);
        proof {
            assert(self.entries() =~= old(self).entries().insert(*index, self@[*index as int]));
        }
    }
}

impl<V> Modify<usize> for Option<V> {
    fn modify<F: FnMut(&mut V)>(&mut self, _index: &usize, mut f: F) {
        match self {
            Some(value) => f(value),
            None => {},
        }
    }
}

impl<V: Copy> Modify<usize> for Box<V> {
    fn modify<F: FnMut(&mut V)>(&mut self, _index: &usize, mut f: F) {
        let mut value = **self;
        f(&mut value);
        *self = Box::new(value);
    }
}

impl<K: OrdKey> Iter<K> for BTreeSet<K> {
    fn iter(&self) -> (r: Vec<(K, ())>) {
        proof {
            K::lemma_ord_laws();
        }
        let mut r: Vec<(K, ())> = Vec::new();
        let keys_iter = self.iter();
        let ghost s = keys_iter.remaining();
        proof {
            assert(s.no_duplicates());
            assert(s.unref().to_set() == self@);
        }
        for k in it: keys_iter
            invariant
                r@.len() == it.index(),
                forall|i: int| 0 <= i < it.index() ==> (#[trigger] r@[i]).0 == *it.seq()[i],
        {
            r.push((*k, ()));
        }
        proof {
            assert(r@.len() == s.len());
            assert forall|i: int| 0 <= i < r@.len() implies self.entries().contains_key(
                #[trigger] r@[i].0,
            ) && self.entries()[r@[i].0] == r@[i].1 by {
                assert(s.unref()[i] == *s[i]);
                assert(s.unref().to_set().contains(s.unref()[i]));
            }
            assert forall|i: int, j: int| 0 <= i < j < r@.len() implies r@[i].0 != r@[j].0 by {
                if r@[i].0 == r@[j].0 {
                    assert(s[i] == s[j]);
                }
            }
            assert forall|k: K| self.entries().contains_key(k) implies exists|i: int|
                0 <= i < r@.len() && #[trigger] r@[i].0 == k by {
                assert(s.unref().to_set().contains(k));
                let i = choose|i: int| 0 <= i < s.unref().len() && s.unref()[i] == k;
                assert(r@[i].0 == k);
            }
        }
        r
    }
}

impl<K: OrdKey> IntoIter<K> for BTreeSet<K> {
}

impl<V> Collection for std::rc::Rc<V> {
    type Item = V;
}

impl<V> Keyed for std::rc::Rc<V> {
    type Key = usize;

    open spec fn entries(&self) -> Map<usize, V> {
        Map::empty().insert(0usize, **self)
    }
}

impl<V> Get<usize> for std::rc::Rc<V> {
    fn get(&self, index: &usize) -> (r: Option<&V>) {
        if *index == 0 {
            Some(&**self)
        } else {
            None
        }
    }
}

impl<V: Copy> SetAt<usize> for std::rc::Rc<V> {
    type Output = Option<V>;

    open spec fn settable(&self, key: usize) -> bool {
        key == 0
    }

    open spec fn set_output(before: Map<usize, V>, key: usize, out: Option<V>) -> bool {
        replaced(before, key, out)
    }

    fn set(&mut self, index: usize, value: V) -> (out: Option<V>) {
        let previous: V = **self;
        *self = std::rc::Rc::new(value);
        proof {
            assert(self.entries() =~= old(self).entries().insert(index, value));
        }
        Some(previous)
    }
}

impl<V> Collection for std::sync::Arc<V> {
    type Item = V;
}

impl<V> Keyed for std::sync::Arc<V> {
    type Key = usize;

    open spec fn entries(&self) -> Map<usize, V> {
        Map::empty().insert(0usize, **self)
    }
}

impl<V> Get<usize> for std::sync::Arc<V> {
    fn get(&self, index: &usize) -> (r: Option<&V>) {
        if *index == 0 {
            Some(&**self)
        } else {
            None
        }
    }
}

impl<V: Copy> SetAt<usize> for std::sync::Arc<V> {
    type Output = Option<V>;

    open spec fn settable(&self, key: usize) -> bool {
        key == 0
    }

    open spec fn set_output(before: Map<usize, V>, key: usize, out: Option<V>) -> bool {
        replaced(before, key, out)
    }

    fn set(&mut self, index: usize, value: V) -> (out: Option<V>) {
        let previous: V = **self;
        *self = std::sync::Arc::new(value);
        proof {
            assert(self.entries() =~= old(self).entries().insert(index, value));
        }
        Some(previous)
    }
}

impl Collection for i8 {
    type Item = i8;
}

impl Keyed for i8 {
    type Key = usize;

    open spec fn entries(&self) -> Map<usize, i8> {
        Map::empty().insert(0usize, *self)
    }
}

impl Get<usize> for i8 {
    fn get(&self, index: &usize) -> (r: Option<&i8>) {
        if *index == 0 {
            Some(self)
        } else {
            None
        }
    }
}

impl SetAt<usize> for i8 {
    type Output = Option<i8>;

    open spec fn settable(&self, key: usize) -> bool {
        key == 0
    }

    open spec fn set_output(before: Map<usize, i8>, key: usize, out: Option<i8>) -> bool {
        replaced(before, key, out)
    }

    fn set(&mut self, index: usize, value: i8) -> (out: Option<i8>) {
        let previous = *self;
        *self = value;
        proof {
            assert(self.entries() =~= old(self).entries().insert(index, value));
        }
        Some(previous)
    }
}

impl Collection for i16 {
    type Item = i16;
}

impl Keyed for i16 {
    type Key = usize;

    open spec fn entries(&self) -> Map<usize, i16> {
        Map::empty().insert(0usize, *self)
    }
}

impl Get<usize> for i16 {
    fn get(&self, index: &usize) -> (r: Option<&i16>) {
        if *index == 0 {
            Some(self)
        } else {
            None
        }
    }
}

impl SetAt<usize> for i16 {
    type Output = Option<i16>;

    open spec fn settable(&self, key: usize) -> bool {
        key == 0
    }

    open spec fn set_output(before: Map<usize, i16>, key: usize, out: Option<i16>) -> bool {
        replaced(before, key, out)
    }

    fn set(&mut self, index: usize, value: i16) -> (out: Option<i16>) {
        let previous = *self;
        *self = value;
        proof {
            assert(self.entries() =~= old(self).entries().insert(index, value));
        }
        Some(previous)
    }
}

impl Collection for i32 {
    type Item = i32;
}

impl Keyed for i32 {
    type Key = usize;

    open spec fn entries(&self) -> Map<usize, i32> {
        Map::empty().insert(0usize, *self)
    }
}

impl Get<usize> for i32 {
    fn get(&self, index: &usize) -> (r: Option<&i32>) {
        if *index == 0 {
            Some(self)
        } else {
            None
        }
    }
}

impl SetAt<usize> for i32 {
    type Output = Option<i32>;

    open spec fn settable(&self, key: usize) -> bool {
        key == 0
    }

    open spec fn set_output(before: Map<usize, i32>, key: usize, out: Option<i32>) -> bool {
        replaced(before, key, out)
    }

    fn set(&mut self, index: usize, value: i32) -> (out: Option<i32>) {
        let previous = *self;
        *self = value;
        proof {
            assert(self.entries() =~= old(self).entries().insert(index, value));
        }
        Some(previous)
    }
}

impl Collection for i64 {
    type Item = i64;
}

impl Keyed for i64 {
    type Key = usize;

    open spec fn entries(&self) -> Map<usize, i64> {
        Map::empty().insert(0usize, *self)
    }
}

impl Get<usize> for i64 {
    fn get(&self, index: &usize) -> (r: Option<&i64>) {
        if *index == 0 {
            Some(self)
        } else {
            None
        }
    }
}

impl SetAt<usize> for i64 {
    type Output = Option<i64>;

    open spec fn settable(&self, key: usize) -> bool {
        key == 0
    }

    open spec fn set_output(before: Map<usize, i64>, key: usize, out: Option<i64>) -> bool {
        replaced(before, key, out)
    }

    fn set(&mut self, index: usize, value: i64) -> (out: Option<i64>) {
        let previous = *self;
        *self = value;
        proof {
            assert(self.entries() =~= old(self).entries().insert(index, value));
        }
        Some(previous)
    }
}

impl Collection for i128 {
    type Item = i128;
}

impl Keyed for i128 {
    type Key = usize;

    open spec fn entries(&self) -> Map<usize, i128> {
        Map::empty().insert(0usize, *self)
    }
}

impl Get<usize> for i128 {
    fn get(&self, index: &usize) -> (r: Option<&i128>) {
        if *index == 0 {
            Some(self)
        } else {
            None
        }
    }
}

impl SetAt<usize> for i128 {
    type Output = Option<i128>;

    open spec fn settable(&self, key: usize) -> bool {
        key == 0
    }

    open spec fn set_output(before: Map<usize, i128>, key: usize, out: Option<i128>) -> bool {
        replaced(before, key, out)
    }

    fn set(&mut self, index: usize, value: i128) -> (out: Option<i128>) {
        let previous = *self;
        *self = value;
        proof {
            assert(self.entries() =~= old(self).entries().insert(index, value));
        }
        Some(previous)
    }
}

impl Collection for isize {
    type Item = isize;
}

impl Keyed for isize {
    type Key = usize;

    open spec fn entries(&self) -> Map<usize, isize> {
        Map::empty().insert(0usize, *self)
    }
}

impl Get<usize> for isize {
    fn get(&self, index: &usize) -> (r: Option<&isize>) {
        if *index == 0 {
            Some(self)
        } else {
            None
        }
    }
}

impl SetAt<usize> for isize {
    type Output = Option<isize>;

    open spec fn settable(&self, key: usize) -> bool {
        key == 0
    }

    open spec fn set_output(before: Map<usize, isize>, key: usize, out: Option<isize>) -> bool {
        replaced(before, key, out)
    }

    fn set(&mut self, index: usize, value: isize) -> (out: Option<isize>) {
        let previous = *self;
        *self = value;
        proof {
            assert(self.entries() =~= old(self).entries().insert(index, value));
        }
        Some(previous)
    }
}

impl Collection for u8 {
    type Item = u8;
}

impl Keyed for u8 {
    type Key = usize;

    open spec fn entries(&self) -> Map<usize, u8> {
        Map::empty().insert(0usize, *self)
    }
}

impl Get<usize> for u8 {
    fn get(&self, index: &usize) -> (r: Option<&u8>) {
        if *index == 0 {
            Some(self)
        } else {
            None
        }
    }
}

impl SetAt<usize> for u8 {
    type Output = Option<u8>;

    open spec fn settable(&self, key: usize) -> bool {
        key == 0
    }

    open spec fn set_output(before: Map<usize, u8>, key: usize, out: Option<u8>) -> bool {
        replaced(before, key, out)
    }

    fn set(&mut self, index: usize, value: u8) -> (out: Option<u8>) {
        let previous = *self;
        *self = value;
        proof {
            assert(self.entries() =~= old(self).entries().insert(index, value));
        }
        Some(previous)
    }
}

impl Collection for u16 {
    type Item = u16;
}

impl Keyed for u16 {
    type Key = usize;

    open spec fn entries(&self) -> Map<usize, u16> {
        Map::empty().insert(0usize, *self)
    }
}

impl Get<usize> for u16 {
    fn get(&self, index: &usize) -> (r: Option<&u16>) {
        if *index == 0 {
            Some(self)
        } else {
            None
        }
    }
}

impl SetAt<usize> for u16 {
    type Output = Option<u16>;

    open spec fn settable(&self, key: usize) -> bool {
        key == 0
    }

    open spec fn set_output(before: Map<usize, u16>, key: usize, out: Option<u16>) -> bool {
        replaced(before, key, out)
    }

    fn set(&mut self, index: usize, value: u16) -> (out: Option<u16>) {
        let previous = *self;
        *self = value;
        proof {
            assert(self.entries() =~= old(self).entries().insert(index, value));
        }
        Some(previous)
    }
}

impl Collection for u32 {
    type Item = u32;
}

impl Keyed for u32 {
    type Key = usize;

    open spec fn entries(&self) -> Map<usize, u32> {
        Map::empty().insert(0usize, *self)
    }
}

impl Get<usize> for u32 {
    fn get(&self, index: &usize) -> (r: Option<&u32>) {
        if *index == 0 {
            Some(self)
        } else {
            None
        }
    }
}

impl SetAt<usize> for u32 {
    type Output = Option<u32>;

    open spec fn settable(&self, key: usize) -> bool {
        key == 0
    }

    open spec fn set_output(before: Map<usize, u32>, key: usize, out: Option<u32>) -> bool {
        replaced(before, key, out)
    }

    fn set(&mut self, index: usize, value: u32) -> (out: Option<u32>) {
        let previous = *self;
        *self = value;
        proof {
            assert(self.entries() =~= old(self).entries().insert(index, value));
        }
        Some(previous)
    }
}

impl Collection for u64 {
    type Item = u64;
}

impl Keyed for u64 {
    type Key = usize;

    open spec fn entries(&self) -> Map<usize, u64> {
        Map::empty().insert(0usize, *self)
    }
}

impl Get<usize> for u64 {
    fn get(&self, index: &usize) -> (r: Option<&u64>) {
        if *index == 0 {
            Some(self)
        } else {
            None
        }
    }
}

impl SetAt<usize> for u64 {
    type Output = Option<u64>;

    open spec fn settable(&self, key: usize) -> bool {
        key == 0
    }

    open spec fn set_output(before: Map<usize, u64>, key: usize, out: Option<u64>) -> bool {
        replaced(before, key, out)
    }

    fn set(&mut self, index: usize, value: u64) -> (out: Option<u64>) {
        let previous = *self;
        *self = value;
        proof {
            assert(self.entries() =~= old(self).entries().insert(index, value));
        }
        Some(previous)
    }
}

impl Collection for u128 {
    type Item = u128;
}

impl Keyed for u128 {
    type Key = usize;

    open spec fn entries(&self) -> Map<usize, u128> {
        Map::empty().insert(0usize, *self)
    }
}

impl Get<usize> for u128 {
    fn get(&self, index: &usize) -> (r: Option<&u128>) {
        if *index == 0 {
            Some(self)
        } else {
            None
        }
    }
}

impl SetAt<usize> for u128 {
    type Output = Option<u128>;

    open spec fn settable(&self, key: usize) -> bool {
        key == 0
    }

    open spec fn set_output(before: Map<usize, u128>, key: usize, out: Option<u128>) -> bool {
        replaced(before, key, out)
    }

    fn set(&mut self, index: usize, value: u128) -> (out: Option<u128>) {
        let previous = *self;
        *self = value;
        proof {
            assert(self.entries() =~= old(self).entries().insert(index, value));
        }
        Some(previous)
    }
}

impl Collection for usize {
    type Item = usize;
}

impl Keyed for usize {
    type Key = usize;

    open spec fn entries(&self) -> Map<usize, usize> {
        Map::empty().insert(0usize, *self)
    }
}

impl Get<usize> for usize {
    fn get(&self, index: &usize) -> (r: Option<&usize>) {
        if *index == 0 {
            Some(self)
        } else {
            None
        }
    }
}

impl SetAt<usize> for usize {
    type Output = Option<usize>;

    open spec fn settable(&self, key: usize) -> bool {
        key == 0
    }

    open spec fn set_output(before: Map<usize, usize>, key: usize, out: Option<usize>) -> bool {
        replaced(before, key, out)
    }

    fn set(&mut self, index: usize, value: usize) -> (out: Option<usize>) {
        let previous = *self;
        *self = value;
        proof {
            assert(self.entries() =~= old(self).entries().insert(index, value));
        }
        Some(previous)
    }
}

impl Collection for char {
    type Item = char;
}

impl Keyed for char {
    type Key = usize;

    open spec fn entries(&self) -> Map<usize, char> {
        Map::empty().insert(0usize, *self)
    }
}

impl Get<usize> for char {
    fn get(&self, index: &usize) -> (r: Option<&char>) {
        if *index == 0 {
            Some(self)
        } else {
            None
        }
    }
}

impl SetAt<usize> for char {
    type Output = Option<char>;

    open spec fn settable(&self, key: usize) -> bool {
        key == 0
    }

    open spec fn set_output(before: Map<usize, char>, key: usize, out: Option<char>) -> bool {
        replaced(before, key, out)
    }

    fn set(&mut self, index: usize, value: char) -> (out: Option<char>) {
        let previous = *self;
        *self = value;
        proof {
            assert(self.entries() =~= old(self).entries().insert(index, value));
        }
        Some(previous)
    }
}

impl Collection for bool {
    type Item = bool;
}

impl Keyed for bool {
    type Key = usize;

    open spec fn entries(&self) -> Map<usize, bool> {
        Map::empty().insert(0usize, *self)
    }
}

impl Get<usize> for bool {
    fn get(&self, index: &usize) -> (r: Option<&bool>) {
        if *index == 0 {
            Some(self)
        } else {
            None
        }
    }
}

impl SetAt<usize> for bool {
    type Output = Option<bool>;

    open spec fn settable(&self, key: usize) -> bool {
        key == 0
    }

    open spec fn set_output(before: Map<usize, bool>, key: usize, out: Option<bool>) -> bool {
        replaced(before, key, out)
    }

    fn set(&mut self, index: usize, value: bool) -> (out: Option<bool>) {
        let previous = *self;
        *self = value;
        proof {
            assert(self.entries() =~= old(self).entries().insert(index, value));
        }
        Some(previous)
    }
}

impl Collection for () {
    type Item = ();
}

impl Keyed for () {
    type Key = usize;

    open spec fn entries(&self) -> Map<usize, ()> {
        Map::empty().insert(0usize, *self)
    }
}

impl Get<usize> for () {
    fn get(&self, index: &usize) -> (r: Option<&()>) {
        if *index == 0 {
            Some(self)
        } else {
            None
        }
    }
}

impl SetAt<usize> for () {
    type Output = Option<()>;

    open spec fn settable(&self, key: usize) -> bool {
        key == 0
    }

    open spec fn set_output(before: Map<usize, ()>, key: usize, out: Option<()>) -> bool {
        replaced(before, key, out)
    }

    fn set(&mut self, index: usize, value: ()) -> (out: Option<()>) {
        let previous = *self;
        *self = value;
        proof {
            assert(self.entries() =~= old(self).entries().insert(index, value));
        }
        Some(previous)
    }
}

} // verus!
