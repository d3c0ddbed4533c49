//! Delta recording on the insertion-ordered maps and sets of `indexmap`.

use indexmap::{IndexMap, IndexSet};
use vstd::prelude::*;

use crate::collection::{
    lists_entries, replaced, Clear, Collection, Get, Insert, IntoIter, Iter, Keyed, Remove, SetAt,
};
use crate::delta::{apply_delta_on_map, apply_entries, ApplyDelta, Delta};

verus! {

#[verifier::external_type_specification]
#[verifier::external_body]
#[verifier::reject_recursive_types(K)]
#[verifier::reject_recursive_types(V)]
#[verifier::reject_recursive_types(S)]
pub struct ExIndexMap<K, V, S>(IndexMap<K, V, S>);

#[verifier::external_type_specification]
#[verifier::external_body]
#[verifier::reject_recursive_types(T)]
#[verifier::reject_recursive_types(S)]
pub struct ExIndexSet<T, S>(IndexSet<T, S>);

/// The key-value pairs that an insertion-ordered map holds, read as a map.
pub uninterp spec fn index_map_pairs(m: IndexMap<u64, u64>) -> Map<u64, u64>;

/// The items that an insertion-ordered set holds.
pub uninterp spec fn index_set_items(s: IndexSet<u64>) -> Set<u64>;

/// `IndexMap::get`: the value under `key`, if any.
#[verifier::external_body]
pub(crate) fn index_map_get<'a>(m: &'a IndexMap<u64, u64>, key: &u64) -> (r: Option<&'a u64>)
    ensures
        match r {
            Some(v) => index_map_pairs(*m).contains_key(*key) && *v == index_map_pairs(*m)[*key],
            None => !index_map_pairs(*m).contains_key(*key),
        },
{
    m.get(key)
}

/// `IndexMap::insert`: puts `value` under `key` and hands back the value that
/// was there, if any.
#[verifier::external_body]
pub(crate) fn index_map_insert(m: &mut IndexMap<u64, u64>, key: u64, value: u64) -> (r: Option<u64>)
    ensures
        index_map_pairs(*final(m)) == index_map_pairs(*old(m)).insert(key, value),
        replaced(index_map_pairs(*old(m)), key, r),
{
    m.insert(key, value)
}

/// `IndexMap::shift_remove`: takes out the pair under `key` and hands back
/// its value, if there was one.
#[verifier::external_body]
pub(crate) fn index_map_shift_remove(m: &mut IndexMap<u64, u64>, key: &u64) -> (r: Option<u64>)
    ensures
        index_map_pairs(*final(m)) == index_map_pairs(*old(m)).remove(*key),
        replaced(index_map_pairs(*old(m)), *key, r),
{
    m.shift_remove(key)
}

/// `IndexMap::iter`: the pairs, each once.
#[verifier::external_body]
pub(crate) fn index_map_iter(m: &IndexMap<u64, u64>) -> (r: Vec<(u64, u64)>)
    ensures
        lists_entries(r@, index_map_pairs(*m)),
{
    m.iter().map(|(key, value)| (*key, *value)).collect()
}

/// `IndexMap::clear`: removes every pair.
#[verifier::external_body]
pub(crate) fn index_map_clear(m: &mut IndexMap<u64, u64>)
    ensures
        index_map_pairs(*final(m)).dom() == Set::<u64>::empty(),
{
    m.clear()
}

/// `IndexSet::contains`: whether `item` is held.
#[verifier::external_body]
pub(crate) fn index_set_contains(s: &IndexSet<u64>, item: &u64) -> (r: bool)
    ensures
        r == index_set_items(*s).contains(*item),
{
    s.contains(item)
}

/// `IndexSet::insert`: adds `item` and says whether it was new.
#[verifier::external_body]
pub(crate) fn index_set_insert(s: &mut IndexSet<u64>, item: u64) -> (r: bool)
    ensures
        index_set_items(*final(s)) == index_set_items(*old(s)).insert(item),
        r == !index_set_items(*old(s)).contains(item),
{
    s.insert(item)
}

/// `IndexSet::shift_remove`: takes out `item` and says whether it was held.
#[verifier::external_body]
pub(crate) fn index_set_shift_remove(s: &mut IndexSet<u64>, item: &u64) -> (r: bool)
    ensures
        index_set_items(*final(s)) == index_set_items(*old(s)).remove(*item),
        r == index_set_items(*old(s)).contains(*item),
{
    s.shift_remove(item)
}

/// `IndexSet::iter`: the items, each once.
#[verifier::external_body]
pub(crate) fn index_set_iter(s: &IndexSet<u64>) -> (r: Vec<u64>)
    ensures
        forall|i: int, j: int| 0 <= i < j < r@.len() ==> r@[i] != r@[j],
        forall|k: u64| #[trigger] index_set_items(*s).contains(k) <==> r@.contains(k),
{
    s.iter().copied().collect()
}

/// `IndexSet::clear`: removes every item.
#[verifier::external_body]
pub(crate) fn index_set_clear(s: &mut IndexSet<u64>)
    ensures
        index_set_items(*final(s)) == Set::<u64>::empty(),
{
    s.clear()
}

impl Collection for IndexMap<u64, u64> {
    type Item = u64;
}

impl Keyed for IndexMap<u64, u64> {
    type Key = u64;

    open spec fn entries(&self) -> Map<u64, u64> {
        index_map_pairs(*self)
    }
}

impl Get<u64> for IndexMap<u64, u64> {
    fn get(&self, key: &u64) -> (r: Option<&u64>) {
        index_map_get(self, key)
    }
}

impl Insert<u64> for IndexMap<u64, u64> {
    type Output = Option<u64>;

    open spec fn insert_output(before: Map<u64, u64>, key: u64, out: Option<u64>) -> bool {
        replaced(before, key, out)
    }

    fn insert(&mut self, key: u64, value: u64) -> (out: Option<u64>) {
        index_map_insert(self, key, value)
    }
}

impl SetAt<u64> for IndexMap<u64, u64> {
    type Output = Option<u64>;

    open spec fn settable(&self, key: u64) -> bool {
        true
    }

    open spec fn set_output(before: Map<u64, u64>, key: u64, out: Option<u64>) -> bool {
        replaced(before, key, out)
    }

    fn set(&mut self, key: u64, value: u64) -> (out: Option<u64>) {
        index_map_insert(self, key, value)
    }
}

impl Remove<u64> for IndexMap<u64, u64> {
    fn remove(&mut self, key: &u64) -> (r: Option<u64>) {
        index_map_shift_remove(self, key)
    }
}

impl Clear for IndexMap<u64, u64> {
    fn clear(&mut self) {
        index_map_clear(self);
    }
}

impl Iter<u64> for IndexMap<u64, u64> {
    fn iter(&self) -> (r: Vec<(u64, u64)>) {
        index_map_iter(self)
    }
}

impl IntoIter<u64> for IndexMap<u64, u64> {

}

impl<DC: Keyed<Key = u64, Item = u64> + IntoIter<u64>> ApplyDelta<DC> for IndexMap<u64, u64> {
    open spec fn delta_applied(&self, delta: Delta<DC>, after: Self) -> bool {
        after.entries() == apply_entries(
            self.entries(),
            delta.removed.entries(),
            delta.inserted.entries(),
        )
    }

    fn apply_delta(&mut self, delta: Delta<DC>) {
        apply_delta_on_map(self, delta);
    }
}

impl Collection for IndexSet<u64> {
    type Item = ();
}

impl Keyed for IndexSet<u64> {
    type Key = u64;

    open spec fn entries(&self) -> Map<u64, ()> {
        index_set_items(*self).mk_map(|k: u64| ())
    }
}

impl Get<u64> for IndexSet<u64> {
    fn get(&self, key: &u64) -> (r: Option<&()>) {
        if index_set_contains(self, key) {
            Some(&())
        } else {
            None
        }
    }
}

impl Insert<u64> for IndexSet<u64> {
    type Output = bool;

    open spec fn insert_output(before: Map<u64, ()>, key: u64, out: bool) -> bool {
        out == !before.contains_key(key)
    }

    fn insert(&mut self, key: u64, _value: ()) -> (out: bool) {
        let out = index_set_insert(self, key);
        proof {
            assert(self.entries() =~= old(self).entries().insert(key, ()));
        }
        out
    }
}

impl Remove<u64> for IndexSet<u64> {
    fn remove(&mut self, key: &u64) -> (r: Option<()>) {
        let held = index_set_shift_remove(self, key);
        proof {
            assert(self.entries() =~= old(self).entries().remove(*key));
        }
        if held {
            Some(())
        } else {
            None
        }
    }
}

impl Clear for IndexSet<u64> {
    fn clear(&mut self) {
        index_set_clear(self);
        proof {
            assert(self.entries() =~= Map::<u64, ()>::empty());
        }
    }
}

impl Iter<u64> for IndexSet<u64> {
    fn iter(&self) -> (r: Vec<(u64, ())>) {
        let items = index_set_iter(self);
        let mut r: Vec<(u64, ())> = Vec::new();
        let mut i: usize = 0;
        while i < items.len()
            invariant
                i <= items@.len(),
                r@.len() == i,
                forall|j: int| 0 <= j < i ==> (#[trigger] r@[j]) == (items@[j], ()),
            decreases items@.len() - i,
        {
            r.push((items[i], ()));
            i = i + 1;
        }
        proof {
            assert forall|k: u64| self.entries().contains_key(k) implies exists|j: int|
                0 <= j < r@.len() && #[trigger] r@[j].0 == k by {
                assert(items@.contains(k));
                let j = choose|j: int| 0 <= j < items@.len() && items@[j] == k;
                assert(r@[j].0 == k);
            }
            assert forall|j: int| 0 <= j < r@.len() implies self.entries().contains_key(
                #[trigger] r@[j].0,
            ) by {
                assert(items@.contains(items@[j]));
            }
        }
        r
    }
}

impl IntoIter<u64> for IndexSet<u64> {

}

impl<DC: Keyed<Key = u64, Item = ()> + IntoIter<u64>> ApplyDelta<DC> for IndexSet<u64> {
    open spec fn delta_applied(&self, delta: Delta<DC>, after: Self) -> bool {
        after.entries() == apply_entries(
            self.entries(),
            delta.removed.entries(),
            delta.inserted.entries(),
        )
    }

    fn apply_delta(&mut self, delta: Delta<DC>) {
        apply_delta_on_map(self, delta);
    }
}

} // verus!
