//! Delta recording on `rstared::RTreed`, a collection decorated with an R-tree
//! over its items: here `RTreed<BTreeMap<i32, (i32, i32)>>`, points keyed by
//! `i32`. Verus cannot be told of `RTreed` itself (its type parameter is
//! bound by outside traits), so the library holds it in `RTreedPoints`.

use std::collections::BTreeMap;

use rstared::RTreed;
use vstd::prelude::*;

use crate::collection::{
    lists_entries, replaced, Collection, Get, Insert, IntoIter, Iter, Keyed, Remove,
};
use crate::delta::{apply_delta_on_map, apply_entries, ApplyDelta, Delta};

verus! {

/// An `RTreed<BTreeMap<i32, (i32, i32)>>`: points keyed by `i32`, indexed by
/// an R-tree.
#[verifier::external_body]
pub struct RTreedPoints {
    inner: RTreed<BTreeMap<i32, (i32, i32)>>,
}

/// The points of an `RTreedPoints`, by key.
pub uninterp spec fn rtreed_points(t: RTreedPoints) -> Map<i32, (i32, i32)>;

/// `RTreed::new` over an empty map: no points.
#[verifier::external_body]
fn rtreed_new() -> (r: RTreedPoints)
    ensures
        rtreed_points(r).dom() == Set::<i32>::empty(),
{
    RTreedPoints { inner: RTreed::new(BTreeMap::new()) }
}

/// `RTreed::get`: the point under `key`, if any.
#[verifier::external_body]
fn rtreed_get<'a>(t: &'a RTreedPoints, key: &i32) -> (r: Option<&'a (i32, i32)>)
    ensures
        match r {
            Some(v) => rtreed_points(*t).contains_key(*key) && *v == rtreed_points(*t)[*key],
            None => !rtreed_points(*t).contains_key(*key),
        },
{
    t.inner.get(key)
}

/// `RTreed::insert`: puts `value` under `key` in the map (and into the
/// R-tree) and hands back the point that was under `key`, if any. Of the
/// R-tree nothing is stated: `RTreed::insert` leaves a replaced point in it.
#[verifier::external_body]
fn rtreed_insert(t: &mut RTreedPoints, key: i32, value: (i32, i32)) -> (r: Option<(i32, i32)>)
    ensures
        rtreed_points(*final(t)) == rtreed_points(*old(t)).insert(key, value),
        replaced(rtreed_points(*old(t)), key, r),
{
    t.inner.insert(key, value)
}

/// `RTreed::remove`: takes the point under `key` out of the map (and out of
/// the R-tree) and hands it back, if there was one.
#[verifier::external_body]
fn rtreed_remove(t: &mut RTreedPoints, key: &i32) -> (r: Option<(i32, i32)>)
    ensures
        rtreed_points(*final(t)) == rtreed_points(*old(t)).remove(*key),
        replaced(rtreed_points(*old(t)), *key, r),
{
    t.inner.remove(key)
}

/// `BTreeMap::iter` on `RTreed::collection`: the keyed points, each once.
#[verifier::external_body]
fn rtreed_iter(t: &RTreedPoints) -> (r: Vec<(i32, (i32, i32))>)
    ensures
        lists_entries(r@, rtreed_points(*t)),
{
    t.inner.collection().iter().map(|(key, value)| (*key, *value)).collect()
}

impl RTreedPoints {
    /// A collection with no points.
    pub fn new() -> (r: Self)
        ensures
            rtreed_points(r) == Map::<i32, (i32, i32)>::empty(),
    {
        let r = rtreed_new();
        proof {
            assert(rtreed_points(r) =~= Map::<i32, (i32, i32)>::empty());
        }
        r
    }
}

impl Collection for RTreedPoints {
    type Item = (i32, i32);
}

impl Keyed for RTreedPoints {
    type Key = i32;

    open spec fn entries(&self) -> Map<i32, (i32, i32)> {
        rtreed_points(*self)
    }
}

impl Get<i32> for RTreedPoints {
    fn get(&self, key: &i32) -> (r: Option<&(i32, i32)>) {
        rtreed_get(self, key)
    }
}

impl Insert<i32> for RTreedPoints {
    type Output = Option<(i32, i32)>;

    open spec fn insert_output(before: Map<i32, (i32, i32)>, key: i32, out: Option<(i32, i32)>) -> bool {
        replaced(before, key, out)
    }

    fn insert(&mut self, key: i32, value: (i32, i32)) -> (out: Option<(i32, i32)>) {
        rtreed_insert(self, key, value)
    }
}

impl Remove<i32> for RTreedPoints {
    fn remove(&mut self, key: &i32) -> (r: Option<(i32, i32)>) {
        rtreed_remove(self, key)
    }
}

impl Iter<i32> for RTreedPoints {
    fn iter(&self) -> (r: Vec<(i32, (i32, i32))>) {
        rtreed_iter(self)
    }
}

impl IntoIter<i32> for RTreedPoints {

}

impl<DC: Keyed<Key = i32, Item = (i32, i32)> + IntoIter<i32>> ApplyDelta<DC> for RTreedPoints {
    open spec fn delta_applied(&self, delta: Delta<DC>, after: Self) -> bool {
        after.entries() == apply_entries(
            self.entries(),
            delta.removed.entries(),
            delta.inserted.entries(),
        )
    }

    fn apply_delta(&mut self, delta: Delta<DC>) {
        apply_delta_on_map(self, delta);
    }
}

} // verus!
