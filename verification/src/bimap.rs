//! Delta recording on bidirectional maps of `bidimap`.

use bidimap::{BiBTreeMap, BiHashMap};
use vstd::prelude::*;

use crate::collection::{lists_entries, Clear, Collection, Get, IntoIter, Iter, Keyed, Remove};
use crate::delta::{
    apply_entries, in_prefix, lemma_apply_reverse_restores, lemma_in_prefix_step, ApplyDelta, Delta,
    HalfDelta,
};
use crate::key::OrdKey;
use crate::recorder::{lemma_recorded_delta_replays, Recorder, ResetDelta};
use crate::undoredo::UndoRedo;

verus! {

#[verifier::external_type_specification]
#[verifier::external_body]
#[verifier::reject_recursive_types(L)]
#[verifier::reject_recursive_types(R)]
pub struct ExBiBTreeMap<L, R>(BiBTreeMap<L, R>);

/// The left-to-right pairs that a bidirectional map holds.
pub uninterp spec fn bimap_pairs(m: BiBTreeMap<u64, u64>) -> Map<u64, u64>;

/// What inserting the pair (`left`, `right`) makes of the pairs `m` of a
/// bidirectional map: the pairs with left value `left` or right value `right`
/// are removed, then the new pair is added.
pub open spec fn bimap_inserted(m: Map<u64, u64>, left: u64, right: u64) -> Map<u64, u64> {
    Map::new(
        |k: u64| k == left || (m.contains_key(k) && m[k] != right),
        |k: u64|
            if k == left {
                right
            } else {
                m[k]
            },
    )
}

/// The pairs that inserting a pair into a bidirectional map overwrote.
#[derive(Clone, Copy, Debug, PartialEq, Eq, Hash)]
pub enum Overwritten {
    /// Neither value was held.
    Neither,
    /// The left value was held, paired with another right value; that pair
    /// is handed back.
    Left(u64, u64),
    /// The right value was held, paired with another left value; that pair
    /// is handed back.
    Right(u64, u64),
    /// The very pair was held already, and is handed back.
    Pair(u64, u64),
    /// Both values were held, in two pairs: the one of the left value comes
    /// first, the one of the right value second.
    Both((u64, u64), (u64, u64)),
}

/// `out` is what inserting the pair (`left`, `right`) into a bidirectional
/// map with pairs `m` reports: the pair under `left` is taken out first, then
/// a pair holding `right` among those left.
pub open spec fn overwrites(m: Map<u64, u64>, left: u64, right: u64, out: Overwritten) -> bool {
    let rest = m.remove(left);
    let right_held = exists|k: u64| #[trigger] rest.contains_key(k) && rest[k] == right;
    match out {
        Overwritten::Neither => !m.contains_key(left) && !right_held,
        Overwritten::Left(l, r) => {
            &&& m.contains_key(left)
            &&& l == left
            &&& r == m[left]
            &&& r != right
            &&& !right_held
        },
        Overwritten::Right(l, r) => {
            &&& !m.contains_key(left)
            &&& rest.contains_key(l)
            &&& rest[l] == right
            &&& r == right
        },
        Overwritten::Pair(l, r) => {
            &&& m.contains_key(left)
            &&& l == left
            &&& r == m[left]
            &&& r == right
            &&& !right_held
        },
        Overwritten::Both(a, b) => {
            &&& m.contains_key(left)
            &&& a == (left, m[left])
            &&& rest.contains_key(b.0)
            &&& rest[b.0] == right
            &&& b.1 == right
        },
    }
}

/// `BiBTreeMap::get_by_left`: the right value paired with `left`, if any.
#[verifier::external_body]
pub(crate) fn bimap_get_by_left<'a>(m: &'a BiBTreeMap<u64, u64>, left: &u64) -> (r: Option<&'a u64>)
    ensures
        match r {
            Some(right) => bimap_pairs(*m).contains_key(*left) && *right == bimap_pairs(*m)[*left],
            None => !bimap_pairs(*m).contains_key(*left),
        },
{
    m.get_by_left(left)
}

/// `BiBTreeMap::get_by_right`: the left value paired with `right`, if any.
#[verifier::external_body]
pub(crate) fn bimap_get_by_right<'a>(m: &'a BiBTreeMap<u64, u64>, right: &u64) -> (r: Option<
    &'a u64,
>)
    ensures
        match r {
            Some(left) => bimap_pairs(*m).contains_key(*left) && bimap_pairs(*m)[*left] == *right,
            None => forall|k: u64| #[trigger]
                bimap_pairs(*m).contains_key(k) ==> bimap_pairs(*m)[k] != *right,
        },
{
    m.get_by_right(right)
}

/// `BiBTreeMap::remove_by_left`: removes the pair with left value `left` and
/// returns it, if there is one.
#[verifier::external_body]
pub(crate) fn bimap_remove_by_left(m: &mut BiBTreeMap<u64, u64>, left: &u64) -> (r: Option<
    (u64, u64),
>)
    ensures
        bimap_pairs(*final(m)) == bimap_pairs(*old(m)).remove(*left),
        r == (if bimap_pairs(*old(m)).contains_key(*left) {
            Some((*left, bimap_pairs(*old(m))[*left]))
        } else {
            None
        }),
{
    m.remove_by_left(left)
}

/// `BiBTreeMap::remove_by_right`: removes the pair with right value `right`
/// and returns it, if there is one.
#[verifier::external_body]
pub(crate) fn bimap_remove_by_right(m: &mut BiBTreeMap<u64, u64>, right: &u64) -> (r: Option<
    (u64, u64),
>)
    ensures
        match r {
            Some((left, value)) => {
                &&& value == *right
                &&& bimap_pairs(*old(m)).contains_key(left)
                &&& bimap_pairs(*old(m))[left] == *right
                &&& bimap_pairs(*final(m)) == bimap_pairs(*old(m)).remove(left)
            },
            None => {
                &&& forall|k: u64| #[trigger]
                    bimap_pairs(*old(m)).contains_key(k) ==> bimap_pairs(*old(m))[k] != *right
                &&& bimap_pairs(*final(m)) == bimap_pairs(*old(m))
            },
        },
{
    m.remove_by_right(right)
}

/// `BiBTreeMap::insert`: removes the pair with left value `left`, then one
/// with right value `right`, inserts the pair, and reports the pairs it
/// removed.
#[verifier::external_body]
pub(crate) fn bimap_insert(m: &mut BiBTreeMap<u64, u64>, left: u64, right: u64) -> (out: Overwritten)
    ensures
        bimap_pairs(*final(m)) == bimap_inserted(bimap_pairs(*old(m)), left, right),
        overwrites(bimap_pairs(*old(m)), left, right, out),
{
    match m.insert(left, right) {
        bidimap::Overwritten::Neither => Overwritten::Neither,
        bidimap::Overwritten::Left(l, r) => Overwritten::Left(l, r),
        bidimap::Overwritten::Right(l, r) => Overwritten::Right(l, r),
        bidimap::Overwritten::Pair(l, r) => Overwritten::Pair(l, r),
        bidimap::Overwritten::Both(a, b) => Overwritten::Both(a, b),
    }
}

/// `BiBTreeMap::iter`: the pairs, each once.
#[verifier::external_body]
pub(crate) fn bimap_iter(m: &BiBTreeMap<u64, u64>) -> (r: Vec<(u64, u64)>)
    ensures
        lists_entries(r@, bimap_pairs(*m)),
{
    m.iter().map(|(left, right)| (*left, *right)).collect()
}

/// `BiBTreeMap::clear`: removes every pair.
#[verifier::external_body]
pub(crate) fn bimap_clear(m: &mut BiBTreeMap<u64, u64>)
    ensures
        bimap_pairs(*final(m)).dom() == Set::<u64>::empty(),
{
    m.clear()
}

impl Collection for BiBTreeMap<u64, u64> {
    type Item = u64;
}

impl Keyed for BiBTreeMap<u64, u64> {
    type Key = u64;

    open spec fn entries(&self) -> Map<u64, u64> {
        bimap_pairs(*self)
    }
}

impl Get<u64> for BiBTreeMap<u64, u64> {
    fn get(&self, key: &u64) -> (r: Option<&u64>) {
        bimap_get_by_left(self, key)
    }
}

impl Remove<u64> for BiBTreeMap<u64, u64> {
    fn remove(&mut self, key: &u64) -> (r: Option<u64>) {
        match bimap_remove_by_left(self, key) {
            Some((_left, right)) => Some(right),
            None => None,
        }
    }
}

impl Clear for BiBTreeMap<u64, u64> {
    fn clear(&mut self) {
        bimap_clear(self);
    }
}

impl Iter<u64> for BiBTreeMap<u64, u64> {
    fn iter(&self) -> (r: Vec<(u64, u64)>) {
        bimap_iter(self)
    }
}

impl IntoIter<u64> for BiBTreeMap<u64, u64> {
}

/// A bidirectional map between `u64` left values and `u64` right values,
/// seen as a map from left values to right values.
pub trait Bimap: Keyed<Key = u64, Item = u64> + Get<u64> + Remove<u64> + Iter<u64> + Clear + Sized {
    /// The left value paired with `right`, if any.
    fn get_by_right(&self, right: &u64) -> (r: Option<&u64>)
        ensures
            match r {
                Some(left) => self.entries().contains_key(*left) && self.entries()[*left] == *right,
                None => forall|k: u64| #[trigger]
                    self.entries().contains_key(k) ==> self.entries()[k] != *right,
            },
    ;

    /// Removes the pair with right value `right` and returns it, if there is
    /// one.
    fn remove_by_right(&mut self, right: &u64) -> (r: Option<(u64, u64)>)
        ensures
            match r {
                Some((left, value)) => {
                    &&& value == *right
                    &&& old(self).entries().contains_key(left)
                    &&& old(self).entries()[left] == *right
                    &&& final(self).entries() == old(self).entries().remove(left)
                },
                None => {
                    &&& forall|k: u64| #[trigger]
                        old(self).entries().contains_key(k) ==> old(self).entries()[k] != *right
                    &&& final(self).entries() == old(self).entries()
                },
            },
    ;

    /// Removes the pairs with left value `left` or right value `right`, then
    /// inserts the pair.
    fn insert_pair(&mut self, left: u64, right: u64) -> (out: Overwritten)
        ensures
            final(self).entries() == bimap_inserted(old(self).entries(), left, right),
            overwrites(old(self).entries(), left, right, out),
    ;
}

impl Bimap for BiBTreeMap<u64, u64> {
    fn get_by_right(&self, right: &u64) -> (r: Option<&u64>) {
        bimap_get_by_right(self, right)
    }

    fn remove_by_right(&mut self, right: &u64) -> (r: Option<(u64, u64)>) {
        bimap_remove_by_right(self, right)
    }

    fn insert_pair(&mut self, left: u64, right: u64) -> (out: Overwritten) {
        bimap_insert(self, left, right)
    }
}

#[verifier::external_type_specification]
#[verifier::external_body]
#[verifier::reject_recursive_types(L)]
#[verifier::reject_recursive_types(R)]
#[verifier::reject_recursive_types(LS)]
#[verifier::reject_recursive_types(RS)]
pub struct ExBiHashMap<L, R, LS, RS>(BiHashMap<L, R, LS, RS>);

/// The left-to-right pairs that a bidirectional hash map holds.
pub uninterp spec fn hash_bimap_pairs(m: BiHashMap<u64, u64>) -> Map<u64, u64>;

/// `BiHashMap::get_by_left`: the right value paired with `left`, if any.
#[verifier::external_body]
pub(crate) fn hash_bimap_get_by_left<'a>(m: &'a BiHashMap<u64, u64>, left: &u64) -> (r: Option<
    &'a u64,
>)
    ensures
        match r {
            Some(right) => hash_bimap_pairs(*m).contains_key(*left) && *right == hash_bimap_pairs(
                *m,
            )[*left],
            None => !hash_bimap_pairs(*m).contains_key(*left),
        },
{
    m.get_by_left(left)
}

/// `BiHashMap::get_by_right`: the left value paired with `right`, if any.
#[verifier::external_body]
pub(crate) fn hash_bimap_get_by_right<'a>(m: &'a BiHashMap<u64, u64>, right: &u64) -> (r: Option<
    &'a u64,
>)
    ensures
        match r {
            Some(left) => hash_bimap_pairs(*m).contains_key(*left) && hash_bimap_pairs(*m)[*left]
                == *right,
            None => forall|k: u64| #[trigger]
                hash_bimap_pairs(*m).contains_key(k) ==> hash_bimap_pairs(*m)[k] != *right,
        },
{
    m.get_by_right(right)
}

/// `BiHashMap::remove_by_left`: removes the pair with left value `left` and
/// returns it, if there is one.
#[verifier::external_body]
pub(crate) fn hash_bimap_remove_by_left(m: &mut BiHashMap<u64, u64>, left: &u64) -> (r: Option<
    (u64, u64),
>)
    ensures
        hash_bimap_pairs(*final(m)) == hash_bimap_pairs(*old(m)).remove(*left),
        r == (if hash_bimap_pairs(*old(m)).contains_key(*left) {
            Some((*left, hash_bimap_pairs(*old(m))[*left]))
        } else {
            None
        }),
{
    m.remove_by_left(left)
}

/// `BiHashMap::remove_by_right`: removes the pair with right value `right`
/// and returns it, if there is one.
#[verifier::external_body]
pub(crate) fn hash_bimap_remove_by_right(m: &mut BiHashMap<u64, u64>, right: &u64) -> (r: Option<
    (u64, u64),
>)
    ensures
        match r {
            Some((left, value)) => {
                &&& value == *right
                &&& hash_bimap_pairs(*old(m)).contains_key(left)
                &&& hash_bimap_pairs(*old(m))[left] == *right
                &&& hash_bimap_pairs(*final(m)) == hash_bimap_pairs(*old(m)).remove(left)
            },
            None => {
                &&& forall|k: u64| #[trigger]
                    hash_bimap_pairs(*old(m)).contains_key(k) ==> hash_bimap_pairs(*old(m))[k]
                        != *right
                &&& hash_bimap_pairs(*final(m)) == hash_bimap_pairs(*old(m))
            },
        },
{
    m.remove_by_right(right)
}

/// `BiHashMap::insert`: removes the pair with left value `left`, then one
/// with right value `right`, inserts the pair, and reports the pairs it
/// removed.
#[verifier::external_body]
pub(crate) fn hash_bimap_insert(m: &mut BiHashMap<u64, u64>, left: u64, right: u64) -> (out: Overwritten)
    ensures
        hash_bimap_pairs(*final(m)) == bimap_inserted(hash_bimap_pairs(*old(m)), left, right),
        overwrites(hash_bimap_pairs(*old(m)), left, right, out),
{
    match m.insert(left, right) {
        bidimap::Overwritten::Neither => Overwritten::Neither,
        bidimap::Overwritten::Left(l, r) => Overwritten::Left(l, r),
        bidimap::Overwritten::Right(l, r) => Overwritten::Right(l, r),
        bidimap::Overwritten::Pair(l, r) => Overwritten::Pair(l, r),
        bidimap::Overwritten::Both(a, b) => Overwritten::Both(a, b),
    }
}

/// `BiHashMap::iter`: the pairs, each once, in no particular order.
#[verifier::external_body]
pub(crate) fn hash_bimap_iter(m: &BiHashMap<u64, u64>) -> (r: Vec<(u64, u64)>)
    ensures
        lists_entries(r@, hash_bimap_pairs(*m)),
{
    m.iter().map(|(left, right)| (*left, *right)).collect()
}

/// `BiHashMap::clear`: removes every pair.
#[verifier::external_body]
pub(crate) fn hash_bimap_clear(m: &mut BiHashMap<u64, u64>)
    ensures
        hash_bimap_pairs(*final(m)).dom() == Set::<u64>::empty(),
{
    m.clear()
}

impl Collection for BiHashMap<u64, u64> {
    type Item = u64;
}

impl Keyed for BiHashMap<u64, u64> {
    type Key = u64;

    open spec fn entries(&self) -> Map<u64, u64> {
        hash_bimap_pairs(*self)
    }
}

impl Get<u64> for BiHashMap<u64, u64> {
    fn get(&self, key: &u64) -> (r: Option<&u64>) {
        hash_bimap_get_by_left(self, key)
    }
}

impl Remove<u64> for BiHashMap<u64, u64> {
    fn remove(&mut self, key: &u64) -> (r: Option<u64>) {
        match hash_bimap_remove_by_left(self, key) {
            Some((_left, right)) => Some(right),
            None => None,
        }
    }
}

impl Clear for BiHashMap<u64, u64> {
    fn clear(&mut self) {
        hash_bimap_clear(self);
    }
}

impl Iter<u64> for BiHashMap<u64, u64> {
    fn iter(&self) -> (r: Vec<(u64, u64)>) {
        hash_bimap_iter(self)
    }
}

impl IntoIter<u64> for BiHashMap<u64, u64> {
}

impl Bimap for BiHashMap<u64, u64> {
    fn get_by_right(&self, right: &u64) -> (r: Option<&u64>) {
        hash_bimap_get_by_right(self, right)
    }

    fn remove_by_right(&mut self, right: &u64) -> (r: Option<(u64, u64)>) {
        hash_bimap_remove_by_right(self, right)
    }

    fn insert_pair(&mut self, left: u64, right: u64) -> (out: Overwritten) {
        hash_bimap_insert(self, left, right)
    }
}

/// Inserting the entries of `inserted` into `m` one by one, each as a pair of
/// a bidirectional map, overwrites nothing: no two inserted entries share a
/// right value, and no pair of `m` under another left value has an inserted
/// right value.
pub open spec fn bimap_insertions_fit(m: Map<u64, u64>, inserted: Map<u64, u64>) -> bool {
    &&& forall|k1: u64, k2: u64|
        #![trigger inserted[k1], inserted[k2]]
        inserted.contains_key(k1) && inserted.contains_key(k2) && k1 != k2 ==> inserted[k1]
            != inserted[k2]
    &&& forall|k1: u64, k2: u64|
        #![trigger m[k1], inserted[k2]]
        m.contains_key(k1) && inserted.contains_key(k2) && k1 != k2 ==> m[k1] != inserted[k2]
}

/// What inserting the pairs of `s` into a bidirectional map with pairs `m`
/// makes of them, one pair after the other in the order of `s`.
pub open spec fn bimap_inserted_all(m: Map<u64, u64>, s: Seq<(u64, u64)>) -> Map<u64, u64>
    decreases s.len(),
{
    if s.len() == 0 {
        m
    } else {
        bimap_inserted(bimap_inserted_all(m, s.drop_last()), s.last().0, s.last().1)
    }
}

/// `after` is what applying a delta with removed half `removed` and inserted
/// half `inserted` makes of a bidirectional map with pairs `before`: the
/// pairs under the removed left values go, then the inserted pairs are
/// inserted one by one, in some order.
pub open spec fn bimap_delta_applied(
    before: Map<u64, u64>,
    removed: Map<u64, u64>,
    inserted: Map<u64, u64>,
    after: Map<u64, u64>,
) -> bool {
    exists|s: Seq<(u64, u64)>|
        lists_entries(s, inserted) && #[trigger] bimap_inserted_all(
            before.remove_keys(removed.dom()),
            s,
        ) == after
}

/// Apply a delta to a bidirectional map: remove the pairs under the removed
/// left values, then insert the inserted pairs one by one.
fn apply_delta_on_bimap<C: Bimap, DC: Keyed<Key = u64, Item = u64> + IntoIter<u64>>(
    target: &mut C,
    delta: Delta<DC>,
)
    ensures
        bimap_delta_applied(
            old(target).entries(),
            delta.removed.entries(),
            delta.inserted.entries(),
            final(target).entries(),
        ),
        bimap_insertions_fit(
            old(target).entries().remove_keys(delta.removed.entries().dom()),
            delta.inserted.entries(),
        ) ==> final(target).entries() == apply_entries(
            old(target).entries(),
            delta.removed.entries(),
            delta.inserted.entries(),
        ),
{
    let ghost m = target.entries();
    let ghost removed_view = delta.removed.entries();
    let ghost inserted_view = delta.inserted.entries();
    let (removed, inserted) = delta.dissolve();

    let removed_entries = Iter::iter(&removed);
    let mut n: usize = 0;
    while n < removed_entries.len()
        invariant
            n <= removed_entries@.len(),
            lists_entries(removed_entries@, removed_view),
            forall|k: u64|
                #[trigger] target.entries().contains_key(k) == (m.contains_key(k)
                    && !in_prefix(removed_entries@, n as int, k)),
            forall|k: u64|
                target.entries().contains_key(k) ==> #[trigger] target.entries()[k]
                    == m[k],
        decreases removed_entries@.len() - n,
    {
        let (removed_key, _removed_value) = removed_entries[n];
        proof {
            assert(removed_entries@[n as int].0 == removed_key);
            lemma_in_prefix_step(removed_entries@, n as int);
        }
        target.remove(&removed_key);
        n += 1;
    }
    let ghost kept = m.remove_keys(removed_view.dom());
    proof {
        assert forall|k: u64| #[trigger] target.entries().contains_key(k) == kept.contains_key(
            k,
        ) by {
            if in_prefix(removed_entries@, n as int, k) {
                let j = choose|j: int| 0 <= j < n && #[trigger] removed_entries@[j].0 == k;
                assert(removed_view.contains_key(removed_entries@[j].0));
            }
            if removed_view.contains_key(k) {
                let j = choose|j: int|
                    0 <= j < removed_entries@.len() && #[trigger] removed_entries@[j].0 == k;
                assert(in_prefix(removed_entries@, n as int, k));
            }
        }
        assert(target.entries() =~= kept);
    }

    let inserted_entries = Iter::iter(&inserted);
    let mut n: usize = 0;
    while n < inserted_entries.len()
        invariant
            n <= inserted_entries@.len(),
            lists_entries(inserted_entries@, inserted_view),
            target.entries() == bimap_inserted_all(kept, inserted_entries@.take(n as int)),
            bimap_insertions_fit(kept, inserted_view) ==> {
                &&& forall|k: u64|
                    #[trigger] target.entries().contains_key(k) == (kept.contains_key(k)
                        || in_prefix(inserted_entries@, n as int, k))
                &&& forall|k: u64|
                    target.entries().contains_key(k) ==> #[trigger] target.entries()[k]
                        == (if in_prefix(inserted_entries@, n as int, k) {
                        inserted_view[k]
                    } else {
                        kept[k]
                    })
            },
        decreases inserted_entries@.len() - n,
    {
        let (inserted_key, inserted_value) = inserted_entries[n];
        let ghost before = target.entries();
        proof {
            assert(inserted_entries@[n as int].0 == inserted_key);
            assert(inserted_view.contains_key(inserted_key));
            assert(inserted_view[inserted_key] == inserted_value);
            assert(!in_prefix(inserted_entries@, n as int, inserted_key)) by {
                if in_prefix(inserted_entries@, n as int, inserted_key) {
                    let j = choose|j: int|
                        0 <= j < n && #[trigger] inserted_entries@[j].0 == inserted_key;
                    assert(inserted_entries@[j].0 != inserted_entries@[n as int].0);
                }
            }
            lemma_in_prefix_step(inserted_entries@, n as int);
        }
        let _ = target.insert_pair(inserted_key, inserted_value);
        proof {
            let prefix = inserted_entries@.take(n + 1);
            assert(prefix.drop_last() =~= inserted_entries@.take(n as int));
            assert(prefix.last() == inserted_entries@[n as int]);
            if bimap_insertions_fit(kept, inserted_view) {
                assert forall|k: u64|
                    before.contains_key(k) && k != inserted_key implies #[trigger] before[k]
                    != inserted_value by {
                    if in_prefix(inserted_entries@, n as int, k) {
                        assert(inserted_view.contains_key(k));
                        assert(before[k] == inserted_view[k]);
                    } else {
                        assert(kept.contains_key(k));
                        assert(before[k] == kept[k]);
                    }
                }
            }
        }
        n += 1;
    }
    proof {
        assert(inserted_entries@.take(n as int) =~= inserted_entries@);
        assert(bimap_inserted_all(kept, inserted_entries@) == target.entries());
        if bimap_insertions_fit(kept, inserted_view) {
            assert forall|k: u64| in_prefix(inserted_entries@, n as int, k)
                == inserted_view.contains_key(k) by {
                if in_prefix(inserted_entries@, n as int, k) {
                    let j = choose|j: int| 0 <= j < n && #[trigger] inserted_entries@[j].0 == k;
                    assert(inserted_view.contains_key(inserted_entries@[j].0));
                }
                if inserted_view.contains_key(k) {
                    let j = choose|j: int|
                        0 <= j < inserted_entries@.len() && #[trigger] inserted_entries@[j].0
                            == k;
                    assert(in_prefix(inserted_entries@, n as int, k));
                }
            }
            assert(target.entries() =~= apply_entries(m, removed_view, inserted_view));
        }
    }
}

impl<DC: Keyed<Key = u64, Item = u64> + IntoIter<u64>> ApplyDelta<DC> for BiBTreeMap<u64, u64> {
    /// The pairs under the removed left values are removed, then the inserted
    /// pairs are inserted one by one. Where the insertions overwrite no other
    /// pair, the bimap ends with the entries that a map would.
    open spec fn delta_applied(&self, delta: Delta<DC>, after: Self) -> bool {
        &&& bimap_delta_applied(
            self.entries(),
            delta.removed.entries(),
            delta.inserted.entries(),
            after.entries(),
        )
        &&& bimap_insertions_fit(
            self.entries().remove_keys(delta.removed.entries().dom()),
            delta.inserted.entries(),
        ) ==> after.entries() == apply_entries(
            self.entries(),
            delta.removed.entries(),
            delta.inserted.entries(),
        )
    }

    fn apply_delta(&mut self, delta: Delta<DC>) {
        apply_delta_on_bimap(self, delta);
    }
}

impl<DC: Keyed<Key = u64, Item = u64> + IntoIter<u64>> ApplyDelta<DC> for BiHashMap<u64, u64> {
    /// The pairs under the removed left values are removed, then the inserted
    /// pairs are inserted one by one. Where the insertions overwrite no other
    /// pair, the bimap ends with the entries that a map would.
    open spec fn delta_applied(&self, delta: Delta<DC>, after: Self) -> bool {
        &&& bimap_delta_applied(
            self.entries(),
            delta.removed.entries(),
            delta.inserted.entries(),
            after.entries(),
        )
        &&& bimap_insertions_fit(
            self.entries().remove_keys(delta.removed.entries().dom()),
            delta.inserted.entries(),
        ) ==> after.entries() == apply_entries(
            self.entries(),
            delta.removed.entries(),
            delta.inserted.entries(),
        )
    }

    fn apply_delta(&mut self, delta: Delta<DC>) {
        apply_delta_on_bimap(self, delta);
    }
}

/// Every bidirectional map of type `C` applies a delta with half-deltas of
/// type `DC` as a map would, wherever the insertions overwrite no other pair.
pub open spec fn applies_as_bimap<C: Bimap + ApplyDelta<DC>, DC: Keyed<Key = u64, Item = u64>>() -> bool {
    forall|c: C, d: Delta<DC>, after: C|
        #[trigger] c.delta_applied(d, after) ==> (bimap_insertions_fit(
            c.entries().remove_keys(d.removed.entries().dom()),
            d.inserted.entries(),
        ) ==> after.entries() == apply_entries(
            c.entries(),
            d.removed.entries(),
            d.inserted.entries(),
        ))
}

/// A bidirectional map over B-trees applies deltas as a map would, wherever
/// the insertions overwrite no other pair.
pub proof fn lemma_btree_bimap_applies_as_bimap<DC: Keyed<Key = u64, Item = u64> + IntoIter<u64>>()
    ensures
        applies_as_bimap::<BiBTreeMap<u64, u64>, DC>(),
{
}

/// A bidirectional map over hash maps applies deltas as a map would,
/// wherever the insertions overwrite no other pair.
pub proof fn lemma_hash_bimap_applies_as_bimap<DC: Keyed<Key = u64, Item = u64> + IntoIter<u64>>()
    ensures
        applies_as_bimap::<BiHashMap<u64, u64>, DC>(),
{
}

/// No two left values of `m` are paired with the same right value, as in
/// every bidirectional map.
pub open spec fn bimap_injective(m: Map<u64, u64>) -> bool {
    forall|k1: u64, k2: u64|
        #![trigger m[k1], m[k2]]
        m.contains_key(k1) && m.contains_key(k2) && k1 != k2 ==> m[k1] != m[k2]
}

/// Resetting a consistent recorder over a bidirectional map gives back the
/// state when its recording began.
pub proof fn lemma_bimap_reset_restores_base<
    C: Bimap + ApplyDelta<DC>,
    DC: Keyed<Key = u64, Item = u64> + HalfDelta<u64, u64>,
>(before: Recorder<C, DC>, after: Recorder<C, DC>)
    requires
        applies_as_bimap::<C, DC>(),
        before.consistent(),
        bimap_injective(before.base()),
        <Recorder<C, DC> as ResetDelta<DC>>::resets(before, after),
    ensures
        after.entries() == before.base(),
{
    let b = before.base();
    let e = before.entries();
    let r = before.removed_spec();
    let i = before.inserted_spec();
    lemma_recorded_delta_replays(before);
    let kept = e.remove_keys(i.dom());
    assert forall|k1: u64, k2: u64|
        kept.contains_key(k1) && r.contains_key(k2) && k1 != k2 implies #[trigger] kept[k1]
        != #[trigger] r[k2] by {
        assert(b.contains_key(k1) && b[k1] == kept[k1]);
        assert(b.contains_key(k2) && b[k2] == r[k2]);
    }
    assert forall|k1: u64, k2: u64|
        r.contains_key(k1) && r.contains_key(k2) && k1 != k2 implies #[trigger] r[k1]
        != #[trigger] r[k2] by {
        assert(b.contains_key(k1) && b.contains_key(k2));
    }
    assert(bimap_insertions_fit(kept, r));
}

/// Committing what a consistent recorder over a bidirectional map recorded
/// and then undoing it gives back the state when the recording began;
/// redoing it then gives back the state the recording led to.
pub proof fn lemma_bimap_undo_after_commit_restores<
    C: Bimap + ApplyDelta<DC>,
    DC: Keyed<Key = u64, Item = u64> + HalfDelta<u64, u64>,
    Cmd: Clone,
>(
    u0: UndoRedo<Delta<DC>, Cmd>,
    cmd: Cmd,
    rec0: Recorder<C, DC>,
    u1: UndoRedo<Delta<DC>, Cmd>,
    rec1: Recorder<C, DC>,
    u2: UndoRedo<Delta<DC>, Cmd>,
    rec2: Recorder<C, DC>,
    u3: UndoRedo<Delta<DC>, Cmd>,
    rec3: Recorder<C, DC>,
)
    requires
        applies_as_bimap::<C, DC>(),
        rec0.consistent(),
        bimap_injective(rec0.base()),
        bimap_injective(rec0.entries()),
        u0.commits(cmd, rec0, u1, rec1),
        u1.undo_step(rec1, u2, rec2),
    ensures
        rec2.entries() == rec0.base(),
        u2.redo_step(rec2, u3, rec3) ==> rec3.entries() == rec0.entries(),
{
    let b = rec0.base();
    let e = rec0.entries();
    let r = rec0.removed_spec();
    let i = rec0.inserted_spec();
    let edit = u1.done_spec().last().edit;
    let back = u2.undone_spec().last().edit;
    assert(edit == rec0.delta_spec());
    assert(rec1.entries() == e);
    lemma_recorded_delta_replays(rec0);
    lemma_apply_reverse_restores(b, r, i);
    let kept = e.remove_keys(i.dom());
    assert forall|k1: u64, k2: u64|
        kept.contains_key(k1) && r.contains_key(k2) && k1 != k2 implies #[trigger] kept[k1]
        != #[trigger] r[k2] by {
        assert(b.contains_key(k1) && b[k1] == kept[k1]);
        assert(b.contains_key(k2) && b[k2] == r[k2]);
    }
    assert forall|k1: u64, k2: u64|
        r.contains_key(k1) && r.contains_key(k2) && k1 != k2 implies #[trigger] r[k1]
        != #[trigger] r[k2] by {
        assert(b.contains_key(k1) && b.contains_key(k2));
    }
    let d1 = choose|d: Delta<DC>|
        cloned(back.removed, d.removed) && cloned(back.inserted, d.inserted)
            && #[trigger] rec1.delta_applied(d, rec2);
    DC::lemma_cloned_entries(back.removed, d1.removed);
    DC::lemma_cloned_entries(back.inserted, d1.inserted);
    assert(rec1.container_spec().delta_applied(d1, rec2.container_spec()));
    assert(bimap_insertions_fit(kept, r));
    if u2.redo_step(rec2, u3, rec3) {
        let again = u3.done_spec().last().edit;
        let d2 = choose|d: Delta<DC>|
            cloned(again.removed, d.removed) && cloned(again.inserted, d.inserted)
                && #[trigger] rec2.delta_applied(d, rec3);
        DC::lemma_cloned_entries(again.removed, d2.removed);
        DC::lemma_cloned_entries(again.inserted, d2.inserted);
        assert(rec2.container_spec().delta_applied(d2, rec3.container_spec()));
        let kept_base = b.remove_keys(r.dom());
        assert forall|k1: u64, k2: u64|
            kept_base.contains_key(k1) && i.contains_key(k2) && k1 != k2 implies #[trigger] kept_base[k1]
            != #[trigger] i[k2] by {
            assert(e.contains_key(k1) && e[k1] == kept_base[k1]);
            assert(e.contains_key(k2) && e[k2] == i[k2]);
        }
        assert forall|k1: u64, k2: u64|
            i.contains_key(k1) && i.contains_key(k2) && k1 != k2 implies #[trigger] i[k1]
            != #[trigger] i[k2] by {
            assert(e.contains_key(k1) && e.contains_key(k2));
        }
        assert(bimap_insertions_fit(kept_base, i));
    }
}

} // verus!
