use std::collections::{BTreeMap, BTreeSet};
use std::marker::PhantomData;

use vstd::prelude::*;
use vstd::std_specs::iter::IteratorSpec;

use crate::collection::{lists_entries, Get, Insert, IntoIter, Keyed, Remove};
use crate::edit::{ApplyEdit, RevertEdit};
use crate::key::{lemma_increasing_indices, OrdKey};

verus! {

/// What applying a delta that removes the keys of `removed` and then inserts
/// the entries of `inserted` makes of the entries `m`.
pub open spec fn apply_entries<K, V>(m: Map<K, V>, removed: Map<K, V>, inserted: Map<K, V>) -> Map<
    K,
    V,
> {
    m.remove_keys(removed.dom()).union_prefer_right(inserted)
}

/// The delta (`removed`, `inserted`) was recorded from the entries `m`: what it
/// says was removed is what `m` held, and every key it inserts without
/// removing first was absent from `m`.
pub open spec fn delta_fits<K, V>(m: Map<K, V>, removed: Map<K, V>, inserted: Map<K, V>) -> bool {
    &&& removed.submap_of(m)
    &&& forall|k: K|
        #[trigger] inserted.contains_key(k) && !removed.contains_key(k) ==> !m.contains_key(k)
}

/// Removed half of the merge of (`r1`, `i1`) with a later delta whose removed
/// half is `r2`.
pub open spec fn merged_removed<K, V>(r1: Map<K, V>, i1: Map<K, V>, r2: Map<K, V>) -> Map<K, V> {
    r2.remove_keys(i1.dom()).union_prefer_right(r1)
}

/// Inserted half of the merge of a delta whose inserted half is `i1` with a
/// later delta (`r2`, `i2`).
pub open spec fn merged_inserted<K, V>(i1: Map<K, V>, r2: Map<K, V>, i2: Map<K, V>) -> Map<K, V> {
    i1.remove_keys(r2.dom()).union_prefer_right(i2)
}

/// Whether the key `k` is among the keys of the first `n` pairs of `v`.
pub open spec fn in_prefix<K, V>(v: Seq<(K, V)>, n: int, k: K) -> bool {
    exists|j: int| 0 <= j < n && #[trigger] v[j].0 == k
}

/// A delta that removes nothing and inserts nothing fits any entries and
/// leaves them as they are.
pub proof fn lemma_apply_empty<K, V>(m: Map<K, V>)
    ensures
        delta_fits(m, Map::<K, V>::empty(), Map::<K, V>::empty()),
        apply_entries(m, Map::<K, V>::empty(), Map::<K, V>::empty()) == m,
{
    assert(apply_entries(m, Map::<K, V>::empty(), Map::<K, V>::empty()) =~= m);
}

/// Taking one more pair into the prefix adds exactly that pair's key.
pub proof fn lemma_in_prefix_step<K, V>(v: Seq<(K, V)>, n: int)
    requires
        0 <= n < v.len(),
    ensures
        forall|k: K| #[trigger] in_prefix(v, n + 1, k) == (in_prefix(v, n, k) || k == v[n].0),
{
    assert forall|k: K| #[trigger] in_prefix(v, n + 1, k) == (in_prefix(v, n, k) || k == v[n].0) by {
        if in_prefix(v, n + 1, k) && k != v[n].0 {
            let j = choose|j: int| 0 <= j < n + 1 && #[trigger] v[j].0 == k;
            assert(j < n);
        }
        if k == v[n].0 {
            assert(v[n].0 == k);
        }
    }
}

/// A reversible set of changes to a container.
///
/// Consists of a container of removed elements and another container of
/// inserted elements.
#[derive(Debug, PartialEq, Eq, Hash)]
pub struct Delta<DC> {
    /// The entries that the change removes.
    pub removed: DC,
    /// The entries that the change inserts.
    pub inserted: DC,
}

impl<DC: Clone> Clone for Delta<DC> {
    fn clone(&self) -> (r: Self)
        ensures
            cloned(self.removed, r.removed),
            cloned(self.inserted, r.inserted),
    {
        Delta { removed: self.removed.clone(), inserted: self.inserted.clone() }
    }
}

impl<K, V> View for Delta<BTreeMap<K, V>> {
    type V = (Map<K, V>, Map<K, V>);

    open spec fn view(&self) -> (Map<K, V>, Map<K, V>) {
        (self.removed@, self.inserted@)
    }
}

/// A container that can hold one half of a delta: a map from keys to items
/// that can be made empty, read, written, listed and cloned.
pub trait HalfDelta<K, V>: Keyed<Key = K, Item = V> + Get<K> + Insert<K> + Remove<K> + IntoIter<K> + Clone + Default {
    /// An empty half-delta.
    fn empty() -> (r: Self)
        ensures
            r.entries() == Map::<K, V>::empty(),
    ;

    /// A clone of a half-delta holds the same entries.
    proof fn lemma_cloned_entries(a: Self, b: Self)
        requires
            cloned(a, b),
        ensures
            b.entries() == a.entries(),
    ;

    /// A default half-delta holds no entries.
    proof fn lemma_default_empty(d: Self)
        requires
            call_ensures(Self::default, (), d),
        ensures
            d.entries() == Map::<K, V>::empty(),
    ;
}

impl<K: OrdKey, V: Copy> HalfDelta<K, V> for BTreeMap<K, V> {
    fn empty() -> (r: Self) {
        BTreeMap::new()
    }

    proof fn lemma_cloned_entries(a: Self, b: Self) {
    }

    proof fn lemma_default_empty(d: Self) {
    }
}

impl<DC: Default> Default for Delta<DC> {
    fn default() -> (r: Self)
        ensures
            call_ensures(DC::default, (), r.removed),
            call_ensures(DC::default, (), r.inserted),
    {
        Delta { removed: DC::default(), inserted: DC::default() }
    }
}

impl<K, V, DC: Keyed<Key = K, Item = V> + HalfDelta<K, V>> Delta<DC> {
    /// Create a new empty delta with no recorded changes.
    pub fn new() -> (r: Self)
        ensures
            r.removed.entries() == Map::<K, V>::empty(),
            r.inserted.entries() == Map::<K, V>::empty(),
    {
        Delta { removed: DC::empty(), inserted: DC::empty() }
    }
}

/// A new delta and a delta of two default halves hold the same entries,
/// none; applied to any entries, either leaves them as they are.
pub proof fn lemma_new_is_default<K, V, DC: Keyed<Key = K, Item = V> + HalfDelta<K, V>>(
    fresh: Delta<DC>,
    defaults: Delta<DC>,
    m: Map<K, V>,
)
    requires
        fresh.removed.entries() == Map::<K, V>::empty(),
        fresh.inserted.entries() == Map::<K, V>::empty(),
        call_ensures(DC::default, (), defaults.removed),
        call_ensures(DC::default, (), defaults.inserted),
    ensures
        defaults.removed.entries() == fresh.removed.entries(),
        defaults.inserted.entries() == fresh.inserted.entries(),
        apply_entries(m, fresh.removed.entries(), fresh.inserted.entries()) == m,
{
    DC::lemma_default_empty(defaults.removed);
    DC::lemma_default_empty(defaults.inserted);
    lemma_apply_empty(m);
}

impl<DC> Delta<DC> {
    /// The delta with its removed and inserted halves swapped.
    pub open spec fn reversed(self) -> Self {
        Delta { removed: self.inserted, inserted: self.removed }
    }

    /// Create an new delta from containers of removals and insertions.
    pub fn with_removed_inserted(removed: DC, inserted: DC) -> (r: Self)
        ensures
            r.removed == removed,
            r.inserted == inserted,
    {
        Delta { removed, inserted }
    }

    /// Consume the delta and return removed and inserted containers.
    pub fn dissolve(self) -> (r: (DC, DC))
        ensures
            r == (self.removed, self.inserted),
    {
        (self.removed, self.inserted)
    }

    /// Reverse the delta.
    ///
    /// This is done by swapping the containers of removed and inserted
    /// elements.
    pub fn reverse(self) -> (r: Self)
        ensures
            r == self.reversed(),
    {
        Delta { removed: self.inserted, inserted: self.removed }
    }
}

/// Reversing a delta twice gives back the same delta.
pub proof fn lemma_reverse_involutive<DC>(d: Delta<DC>)
    ensures
        d.reversed().reversed() == d,
{
}

/// A delta recorded from `m` is undone by its reverse: applying the delta and
/// then its reverse gives back `m`, and the reverse was recorded from the
/// state the delta led to.
pub proof fn lemma_apply_reverse_restores<
    K,
    V,
>(m: Map<K, V>, removed: Map<K, V>, inserted: Map<K, V>)
    requires
        delta_fits(m, removed, inserted),
    ensures
        apply_entries(apply_entries(m, removed, inserted), inserted, removed) == m,
        delta_fits(apply_entries(m, removed, inserted), inserted, removed),
{
    let m1 = apply_entries(m, removed, inserted);
    let m2 = apply_entries(m1, inserted, removed);
    assert forall|k: K| #[trigger] m2.contains_key(k) == m.contains_key(k) by {
        if removed.contains_key(k) {
            assert(m.contains_key(k));
        } else if inserted.contains_key(k) {
            assert(!m.contains_key(k));
        }
    }
    assert forall|k: K| m2.contains_key(k) implies #[trigger] m2[k] == m[k] by {
        if removed.contains_key(k) {
            assert(removed[k] == m[k]);
        }
    }
    assert(m2 =~= m);
    assert forall|k: K| removed.contains_key(k) && !inserted.contains_key(k) implies !m1.contains_key(k) by {
    }
}

/// Merge two deltas into one.
///
/// Applying the result is equivalent to applying `self` and then `other`.
pub trait MergeDelta<DC>: Sized {
    /// Holds when `merged` is the merge of `self` with the later `other`.
    spec fn merges(self, other: Delta<DC>, merged: Self) -> bool;

    /// Merge `other` into `self`.
    fn merge_delta(self, other: Delta<DC>) -> (merged: Self)
        ensures
            self.merges(other, merged),
    ;
}

/// Merge two deltas over map-like half-deltas: what the later one removes is
/// recorded as removed unless the earlier one inserted it or already removed
/// it, and what the later one inserts is inserted.
pub(crate) fn merge_map_delta<K: Copy, V: Copy, M>(self_delta: Delta<M>, other: Delta<M>) -> (merged: Delta<M>) where
    M: Keyed<Key = K, Item = V> + IntoIter<K> + Get<K> + Insert<K> + Remove<K>,
    ensures
        merged.removed.entries() == merged_removed(
            self_delta.removed.entries(),
            self_delta.inserted.entries(),
            other.removed.entries(),
        ),
        merged.inserted.entries() == merged_inserted(
            self_delta.inserted.entries(),
            other.removed.entries(),
            other.inserted.entries(),
        ),
{
    let ghost r1 = self_delta.removed.entries();
    let ghost i1 = self_delta.inserted.entries();
    let ghost r2 = other.removed.entries();
    let ghost i2 = other.inserted.entries();
    let (mut self_removed, mut self_inserted) = self_delta.dissolve();
    let (other_removed, other_inserted) = other.dissolve();

    let removed_entries = IntoIter::into_iter(other_removed);
    let mut n: usize = 0;
    while n < removed_entries.len()
        invariant
            n <= removed_entries@.len(),
            lists_entries(removed_entries@, r2),
            forall|k: K|
                #[trigger] self_inserted.entries().contains_key(k) == (i1.contains_key(k)
                    && !in_prefix(removed_entries@, n as int, k)),
            forall|k: K|
                self_inserted.entries().contains_key(k) ==> #[trigger] self_inserted.entries()[k]
                    == i1[k],
            forall|k: K|
                #[trigger] self_removed.entries().contains_key(k) == (r1.contains_key(k) || (
                in_prefix(removed_entries@, n as int, k) && !i1.contains_key(k))),
            forall|k: K|
                self_removed.entries().contains_key(k) ==> #[trigger] self_removed.entries()[k] == (
                if r1.contains_key(k) {
                    r1[k]
                } else {
                    r2[k]
                }),
        decreases removed_entries@.len() - n,
    {
        let (key, value) = removed_entries[n];
        proof {
            assert(removed_entries@[n as int].0 == key);
            lemma_in_prefix_step(removed_entries@, n as int);
            assert(!in_prefix(removed_entries@, n as int, key));
        }
        if self_inserted.remove(&key).is_none() && self_removed.get(&key).is_none() {
            self_removed.insert(key, value);
        }
        n += 1;
    }

    let inserted_entries = IntoIter::into_iter(other_inserted);
    let mut n: usize = 0;
    while n < inserted_entries.len()
        invariant
            n <= inserted_entries@.len(),
            lists_entries(inserted_entries@, i2),
            forall|k: K|
                #[trigger] self_inserted.entries().contains_key(k) == ((i1.contains_key(k)
                    && !r2.contains_key(k)) || in_prefix(inserted_entries@, n as int, k)),
            forall|k: K|
                self_inserted.entries().contains_key(k) ==> #[trigger] self_inserted.entries()[k]
                    == (if in_prefix(inserted_entries@, n as int, k) {
                    i2[k]
                } else {
                    i1[k]
                }),
            self_removed.entries() == merged_removed(r1, i1, r2),
        decreases inserted_entries@.len() - n,
    {
        let (key, value) = inserted_entries[n];
        proof {
            assert(inserted_entries@[n as int].0 == key);
            lemma_in_prefix_step(inserted_entries@, n as int);
        }
        self_inserted.insert(key, value);
        n += 1;
    }
    Delta::with_removed_inserted(self_removed, self_inserted)
}

/// Applying the merge of a delta (`r1`, `i1`) with a later delta (`r2`,
/// `i2`) to `m` has the same effect as applying the first and then the
/// second. The one exception is a key that `m` holds, the first delta inserts
/// without removing it and the second removes without inserting it again;
/// `requires` leaves such keys out, and a delta recorded from `m` has none.
pub proof fn lemma_merge_apply<K, V>(
    m: Map<K, V>,
    r1: Map<K, V>,
    i1: Map<K, V>,
    r2: Map<K, V>,
    i2: Map<K, V>,
)
    requires
        forall|k: K|
            #[trigger] i1.contains_key(k) && !r1.contains_key(k) && r2.contains_key(k)
                && !i2.contains_key(k) ==> !m.contains_key(k),
    ensures
        apply_entries(m, merged_removed(r1, i1, r2), merged_inserted(i1, r2, i2)) == apply_entries(
            apply_entries(m, r1, i1),
            r2,
            i2,
        ),
{
    let lhs = apply_entries(m, merged_removed(r1, i1, r2), merged_inserted(i1, r2, i2));
    let rhs = apply_entries(apply_entries(m, r1, i1), r2, i2);
    assert forall|k: K| #[trigger] lhs.contains_key(k) == rhs.contains_key(k) by {
        if i1.contains_key(k) && !r1.contains_key(k) && r2.contains_key(k) && !i2.contains_key(k) {
            assert(!m.contains_key(k));
        }
    }
    assert(lhs =~= rhs);
}

/// The merge of a delta recorded from `m` with a delta recorded from the
/// state that the first one leads to is itself recorded from `m`.
pub proof fn lemma_merge_fits<K, V>(
    m: Map<K, V>,
    r1: Map<K, V>,
    i1: Map<K, V>,
    r2: Map<K, V>,
    i2: Map<K, V>,
)
    requires
        delta_fits(m, r1, i1),
        delta_fits(apply_entries(m, r1, i1), r2, i2),
    ensures
        delta_fits(m, merged_removed(r1, i1, r2), merged_inserted(i1, r2, i2)),
{
    let m1 = apply_entries(m, r1, i1);
    let rm = merged_removed(r1, i1, r2);
    let im = merged_inserted(i1, r2, i2);
    assert forall|k: K| #[trigger] rm.dom().contains(k) implies m.dom().contains(k) && rm[k] == m[k] by {
        if r1.dom().contains(k) {
            assert(m.dom().contains(k));
        } else {
            assert(r2.contains_key(k) && !i1.contains_key(k));
            assert(m1.contains_key(k));
        }
    }
    assert forall|k: K| #[trigger] im.contains_key(k) && !rm.contains_key(k) implies !m.contains_key(
        k,
    ) by {
        assert(!r1.contains_key(k));
        if i2.contains_key(k) && !r2.contains_key(k) {
            assert(!m1.contains_key(k));
        } else if i2.contains_key(k) {
            assert(i1.contains_key(k));
        } else {
            assert(i1.contains_key(k));
        }
    }
    assert(rm.submap_of(m));
}

impl<
    K: Copy,
    V: Copy,
    DC: Keyed<Key = K, Item = V> + HalfDelta<K, V>,
> MergeDelta<DC> for Delta<DC> {
    open spec fn merges(self, other: Delta<DC>, merged: Self) -> bool {
        &&& merged.removed.entries() == merged_removed(
            self.removed.entries(),
            self.inserted.entries(),
            other.removed.entries(),
        )
        &&& merged.inserted.entries() == merged_inserted(
            self.inserted.entries(),
            other.removed.entries(),
            other.inserted.entries(),
        )
    }

    fn merge_delta(self, other: Self) -> (merged: Self) {
        merge_map_delta(self, other)
    }
}

impl<DC> Delta<DC> where Self: MergeDelta<DC> {
    /// Merge two deltas into one.
    ///
    /// Applying the result is equivalent to applying `self` and then `other`
    /// on a container that `self` was recorded from. The exception is a key
    /// that the container holds, that `self` inserts without removing it and
    /// that `other` removes without inserting it again: there the merge keeps
    /// the container's item (see `lemma_merge_apply`).
    pub fn merge_delta(self, other: Self) -> (merged: Self)
        ensures
            self.merges(other, merged),
    {
        MergeDelta::merge_delta(self, other)
    }
}

/// Apply the changes in a delta to a container.
///
/// This can be used to revert a previously recorded delta if you reverse it
/// with [`Delta::reverse()`].
pub trait ApplyDelta<DC>: Sized {
    /// Holds when applying `delta` may take the value from `self` to `after`.
    spec fn delta_applied(&self, delta: Delta<DC>, after: Self) -> bool;

    /// Apply the changes in a delta to a container.
    fn apply_delta(&mut self, delta: Delta<DC>)
        ensures
            old(self).delta_applied(delta, *final(self)),
    ;
}

/// Apply a delta to a map-like container: remove the keys of the removed
/// half, then insert the entries of the inserted half.
pub(crate) fn apply_delta_on_map<K: Copy, V: Copy, C, DC>(container: &mut C, delta: Delta<DC>) where
    C: Keyed<Key = K, Item = V> + Insert<K> + Remove<K>,
    DC: Keyed<Key = K, Item = V> + IntoIter<K>,
    ensures
        final(container).entries() == apply_entries(
            old(container).entries(),
            delta.removed.entries(),
            delta.inserted.entries(),
        ),
{
    let ghost m = container.entries();
    let ghost removed_view = delta.removed.entries();
    let ghost inserted_view = delta.inserted.entries();
    let (removed, inserted) = delta.dissolve();

    let removed_entries = removed.into_iter();
    let mut n: usize = 0;
    while n < removed_entries.len()
        invariant
            n <= removed_entries@.len(),
            lists_entries(removed_entries@, removed_view),
            forall|k: K|
                #[trigger] container.entries().contains_key(k) == (m.contains_key(k) && !in_prefix(
                    removed_entries@,
                    n as int,
                    k,
                )),
            forall|k: K|
                container.entries().contains_key(k) ==> #[trigger] container.entries()[k] == m[k],
        decreases removed_entries@.len() - n,
    {
        let (removed_key, _removed_value) = removed_entries[n];
        proof {
            assert(removed_entries@[n as int].0 == removed_key);
            lemma_in_prefix_step(removed_entries@, n as int);
        }
        container.remove(&removed_key);
        n += 1;
    }

    let inserted_entries = inserted.into_iter();
    let mut n: usize = 0;
    while n < inserted_entries.len()
        invariant
            n <= inserted_entries@.len(),
            lists_entries(removed_entries@, removed_view),
            lists_entries(inserted_entries@, inserted_view),
            forall|k: K|
                #[trigger] container.entries().contains_key(k) == ((m.contains_key(k)
                    && !removed_view.contains_key(k)) || in_prefix(inserted_entries@, n as int, k)),
            forall|k: K|
                container.entries().contains_key(k) ==> #[trigger] container.entries()[k] == (
                if in_prefix(inserted_entries@, n as int, k) {
                    inserted_view[k]
                } else {
                    m[k]
                }),
        decreases inserted_entries@.len() - n,
    {
        let (inserted_key, inserted_value) = inserted_entries[n];
        proof {
            assert(inserted_entries@[n as int].0 == inserted_key);
            lemma_in_prefix_step(inserted_entries@, n as int);
        }
        container.insert(inserted_key, inserted_value);
        n += 1;
    }
    proof {
        assert(container.entries() =~= apply_entries(m, removed_view, inserted_view));
    }
}

/// Every container of type `C` applies a delta with half-deltas of type `DC`
/// entry by entry: what it holds afterwards is [`apply_entries`] of what it
/// held.
pub open spec fn applies_entrywise<
    K,
    V,
    C: Keyed<Key = K, Item = V> + ApplyDelta<DC>,
    DC: Keyed<Key = K, Item = V>,
>() -> bool {
    forall|c: C, d: Delta<DC>, after: C|
        #[trigger] c.delta_applied(d, after) ==> after.entries() == apply_entries(
            c.entries(),
            d.removed.entries(),
            d.inserted.entries(),
        )
}

/// A map applies a delta entry by entry.
pub proof fn lemma_btreemap_applies_entrywise<
    K: OrdKey,
    V: Copy,
    DC: Keyed<Key = K, Item = V> + IntoIter<K>,
>()
    ensures
        applies_entrywise::<K, V, BTreeMap<K, V>, DC>(),
{
}

/// A set applies a delta entry by entry.
pub proof fn lemma_btreeset_applies_entrywise<
    K: OrdKey,
    DC: Keyed<Key = K, Item = ()> + IntoIter<K>,
>()
    ensures
        applies_entrywise::<K, (), BTreeSet<K>, DC>(),
{
}

impl<
    K: OrdKey,
    V: Copy,
    DC: Keyed<Key = K, Item = V> + IntoIter<K>,
> ApplyDelta<DC> for BTreeMap<K, V> {
    open spec fn delta_applied(&self, delta: Delta<DC>, after: Self) -> bool {
        after@ == apply_entries(self@, delta.removed.entries(), delta.inserted.entries())
    }

    fn apply_delta(&mut self, delta: Delta<DC>) {
        apply_delta_on_map(self, delta);
    }
}

impl<K: OrdKey, DC: Keyed<Key = K, Item = ()> + IntoIter<K>> ApplyDelta<DC> for BTreeSet<K> {
    open spec fn delta_applied(&self, delta: Delta<DC>, after: Self) -> bool {
        after.entries() == apply_entries(
            self.entries(),
            delta.removed.entries(),
            delta.inserted.entries(),
        )
    }

    fn apply_delta(&mut self, delta: Delta<DC>) {
        apply_delta_on_map(self, delta);
    }
}

impl<V, DC> ApplyDelta<DC> for PhantomData<V> {
    open spec fn delta_applied(&self, delta: Delta<DC>, after: Self) -> bool {
        after == *self
    }

    fn apply_delta(&mut self, _delta: Delta<DC>) {
        // Nothing happens here, obviously.
    }
}

impl<DC: Clone, T: ApplyDelta<DC>> RevertEdit<T> for Delta<DC> {
    open spec fn reverts(&self, before: T, after: T, back: Self) -> bool {
        &&& back == self.reversed()
        &&& exists|d: Self|
            cloned(back.removed, d.removed) && cloned(back.inserted, d.inserted)
                && #[trigger] before.delta_applied(d, after)
    }

    fn revert_edit(self, target: &mut T) -> (back: Self) {
        let reverse = self.reverse();
        let copy = reverse.clone();
        let ghost before = *target;
        target.apply_delta(copy);
        proof {
            assert(before.delta_applied(copy, *target));
        }
        reverse
    }
}

impl<DC, T: ApplyDelta<DC>> ApplyEdit<T> for Delta<DC> {
    open spec fn applies(&self, before: T, after: T) -> bool {
        before.delta_applied(*self, after)
    }

    fn apply_edit(self, target: &mut T) {
        target.apply_delta(self);
    }
}

/// The length a sequence of length `len` is cut down to when its trailing
/// elements are popped for as long as `removed` holds their index.
pub open spec fn popped_len<V>(len: nat, removed: Map<usize, V>) -> nat
    decreases len,
{
    if len > 0 && removed.contains_key((len - 1) as usize) {
        popped_len((len - 1) as nat, removed)
    } else {
        len
    }
}

/// The greatest key of `m`.
pub open spec fn greatest_key<V>(m: Map<usize, V>) -> usize {
    choose|k: usize| m.contains_key(k) && forall|k2: usize| #[trigger] m.contains_key(k2) ==> k2 <= k
}

/// The least key of `m` greater than `j`.
pub open spec fn least_key_above<V>(m: Map<usize, V>, j: int) -> usize {
    choose|k: usize|
        m.contains_key(k) && j < k && forall|k2: usize| #[trigger] m.contains_key(k2) && j < k2 ==> k
            <= k2
}

/// The length of a vector of length `l` once the entries of `inserted` have
/// been put in: one past the greatest inserted index where that lies beyond the
/// vector, else `l`.
pub open spec fn vec_applied_len<V>(l: nat, inserted: Map<usize, V>) -> nat {
    if exists|k: usize| #[trigger] inserted.contains_key(k) && k >= l {
        (greatest_key(inserted) + 1) as nat
    } else {
        l
    }
}

/// What applying (`removed`, `inserted`) makes of the vector `s`: trailing
/// elements whose indices are removed are popped; then every inserted entry is
/// written at its index, and a gap between the end of the vector and an
/// inserted index is filled with the value inserted at the next index above.
pub open spec fn vec_applied<
    V,
>(s: Seq<V>, removed: Map<usize, V>, inserted: Map<usize, V>) -> Seq<V> {
    let l = popped_len(s.len(), removed);
    Seq::new(
        vec_applied_len(l, inserted),
        |j: int|
            if inserted.contains_key(j as usize) {
                inserted[j as usize]
            } else if j < l {
                s[j]
            } else {
                inserted[least_key_above(inserted, j)]
            },
    )
}

/// Element `j` of a vector being filled by the inserted entries in increasing
/// order of index, once every index up to `hi` has been written: `mid` is the
/// vector before the first write and `l` its length.
spec fn filled_at<V>(ins: Map<usize, V>, mid: Seq<V>, l: nat, hi: int, j: int) -> V {
    if ins.contains_key(j as usize) && j <= hi {
        ins[j as usize]
    } else if j < l {
        mid[j]
    } else {
        ins[least_key_above(ins, j)]
    }
}

proof fn lemma_least_key_above<V>(m: Map<usize, V>, j: int, k: usize)
    requires
        m.contains_key(k),
        j < k,
        forall|k2: usize| #[trigger] m.contains_key(k2) && j < k2 ==> k <= k2,
    ensures
        least_key_above(m, j) == k,
{
    let c = least_key_above(m, j);
    assert(m.contains_key(c) && j < c);
}

/// One write of the fill: writing the inserted item at index `i`, the next
/// inserted index above `hi`, into a sequence filled up to `hi`, and copies of
/// it across any gap up to `i`, gives a sequence filled up to `i`.
proof fn lemma_fill_step<V>(
    ins: Map<usize, V>,
    mid: Seq<V>,
    l: nat,
    hi: int,
    i: usize,
    before: Seq<V>,
    after: Seq<V>,
)
    requires
        ins.contains_key(i),
        hi < i,
        hi + 1 <= before.len(),
        l <= before.len(),
        forall|k2: usize| #[trigger] ins.contains_key(k2) ==> k2 <= hi || i <= k2,
        forall|j: int| 0 <= j < before.len() ==> #[trigger] before[j] == filled_at(ins, mid, l, hi, j),
        after.len() == (if i < before.len() {
            before.len() as int
        } else {
            i + 1
        }),
        forall|j: int|
            0 <= j < after.len() ==> #[trigger] after[j] == (if j == i {
                ins[i]
            } else if j < before.len() {
                before[j]
            } else {
                ins[i]
            }),
    ensures
        forall|j: int|
            0 <= j < after.len() ==> #[trigger] after[j] == filled_at(ins, mid, l, i as int, j),
{
    assert forall|j: int| 0 <= j < after.len() implies #[trigger] after[j] == filled_at(
        ins,
        mid,
        l,
        i as int,
        j,
    ) by {
        if j < before.len() {
            assert(before[j] == filled_at(ins, mid, l, hi, j));
            if j != i {
                if ins.contains_key(j as usize) && hi < j && j <= i {
                    assert(i <= j);
                }
            }
        } else if j < i {
            assert(!ins.contains_key(j as usize));
            lemma_least_key_above(ins, j, i);
        }
    }
}

/// The fill is done once every inserted index has been written: a sequence
/// of the length and items that the last write leaves is what the delta
/// makes of `s`.
proof fn lemma_fill_done<V>(
    s: Seq<V>,
    removed: Map<usize, V>,
    ins: Map<usize, V>,
    mid: Seq<V>,
    l: nat,
    ks: Seq<usize>,
    result: Seq<V>,
)
    requires
        l == popped_len(s.len(), removed),
        l <= s.len(),
        l <= usize::MAX,
        mid == s.take(l as int),
        forall|i: int, j: int| 0 <= i < j < ks.len() ==> ks[i] < ks[j],
        forall|k: usize| ins.contains_key(k) ==> exists|i: int| 0 <= i < ks.len() && #[trigger] ks[i] == k,
        forall|i: int| 0 <= i < ks.len() ==> ins.contains_key(#[trigger] ks[i]),
        result.len() == (if ks.len() == 0 {
            l as int
        } else if l > ks[ks.len() - 1] + 1 {
            l as int
        } else {
            ks[ks.len() - 1] + 1
        }),
        forall|j: int|
            0 <= j < result.len() ==> #[trigger] result[j] == filled_at(
                ins,
                mid,
                l,
                if ks.len() == 0 {
                    -1
                } else {
                    ks[ks.len() - 1] as int
                },
                j,
            ),
    ensures
        result == vec_applied(s, removed, ins),
{
    let n = ks.len();
    let hi: int = if n == 0 {
        -1
    } else {
        ks[n - 1] as int
    };
    if n > 0 {
        assert forall|k2: usize| #[trigger] ins.contains_key(k2) implies k2 <= ks[n - 1] by {
            let i2 = choose|i2: int| 0 <= i2 < ks.len() && ks[i2] == k2;
            if i2 < n - 1 {
                assert(ks[i2] < ks[n - 1]);
            }
        }
        lemma_greatest_key(ins, ks[n - 1]);
    } else {
        assert forall|k2: usize| !ins.contains_key(k2) by {
            if ins.contains_key(k2) {
                let i2 = choose|i2: int| 0 <= i2 < ks.len() && ks[i2] == k2;
            }
        }
    }
    assert(result.len() == vec_applied_len(l, ins));
    assert forall|j: int| 0 <= j < result.len() implies #[trigger] result[j] == vec_applied(
        s,
        removed,
        ins,
    )[j] by {
        if ins.contains_key(j as usize) {
            assert(j <= hi);
        }
        if j < l {
            assert(mid[j] == s[j]);
        }
    }
    assert(result =~= vec_applied(s, removed, ins));
}

proof fn lemma_greatest_key<V>(m: Map<usize, V>, k: usize)
    requires
        m.contains_key(k),
        forall|k2: usize| #[trigger] m.contains_key(k2) ==> k2 <= k,
    ensures
        greatest_key(m) == k,
{
    let c = greatest_key(m);
    assert(m.contains_key(c));
}

/// Popping stops at the first index from the top that `removed` does not
/// hold: every index in between is removed.
proof fn lemma_popped_len<V>(len: nat, removed: Map<usize, V>)
    requires
        len <= usize::MAX,
    ensures
        popped_len(len, removed) <= len,
        forall|j: int|
            popped_len(len, removed) <= j < len ==> removed.contains_key(#[trigger] (j as usize)),
        popped_len(len, removed) > 0 ==> !removed.contains_key(
            (popped_len(len, removed) - 1) as usize,
        ),
    decreases len,
{
    if len > 0 && removed.contains_key((len - 1) as usize) {
        lemma_popped_len((len - 1) as nat, removed);
    }
}

/// Where applying a delta to the entries of the vector `s` gives the entries
/// of the vector `t`, applying it to the vector itself gives `t`.
pub proof fn lemma_vec_applied_entries<V>(
    s: Seq<V>,
    removed: Map<usize, V>,
    inserted: Map<usize, V>,
    t: Seq<V>,
)
    requires
        s.len() <= usize::MAX,
        t.len() <= usize::MAX,
        apply_entries(crate::collection::seq_entries(s), removed, inserted)
            == crate::collection::seq_entries(t),
    ensures
        vec_applied(s, removed, inserted) == t,
{
    let m = crate::collection::seq_entries(s);
    let a = apply_entries(m, removed, inserted);
    let l = popped_len(s.len(), removed);
    let tl = t.len();
    lemma_popped_len(s.len(), removed);
    assert forall|k: usize| #[trigger] a.contains_key(k) == (k < tl) by {
        assert(crate::collection::seq_entries(t).contains_key(k) == (k < tl));
    }
    assert forall|k: usize| #[trigger] a.contains_key(k) == ((k < s.len() && !removed.contains_key(k))
        || inserted.contains_key(k)) by {
        assert(m.contains_key(k) == (k < s.len()));
    }
    if exists|k: usize| #[trigger] inserted.contains_key(k) && k >= l {
        let k = choose|k: usize| #[trigger] inserted.contains_key(k) && k >= l;
        assert(a.contains_key(k));
        let top = (tl - 1) as usize;
        assert(a.contains_key(top));
        if !inserted.contains_key(top) {
            assert(top < s.len() && !removed.contains_key(top));
            assert(!(l <= top < s.len()) || removed.contains_key(top as int as usize));
        }
        assert forall|k2: usize| #[trigger] inserted.contains_key(k2) implies k2 <= top by {
            assert(a.contains_key(k2));
        }
        lemma_greatest_key(inserted, top);
        assert(vec_applied_len(l, inserted) == tl);
    } else {
        if l > 0 {
            let below = (l - 1) as usize;
            assert(a.contains_key(below));
        }
        if tl > l {
            let top = (tl - 1) as usize;
            assert(a.contains_key(top));
            assert(removed.contains_key(top as int as usize));
        }
        assert(vec_applied_len(l, inserted) == tl);
    }
    let r = vec_applied(s, removed, inserted);
    assert forall|j: int| 0 <= j < tl implies #[trigger] r[j] == t[j] by {
        let k = j as usize;
        assert(a.contains_key(k));
        assert(crate::collection::seq_entries(t)[k] == t[j]);
        if !inserted.contains_key(k) && j >= l {
            assert(removed.contains_key(j as usize));
        }
    }
    assert(r =~= t);
}

/// A sequence that the vector delta algorithm runs on: it can report its
/// length, and pop, push and overwrite items at its end or at an index.
pub(crate) trait SeqContainer<V>: Sized {
    /// The items, in order.
    spec fn seq(&self) -> Seq<V>;

    /// The number of items.
    fn seq_len(&self) -> (r: usize)
        ensures
            r == self.seq().len(),
    ;

    /// Drop the last item.
    fn seq_pop(&mut self)
        requires
            old(self).seq().len() > 0,
        ensures
            final(self).seq() == old(self).seq().drop_last(),
    ;

    /// Append an item.
    fn seq_push(&mut self, v: V)
        ensures
            final(self).seq() == old(self).seq().push(v),
    ;

    /// Overwrite the item at index `i`.
    fn seq_set(&mut self, i: usize, v: V)
        requires
            i < old(self).seq().len(),
        ensures
            final(self).seq() == old(self).seq().update(i as int, v),
    ;
}

impl<V> SeqContainer<V> for Vec<V> {
    open spec fn seq(&self) -> Seq<V> {
        self@
    }

    fn seq_len(&self) -> (r: usize) {
        self.len()
    }

    fn seq_pop(&mut self) {
        let _ = self.pop();
    }

    fn seq_push(&mut self, v: V) {
        self.push(v);
    }

    fn seq_set(&mut self, i: usize, v: V) {
        self[i] = v;
    }
}

/// Apply a delta keyed by index to a sequence: pop the trailing items whose
/// indices are removed, then write each inserted item at its index, in
/// increasing order of index, pushing copies of it to fill any gap.
#[verifier::loop_isolation(false)]
#[verifier::spinoff_prover]
#[verifier::rlimit(40)]
pub(crate) fn apply_delta_on_seq<V: Copy, C: SeqContainer<V>>(target: &mut C, delta: Delta<BTreeMap<usize, V>>)
    ensures
        (forall|k: usize| #[trigger] delta.inserted@.contains_key(k) ==> k < usize::MAX)
            ==> final(target).seq() == vec_applied(old(target).seq(), delta.removed@, delta.inserted@),
{
    proof {
        usize::lemma_ord_laws();
    }
    let ghost s = target.seq();
    let (removed, inserted) = delta.dissolve();
    let ghost l = popped_len(s.len(), removed@);

    // Removal that keeps later indices is impossible here, so only the trailing elements
    // whose indices are removed are popped. Any other removed element is
    // overwritten by a subsequent insertion or stays.
    while target.seq_len() > 0 && removed.contains_key(&(target.seq_len() - 1))
        invariant
            target.seq().len() <= s.len(),
            target.seq() == s.take(target.seq().len() as int),
            popped_len(target.seq().len() as nat, removed@) == l,
        decreases target.seq().len(),
    {
        target.seq_pop();
    }
    proof {
        assert(popped_len(target.seq().len() as nat, removed@) == target.seq().len());
    }

    let ghost mid = target.seq();
    let ghost ins = inserted@;
    let inserted_iter = inserted.iter();
    let ghost es = inserted_iter.remaining();
    let ghost ks = es.map_values(|kv: (&usize, &V)| *kv.0);
    proof {
        lemma_increasing_indices(ks);
        assert forall|k: usize| ins.contains_key(k) implies exists|i: int|
            0 <= i < ks.len() && #[trigger] ks[i] == k by {
            assert(es.contains((&k, &ins[k])));
            let i = choose|i: int| 0 <= i < es.len() && es[i] == (&k, &ins[k]);
            assert(ks[i] == k);
        }
        assert forall|i: int| 0 <= i < ks.len() implies ins.contains_key(#[trigger] ks[i])
            && ins[ks[i]] == *es[i].1 by {
            assert(ins.contains_key(*es[i].0));
        }
        assert(target.seq() =~= Seq::new(target.seq().len(), |j: int| filled_at(ins, mid, l, -1, j)));
    }
    for kv in it: inserted_iter
        invariant
            it.seq() == es,
            target.seq().len() == (if it.index() == 0 {
                l as int
            } else if l > ks[it.index() - 1] + 1 {
                l as int
            } else {
                ks[it.index() - 1] + 1
            }),
            forall|j: int|
                0 <= j < target.seq().len() ==> #[trigger] target.seq()[j] == filled_at(
                    ins,
                    mid,
                    l,
                    if it.index() == 0 {
                        -1
                    } else {
                        ks[it.index() - 1] as int
                    },
                    j,
                ),
    {
        let (inserted_index, inserted_value) = kv;
        let i = *inserted_index;
        let v = *inserted_value;
        let ghost n = it.index();
        let ghost hi: int = if n == 0 {
            -1
        } else {
            ks[n - 1] as int
        };
        let ghost before = target.seq();
        proof {
            assert(ks[n] == i);
            assert(ins[i] == v);
            assert forall|k2: usize| #[trigger] ins.contains_key(k2) implies k2 <= hi || i <= k2 by {
                let i2 = choose|i2: int| 0 <= i2 < ks.len() && ks[i2] == k2;
                if i2 < n {
                    assert(ks[i2] <= ks[n - 1]);
                } else if i2 > n {
                    assert(ks[n] < ks[i2]);
                }
            }
        }
        if i == target.seq_len() {
            target.seq_push(v);
        } else if i < target.seq_len() {
            target.seq_set(i, v);
        } else {
            while target.seq_len() <= i
                invariant
                    before.len() <= target.seq().len() <= i + 1,
                    forall|j: int| 0 <= j < before.len() ==> target.seq()[j] == before[j],
                    forall|j: int| before.len() <= j < target.seq().len() ==> target.seq()[j] == v,
                decreases i + 1 - target.seq().len(),
            {
                target.seq_push(v);
            }
        }
        proof {
            assert(hi + 1 <= before.len() && l <= before.len());
            assert(target.seq().len() == (if i < before.len() {
                before.len() as int
            } else {
                i + 1
            }));
            assert forall|j: int| 0 <= j < target.seq().len() implies #[trigger] target.seq()[j]
                == (if j == i {
                ins[i]
            } else if j < before.len() {
                before[j]
            } else {
                ins[i]
            }) by {}
            lemma_fill_step(ins, mid, l, hi, i, before, target.seq());
        }
    }
    proof {
        lemma_fill_done(s, removed@, ins, mid, l, ks, target.seq());
    }
}

impl<V: Copy> ApplyDelta<BTreeMap<usize, V>> for Vec<V> {
    /// Where no inserted index is `usize::MAX` (one past it would not be a
    /// length), the vector becomes `vec_applied` of itself.
    open spec fn delta_applied(&self, delta: Delta<BTreeMap<usize, V>>, after: Self) -> bool {
        (forall|k: usize| #[trigger] delta.inserted@.contains_key(k) ==> k < usize::MAX) ==> after@
            == vec_applied(self@, delta.removed@, delta.inserted@)
    }

    fn apply_delta(&mut self, delta: Delta<BTreeMap<usize, V>>) {
        apply_delta_on_seq(self, delta);
    }
}

/// What applying a delta with inserted half `inserted` makes of a value `v`
/// that is held whole under index `0`: the value inserted at `0` where there
/// is one, else `v` itself (a whole value cannot be removed).
pub open spec fn whole_applied<T>(v: T, inserted: Map<usize, T>) -> T {
    if inserted.contains_key(0) {
        inserted[0]
    } else {
        v
    }
}

fn apply_delta_on_whole<T>(target: &mut T, delta: Delta<BTreeMap<usize, T>>)
    ensures
        *final(target) == whole_applied(*old(target), delta.inserted@),
{
    proof {
        usize::lemma_ord_laws();
    }
    let (_removed, mut inserted) = delta.dissolve();
    let zero: usize = 0;
    if let Some(value) = inserted.remove(&zero) {
        *target = value;
    }
}

impl<V> ApplyDelta<BTreeMap<usize, V>> for Option<V> {
    /// Only index `0` counts: the value is removed if the delta removes index
    /// `0`, and then set if the delta inserts at index `0`.
    open spec fn delta_applied(&self, delta: Delta<BTreeMap<usize, V>>, after: Self) -> bool {
        after.entries() == apply_entries(self.entries(), delta.removed@, delta.inserted@).restrict(
            set![0usize],
        )
    }

    fn apply_delta(&mut self, delta: Delta<BTreeMap<usize, V>>) {
        proof {
            usize::lemma_ord_laws();
        }
        let ghost before = self.entries();
        let ghost ins = delta.inserted@;
        let (removed, mut inserted) = delta.dissolve();
        let zero: usize = 0;
        if removed.contains_key(&zero) {
            *self = None;
        }
        if let Some(value) = inserted.remove(&zero) {
            *self = Some(value);
        }
        proof {
            assert(self.entries() =~= apply_entries(before, removed@, ins).restrict(
                set![0usize],
            ));
        }
    }
}

impl<V> ApplyDelta<BTreeMap<usize, V>> for Box<V> {
    open spec fn delta_applied(&self, delta: Delta<BTreeMap<usize, V>>, after: Self) -> bool {
        *after == whole_applied(**self, delta.inserted@)
    }

    fn apply_delta(&mut self, delta: Delta<BTreeMap<usize, V>>) {
        proof {
            usize::lemma_ord_laws();
        }
        let (_removed, mut inserted) = delta.dissolve();
        let zero: usize = 0;
        if let Some(value) = inserted.remove(&zero) {
            *self = Box::new(value);
        }
    }
}

impl<V> ApplyDelta<BTreeMap<usize, V>> for std::rc::Rc<V> {
    open spec fn delta_applied(&self, delta: Delta<BTreeMap<usize, V>>, after: Self) -> bool {
        *after == whole_applied(**self, delta.inserted@)
    }

    fn apply_delta(&mut self, delta: Delta<BTreeMap<usize, V>>) {
        proof {
            usize::lemma_ord_laws();
        }
        let (_removed, mut inserted) = delta.dissolve();
        let zero: usize = 0;
        if let Some(value) = inserted.remove(&zero) {
            *self = std::rc::Rc::new(value);
        }
    }
}

impl<V> ApplyDelta<BTreeMap<usize, V>> for std::sync::Arc<V> {
    open spec fn delta_applied(&self, delta: Delta<BTreeMap<usize, V>>, after: Self) -> bool {
        *after == whole_applied(**self, delta.inserted@)
    }

    fn apply_delta(&mut self, delta: Delta<BTreeMap<usize, V>>) {
        proof {
            usize::lemma_ord_laws();
        }
        let (_removed, mut inserted) = delta.dissolve();
        let zero: usize = 0;
        if let Some(value) = inserted.remove(&zero) {
            *self = std::sync::Arc::new(value);
        }
    }
}

impl ApplyDelta<BTreeMap<usize, i8>> for i8 {
    open spec fn delta_applied(&self, delta: Delta<BTreeMap<usize, i8>>, after: Self) -> bool {
        after == whole_applied(*self, delta.inserted@)
    }

    fn apply_delta(&mut self, delta: Delta<BTreeMap<usize, i8>>) {
        apply_delta_on_whole(self, delta);
    }
}

impl ApplyDelta<BTreeMap<usize, i16>> for i16 {
    open spec fn delta_applied(&self, delta: Delta<BTreeMap<usize, i16>>, after: Self) -> bool {
        after == whole_applied(*self, delta.inserted@)
    }

    fn apply_delta(&mut self, delta: Delta<BTreeMap<usize, i16>>) {
        apply_delta_on_whole(self, delta);
    }
}

impl ApplyDelta<BTreeMap<usize, i32>> for i32 {
    open spec fn delta_applied(&self, delta: Delta<BTreeMap<usize, i32>>, after: Self) -> bool {
        after == whole_applied(*self, delta.inserted@)
    }

    fn apply_delta(&mut self, delta: Delta<BTreeMap<usize, i32>>) {
        apply_delta_on_whole(self, delta);
    }
}

impl ApplyDelta<BTreeMap<usize, i64>> for i64 {
    open spec fn delta_applied(&self, delta: Delta<BTreeMap<usize, i64>>, after: Self) -> bool {
        after == whole_applied(*self, delta.inserted@)
    }

    fn apply_delta(&mut self, delta: Delta<BTreeMap<usize, i64>>) {
        apply_delta_on_whole(self, delta);
    }
}

impl ApplyDelta<BTreeMap<usize, i128>> for i128 {
    open spec fn delta_applied(&self, delta: Delta<BTreeMap<usize, i128>>, after: Self) -> bool {
        after == whole_applied(*self, delta.inserted@)
    }

    fn apply_delta(&mut self, delta: Delta<BTreeMap<usize, i128>>) {
        apply_delta_on_whole(self, delta);
    }
}

impl ApplyDelta<BTreeMap<usize, isize>> for isize {
    open spec fn delta_applied(&self, delta: Delta<BTreeMap<usize, isize>>, after: Self) -> bool {
        after == whole_applied(*self, delta.inserted@)
    }

    fn apply_delta(&mut self, delta: Delta<BTreeMap<usize, isize>>) {
        apply_delta_on_whole(self, delta);
    }
}

impl ApplyDelta<BTreeMap<usize, u8>> for u8 {
    open spec fn delta_applied(&self, delta: Delta<BTreeMap<usize, u8>>, after: Self) -> bool {
        after == whole_applied(*self, delta.inserted@)
    }

    fn apply_delta(&mut self, delta: Delta<BTreeMap<usize, u8>>) {
        apply_delta_on_whole(self, delta);
    }
}

impl ApplyDelta<BTreeMap<usize, u16>> for u16 {
    open spec fn delta_applied(&self, delta: Delta<BTreeMap<usize, u16>>, after: Self) -> bool {
        after == whole_applied(*self, delta.inserted@)
    }

    fn apply_delta(&mut self, delta: Delta<BTreeMap<usize, u16>>) {
        apply_delta_on_whole(self, delta);
    }
}

impl ApplyDelta<BTreeMap<usize, u32>> for u32 {
    open spec fn delta_applied(&self, delta: Delta<BTreeMap<usize, u32>>, after: Self) -> bool {
        after == whole_applied(*self, delta.inserted@)
    }

    fn apply_delta(&mut self, delta: Delta<BTreeMap<usize, u32>>) {
        apply_delta_on_whole(self, delta);
    }
}

impl ApplyDelta<BTreeMap<usize, u64>> for u64 {
    open spec fn delta_applied(&self, delta: Delta<BTreeMap<usize, u64>>, after: Self) -> bool {
        after == whole_applied(*self, delta.inserted@)
    }

    fn apply_delta(&mut self, delta: Delta<BTreeMap<usize, u64>>) {
        apply_delta_on_whole(self, delta);
    }
}

impl ApplyDelta<BTreeMap<usize, u128>> for u128 {
    open spec fn delta_applied(&self, delta: Delta<BTreeMap<usize, u128>>, after: Self) -> bool {
        after == whole_applied(*self, delta.inserted@)
    }

    fn apply_delta(&mut self, delta: Delta<BTreeMap<usize, u128>>) {
        apply_delta_on_whole(self, delta);
    }
}

impl ApplyDelta<BTreeMap<usize, usize>> for usize {
    open spec fn delta_applied(&self, delta: Delta<BTreeMap<usize, usize>>, after: Self) -> bool {
        after == whole_applied(*self, delta.inserted@)
    }

    fn apply_delta(&mut self, delta: Delta<BTreeMap<usize, usize>>) {
        apply_delta_on_whole(self, delta);
    }
}

impl ApplyDelta<BTreeMap<usize, char>> for char {
    open spec fn delta_applied(&self, delta: Delta<BTreeMap<usize, char>>, after: Self) -> bool {
        after == whole_applied(*self, delta.inserted@)
    }

    fn apply_delta(&mut self, delta: Delta<BTreeMap<usize, char>>) {
        apply_delta_on_whole(self, delta);
    }
}

impl ApplyDelta<BTreeMap<usize, bool>> for bool {
    open spec fn delta_applied(&self, delta: Delta<BTreeMap<usize, bool>>, after: Self) -> bool {
        after == whole_applied(*self, delta.inserted@)
    }

    fn apply_delta(&mut self, delta: Delta<BTreeMap<usize, bool>>) {
        apply_delta_on_whole(self, delta);
    }
}

impl ApplyDelta<BTreeMap<usize, ()>> for () {
    open spec fn delta_applied(&self, delta: Delta<BTreeMap<usize, ()>>, after: Self) -> bool {
        after == whole_applied(*self, delta.inserted@)
    }

    fn apply_delta(&mut self, delta: Delta<BTreeMap<usize, ()>>) {
        apply_delta_on_whole(self, delta);
    }
}

impl<T0> ApplyDelta<BTreeMap<usize, (T0,)>> for (T0,) {
    open spec fn delta_applied(&self, delta: Delta<BTreeMap<usize, (T0,)>>, after: Self) -> bool {
        after == whole_applied(*self, delta.inserted@)
    }

    fn apply_delta(&mut self, delta: Delta<BTreeMap<usize, (T0,)>>) {
        apply_delta_on_whole(self, delta);
    }
}

impl<T0, T1> ApplyDelta<BTreeMap<usize, (T0, T1)>> for (T0, T1) {
    open spec fn delta_applied(&self, delta: Delta<BTreeMap<usize, (T0, T1)>>, after: Self) -> bool {
        after == whole_applied(*self, delta.inserted@)
    }

    fn apply_delta(&mut self, delta: Delta<BTreeMap<usize, (T0, T1)>>) {
        apply_delta_on_whole(self, delta);
    }
}

impl<T0, T1, T2> ApplyDelta<BTreeMap<usize, (T0, T1, T2)>> for (T0, T1, T2) {
    open spec fn delta_applied(&self, delta: Delta<BTreeMap<usize, (T0, T1, T2)>>, after: Self) -> bool {
        after == whole_applied(*self, delta.inserted@)
    }

    fn apply_delta(&mut self, delta: Delta<BTreeMap<usize, (T0, T1, T2)>>) {
        apply_delta_on_whole(self, delta);
    }
}

impl<T0, T1, T2, T3> ApplyDelta<BTreeMap<usize, (T0, T1, T2, T3)>> for (T0, T1, T2, T3) {
    open spec fn delta_applied(&self, delta: Delta<BTreeMap<usize, (T0, T1, T2, T3)>>, after: Self) -> bool {
        after == whole_applied(*self, delta.inserted@)
    }

    fn apply_delta(&mut self, delta: Delta<BTreeMap<usize, (T0, T1, T2, T3)>>) {
        apply_delta_on_whole(self, delta);
    }
}

impl<
    T0,
    T1,
    T2,
    T3,
    T4,
> ApplyDelta<BTreeMap<usize, (T0, T1, T2, T3, T4)>> for (T0, T1, T2, T3, T4) {
    open spec fn delta_applied(&self, delta: Delta<BTreeMap<usize, (T0, T1, T2, T3, T4)>>, after: Self) -> bool {
        after == whole_applied(*self, delta.inserted@)
    }

    fn apply_delta(&mut self, delta: Delta<BTreeMap<usize, (T0, T1, T2, T3, T4)>>) {
        apply_delta_on_whole(self, delta);
    }
}

impl<
    T0,
    T1,
    T2,
    T3,
    T4,
    T5,
> ApplyDelta<BTreeMap<usize, (T0, T1, T2, T3, T4, T5)>> for (T0, T1, T2, T3, T4, T5) {
    open spec fn delta_applied(&self, delta: Delta<BTreeMap<usize, (T0, T1, T2, T3, T4, T5)>>, after: Self) -> bool {
        after == whole_applied(*self, delta.inserted@)
    }

    fn apply_delta(&mut self, delta: Delta<BTreeMap<usize, (T0, T1, T2, T3, T4, T5)>>) {
        apply_delta_on_whole(self, delta);
    }
}

impl<
    T0,
    T1,
    T2,
    T3,
    T4,
    T5,
    T6,
> ApplyDelta<BTreeMap<usize, (T0, T1, T2, T3, T4, T5, T6)>> for (T0, T1, T2, T3, T4, T5, T6) {
    open spec fn delta_applied(&self, delta: Delta<BTreeMap<usize, (T0, T1, T2, T3, T4, T5, T6)>>, after: Self) -> bool {
        after == whole_applied(*self, delta.inserted@)
    }

    fn apply_delta(&mut self, delta: Delta<BTreeMap<usize, (T0, T1, T2, T3, T4, T5, T6)>>) {
        apply_delta_on_whole(self, delta);
    }
}

impl<
    T0,
    T1,
    T2,
    T3,
    T4,
    T5,
    T6,
    T7,
> ApplyDelta<BTreeMap<usize, (T0, T1, T2, T3, T4, T5, T6, T7)>> for (T0, T1, T2, T3, T4, T5, T6, T7) {
    open spec fn delta_applied(&self, delta: Delta<BTreeMap<usize, (T0, T1, T2, T3, T4, T5, T6, T7)>>, after: Self) -> bool {
        after == whole_applied(*self, delta.inserted@)
    }

    fn apply_delta(&mut self, delta: Delta<BTreeMap<usize, (T0, T1, T2, T3, T4, T5, T6, T7)>>) {
        apply_delta_on_whole(self, delta);
    }
}

impl<
    T0,
    T1,
    T2,
    T3,
    T4,
    T5,
    T6,
    T7,
    T8,
> ApplyDelta<BTreeMap<usize, (T0, T1, T2, T3, T4, T5, T6, T7, T8)>> for (T0, T1, T2, T3, T4, T5, T6, T7, T8) {
    open spec fn delta_applied(&self, delta: Delta<BTreeMap<usize, (T0, T1, T2, T3, T4, T5, T6, T7, T8)>>, after: Self) -> bool {
        after == whole_applied(*self, delta.inserted@)
    }

    fn apply_delta(&mut self, delta: Delta<BTreeMap<usize, (T0, T1, T2, T3, T4, T5, T6, T7, T8)>>) {
        apply_delta_on_whole(self, delta);
    }
}

impl<
    T0,
    T1,
    T2,
    T3,
    T4,
    T5,
    T6,
    T7,
    T8,
    T9,
> ApplyDelta<BTreeMap<usize, (T0, T1, T2, T3, T4, T5, T6, T7, T8, T9)>> for (T0, T1, T2, T3, T4, T5, T6, T7, T8, T9) {
    open spec fn delta_applied(&self, delta: Delta<BTreeMap<usize, (T0, T1, T2, T3, T4, T5, T6, T7, T8, T9)>>, after: Self) -> bool {
        after == whole_applied(*self, delta.inserted@)
    }

    fn apply_delta(&mut self, delta: Delta<BTreeMap<usize, (T0, T1, T2, T3, T4, T5, T6, T7, T8, T9)>>) {
        apply_delta_on_whole(self, delta);
    }
}

impl<
    T0,
    T1,
    T2,
    T3,
    T4,
    T5,
    T6,
    T7,
    T8,
    T9,
    T10,
> ApplyDelta<BTreeMap<usize, (T0, T1, T2, T3, T4, T5, T6, T7, T8, T9, T10)>> for (T0, T1, T2, T3, T4, T5, T6, T7, T8, T9, T10) {
    open spec fn delta_applied(&self, delta: Delta<BTreeMap<usize, (T0, T1, T2, T3, T4, T5, T6, T7, T8, T9, T10)>>, after: Self) -> bool {
        after == whole_applied(*self, delta.inserted@)
    }

    fn apply_delta(&mut self, delta: Delta<BTreeMap<usize, (T0, T1, T2, T3, T4, T5, T6, T7, T8, T9, T10)>>) {
        apply_delta_on_whole(self, delta);
    }
}

impl<
    T0,
    T1,
    T2,
    T3,
    T4,
    T5,
    T6,
    T7,
    T8,
    T9,
    T10,
    T11,
> ApplyDelta<BTreeMap<usize, (T0, T1, T2, T3, T4, T5, T6, T7, T8, T9, T10, T11)>> for (T0, T1, T2, T3, T4, T5, T6, T7, T8, T9, T10, T11) {
    open spec fn delta_applied(&self, delta: Delta<BTreeMap<usize, (T0, T1, T2, T3, T4, T5, T6, T7, T8, T9, T10, T11)>>, after: Self) -> bool {
        after == whole_applied(*self, delta.inserted@)
    }

    fn apply_delta(&mut self, delta: Delta<BTreeMap<usize, (T0, T1, T2, T3, T4, T5, T6, T7, T8, T9, T10, T11)>>) {
        apply_delta_on_whole(self, delta);
    }
}


/// Values of type `T`, held whole under index `0`, apply a delta as the map
/// model says: where the delta inserts at index `0`, the value becomes the
/// item that `apply_entries` leaves at index `0` of the entries `{0: v}`;
/// otherwise it stays, for a whole value is never removed.
pub open spec fn applies_as_whole<T: ApplyDelta<BTreeMap<usize, T>>>() -> bool {
    forall|v: T, d: Delta<BTreeMap<usize, T>>, after: T|
        #[trigger] v.delta_applied(d, after) ==> {
            let m = apply_entries(Map::<usize, T>::empty().insert(0usize, v), d.removed@, d.inserted@);
            &&& d.inserted@.contains_key(0usize) ==> after == m[0usize]
            &&& !d.inserted@.contains_key(0usize) ==> after == v
        }
}

/// Smart pointers of type `P` to values of type `V`, whose pointee is held
/// under index `0`, apply a delta as the map model says: where the delta
/// inserts at index `0`, the pointee becomes the item that `apply_entries`
/// leaves at index `0` of the pointer's entries; otherwise it stays.
pub open spec fn applies_as_pointee<V, P: Keyed<Key = usize, Item = V> + ApplyDelta<BTreeMap<usize, V>>>() -> bool {
    forall|p: P, d: Delta<BTreeMap<usize, V>>, after: P|
        #[trigger] p.delta_applied(d, after) ==> {
            let m = apply_entries(p.entries(), d.removed@, d.inserted@);
            &&& d.inserted@.contains_key(0usize) ==> after.entries() == Map::<usize, V>::empty().insert(
                0usize,
                m[0usize],
            )
            &&& !d.inserted@.contains_key(0usize) ==> after.entries() == p.entries()
        }
}

/// Every scalar applies a delta as the map model says of a value held whole
/// under index `0`.
pub proof fn lemma_scalars_apply_as_whole()
    ensures
        applies_as_whole::<i8>(),
        applies_as_whole::<i16>(),
        applies_as_whole::<i32>(),
        applies_as_whole::<i64>(),
        applies_as_whole::<i128>(),
        applies_as_whole::<isize>(),
        applies_as_whole::<u8>(),
        applies_as_whole::<u16>(),
        applies_as_whole::<u32>(),
        applies_as_whole::<u64>(),
        applies_as_whole::<u128>(),
        applies_as_whole::<usize>(),
        applies_as_whole::<char>(),
        applies_as_whole::<bool>(),
        applies_as_whole::<()>(),
{
    assert forall|v: i8, d: Delta<BTreeMap<usize, i8>>, after: i8|
        #[trigger] v.delta_applied(d, after) implies {
            let m = apply_entries(Map::<usize, i8>::empty().insert(0usize, v), d.removed@, d.inserted@);
            &&& d.inserted@.contains_key(0usize) ==> after == m[0usize]
            &&& !d.inserted@.contains_key(0usize) ==> after == v
        } by {}
    assert forall|v: i16, d: Delta<BTreeMap<usize, i16>>, after: i16|
        #[trigger] v.delta_applied(d, after) implies {
            let m = apply_entries(Map::<usize, i16>::empty().insert(0usize, v), d.removed@, d.inserted@);
            &&& d.inserted@.contains_key(0usize) ==> after == m[0usize]
            &&& !d.inserted@.contains_key(0usize) ==> after == v
        } by {}
    assert forall|v: i32, d: Delta<BTreeMap<usize, i32>>, after: i32|
        #[trigger] v.delta_applied(d, after) implies {
            let m = apply_entries(Map::<usize, i32>::empty().insert(0usize, v), d.removed@, d.inserted@);
            &&& d.inserted@.contains_key(0usize) ==> after == m[0usize]
            &&& !d.inserted@.contains_key(0usize) ==> after == v
        } by {}
    assert forall|v: i64, d: Delta<BTreeMap<usize, i64>>, after: i64|
        #[trigger] v.delta_applied(d, after) implies {
            let m = apply_entries(Map::<usize, i64>::empty().insert(0usize, v), d.removed@, d.inserted@);
            &&& d.inserted@.contains_key(0usize) ==> after == m[0usize]
            &&& !d.inserted@.contains_key(0usize) ==> after == v
        } by {}
    assert forall|v: i128, d: Delta<BTreeMap<usize, i128>>, after: i128|
        #[trigger] v.delta_applied(d, after) implies {
            let m = apply_entries(Map::<usize, i128>::empty().insert(0usize, v), d.removed@, d.inserted@);
            &&& d.inserted@.contains_key(0usize) ==> after == m[0usize]
            &&& !d.inserted@.contains_key(0usize) ==> after == v
        } by {}
    assert forall|v: isize, d: Delta<BTreeMap<usize, isize>>, after: isize|
        #[trigger] v.delta_applied(d, after) implies {
            let m = apply_entries(Map::<usize, isize>::empty().insert(0usize, v), d.removed@, d.inserted@);
            &&& d.inserted@.contains_key(0usize) ==> after == m[0usize]
            &&& !d.inserted@.contains_key(0usize) ==> after == v
        } by {}
    assert forall|v: u8, d: Delta<BTreeMap<usize, u8>>, after: u8|
        #[trigger] v.delta_applied(d, after) implies {
            let m = apply_entries(Map::<usize, u8>::empty().insert(0usize, v), d.removed@, d.inserted@);
            &&& d.inserted@.contains_key(0usize) ==> after == m[0usize]
            &&& !d.inserted@.contains_key(0usize) ==> after == v
        } by {}
    assert forall|v: u16, d: Delta<BTreeMap<usize, u16>>, after: u16|
        #[trigger] v.delta_applied(d, after) implies {
            let m = apply_entries(Map::<usize, u16>::empty().insert(0usize, v), d.removed@, d.inserted@);
            &&& d.inserted@.contains_key(0usize) ==> after == m[0usize]
            &&& !d.inserted@.contains_key(0usize) ==> after == v
        } by {}
    assert forall|v: u32, d: Delta<BTreeMap<usize, u32>>, after: u32|
        #[trigger] v.delta_applied(d, after) implies {
            let m = apply_entries(Map::<usize, u32>::empty().insert(0usize, v), d.removed@, d.inserted@);
            &&& d.inserted@.contains_key(0usize) ==> after == m[0usize]
            &&& !d.inserted@.contains_key(0usize) ==> after == v
        } by {}
    assert forall|v: u64, d: Delta<BTreeMap<usize, u64>>, after: u64|
        #[trigger] v.delta_applied(d, after) implies {
            let m = apply_entries(Map::<usize, u64>::empty().insert(0usize, v), d.removed@, d.inserted@);
            &&& d.inserted@.contains_key(0usize) ==> after == m[0usize]
            &&& !d.inserted@.contains_key(0usize) ==> after == v
        } by {}
    assert forall|v: u128, d: Delta<BTreeMap<usize, u128>>, after: u128|
        #[trigger] v.delta_applied(d, after) implies {
            let m = apply_entries(Map::<usize, u128>::empty().insert(0usize, v), d.removed@, d.inserted@);
            &&& d.inserted@.contains_key(0usize) ==> after == m[0usize]
            &&& !d.inserted@.contains_key(0usize) ==> after == v
        } by {}
    assert forall|v: usize, d: Delta<BTreeMap<usize, usize>>, after: usize|
        #[trigger] v.delta_applied(d, after) implies {
            let m = apply_entries(Map::<usize, usize>::empty().insert(0usize, v), d.removed@, d.inserted@);
            &&& d.inserted@.contains_key(0usize) ==> after == m[0usize]
            &&& !d.inserted@.contains_key(0usize) ==> after == v
        } by {}
    assert forall|v: char, d: Delta<BTreeMap<usize, char>>, after: char|
        #[trigger] v.delta_applied(d, after) implies {
            let m = apply_entries(Map::<usize, char>::empty().insert(0usize, v), d.removed@, d.inserted@);
            &&& d.inserted@.contains_key(0usize) ==> after == m[0usize]
            &&& !d.inserted@.contains_key(0usize) ==> after == v
        } by {}
    assert forall|v: bool, d: Delta<BTreeMap<usize, bool>>, after: bool|
        #[trigger] v.delta_applied(d, after) implies {
            let m = apply_entries(Map::<usize, bool>::empty().insert(0usize, v), d.removed@, d.inserted@);
            &&& d.inserted@.contains_key(0usize) ==> after == m[0usize]
            &&& !d.inserted@.contains_key(0usize) ==> after == v
        } by {}
    assert forall|v: (), d: Delta<BTreeMap<usize, ()>>, after: ()|
        #[trigger] v.delta_applied(d, after) implies {
            let m = apply_entries(Map::<usize, ()>::empty().insert(0usize, v), d.removed@, d.inserted@);
            &&& d.inserted@.contains_key(0usize) ==> after == m[0usize]
            &&& !d.inserted@.contains_key(0usize) ==> after == v
        } by {}
}

/// Every tuple applies a delta as the map model says of a value held whole
/// under index `0`.
pub proof fn lemma_tuples_apply_as_whole<T0, T1, T2, T3, T4, T5, T6, T7, T8, T9, T10, T11>()
    ensures
        applies_as_whole::<(T0,)>(),
        applies_as_whole::<(T0, T1)>(),
        applies_as_whole::<(T0, T1, T2)>(),
        applies_as_whole::<(T0, T1, T2, T3)>(),
        applies_as_whole::<(T0, T1, T2, T3, T4)>(),
        applies_as_whole::<(T0, T1, T2, T3, T4, T5)>(),
        applies_as_whole::<(T0, T1, T2, T3, T4, T5, T6)>(),
        applies_as_whole::<(T0, T1, T2, T3, T4, T5, T6, T7)>(),
        applies_as_whole::<(T0, T1, T2, T3, T4, T5, T6, T7, T8)>(),
        applies_as_whole::<(T0, T1, T2, T3, T4, T5, T6, T7, T8, T9)>(),
        applies_as_whole::<(T0, T1, T2, T3, T4, T5, T6, T7, T8, T9, T10)>(),
        applies_as_whole::<(T0, T1, T2, T3, T4, T5, T6, T7, T8, T9, T10, T11)>(),
{
    assert forall|v: (T0,), d: Delta<BTreeMap<usize, (T0,)>>, after: (T0,)|
        #[trigger] v.delta_applied(d, after) implies {
            let m = apply_entries(Map::<usize, (T0,)>::empty().insert(0usize, v), d.removed@, d.inserted@);
            &&& d.inserted@.contains_key(0usize) ==> after == m[0usize]
            &&& !d.inserted@.contains_key(0usize) ==> after == v
        } by {}
    assert forall|v: (T0, T1), d: Delta<BTreeMap<usize, (T0, T1)>>, after: (T0, T1)|
        #[trigger] v.delta_applied(d, after) implies {
            let m = apply_entries(Map::<usize, (T0, T1)>::empty().insert(0usize, v), d.removed@, d.inserted@);
            &&& d.inserted@.contains_key(0usize) ==> after == m[0usize]
            &&& !d.inserted@.contains_key(0usize) ==> after == v
        } by {}
    assert forall|v: (T0, T1, T2), d: Delta<BTreeMap<usize, (T0, T1, T2)>>, after: (T0, T1, T2)|
        #[trigger] v.delta_applied(d, after) implies {
            let m = apply_entries(Map::<usize, (T0, T1, T2)>::empty().insert(0usize, v), d.removed@, d.inserted@);
            &&& d.inserted@.contains_key(0usize) ==> after == m[0usize]
            &&& !d.inserted@.contains_key(0usize) ==> after == v
        } by {}
    assert forall|v: (T0, T1, T2, T3), d: Delta<BTreeMap<usize, (T0, T1, T2, T3)>>, after: (T0, T1, T2, T3)|
        #[trigger] v.delta_applied(d, after) implies {
            let m = apply_entries(Map::<usize, (T0, T1, T2, T3)>::empty().insert(0usize, v), d.removed@, d.inserted@);
            &&& d.inserted@.contains_key(0usize) ==> after == m[0usize]
            &&& !d.inserted@.contains_key(0usize) ==> after == v
        } by {}
    assert forall|v: (T0, T1, T2, T3, T4), d: Delta<BTreeMap<usize, (T0, T1, T2, T3, T4)>>, after: (T0, T1, T2, T3, T4)|
        #[trigger] v.delta_applied(d, after) implies {
            let m = apply_entries(Map::<usize, (T0, T1, T2, T3, T4)>::empty().insert(0usize, v), d.removed@, d.inserted@);
            &&& d.inserted@.contains_key(0usize) ==> after == m[0usize]
            &&& !d.inserted@.contains_key(0usize) ==> after == v
        } by {}
    assert forall|v: (T0, T1, T2, T3, T4, T5), d: Delta<BTreeMap<usize, (T0, T1, T2, T3, T4, T5)>>, after: (T0, T1, T2, T3, T4, T5)|
        #[trigger] v.delta_applied(d, after) implies {
            let m = apply_entries(Map::<usize, (T0, T1, T2, T3, T4, T5)>::empty().insert(0usize, v), d.removed@, d.inserted@);
            &&& d.inserted@.contains_key(0usize) ==> after == m[0usize]
            &&& !d.inserted@.contains_key(0usize) ==> after == v
        } by {}
    assert forall|v: (T0, T1, T2, T3, T4, T5, T6), d: Delta<BTreeMap<usize, (T0, T1, T2, T3, T4, T5, T6)>>, after: (T0, T1, T2, T3, T4, T5, T6)|
        #[trigger] v.delta_applied(d, after) implies {
            let m = apply_entries(Map::<usize, (T0, T1, T2, T3, T4, T5, T6)>::empty().insert(0usize, v), d.removed@, d.inserted@);
            &&& d.inserted@.contains_key(0usize) ==> after == m[0usize]
            &&& !d.inserted@.contains_key(0usize) ==> after == v
        } by {}
    assert forall|v: (T0, T1, T2, T3, T4, T5, T6, T7), d: Delta<BTreeMap<usize, (T0, T1, T2, T3, T4, T5, T6, T7)>>, after: (T0, T1, T2, T3, T4, T5, T6, T7)|
        #[trigger] v.delta_applied(d, after) implies {
            let m = apply_entries(Map::<usize, (T0, T1, T2, T3, T4, T5, T6, T7)>::empty().insert(0usize, v), d.removed@, d.inserted@);
            &&& d.inserted@.contains_key(0usize) ==> after == m[0usize]
            &&& !d.inserted@.contains_key(0usize) ==> after == v
        } by {}
    assert forall|v: (T0, T1, T2, T3, T4, T5, T6, T7, T8), d: Delta<BTreeMap<usize, (T0, T1, T2, T3, T4, T5, T6, T7, T8)>>, after: (T0, T1, T2, T3, T4, T5, T6, T7, T8)|
        #[trigger] v.delta_applied(d, after) implies {
            let m = apply_entries(Map::<usize, (T0, T1, T2, T3, T4, T5, T6, T7, T8)>::empty().insert(0usize, v), d.removed@, d.inserted@);
            &&& d.inserted@.contains_key(0usize) ==> after == m[0usize]
            &&& !d.inserted@.contains_key(0usize) ==> after == v
        } by {}
    assert forall|v: (T0, T1, T2, T3, T4, T5, T6, T7, T8, T9), d: Delta<BTreeMap<usize, (T0, T1, T2, T3, T4, T5, T6, T7, T8, T9)>>, after: (T0, T1, T2, T3, T4, T5, T6, T7, T8, T9)|
        #[trigger] v.delta_applied(d, after) implies {
            let m = apply_entries(Map::<usize, (T0, T1, T2, T3, T4, T5, T6, T7, T8, T9)>::empty().insert(0usize, v), d.removed@, d.inserted@);
            &&& d.inserted@.contains_key(0usize) ==> after == m[0usize]
            &&& !d.inserted@.contains_key(0usize) ==> after == v
        } by {}
    assert forall|v: (T0, T1, T2, T3, T4, T5, T6, T7, T8, T9, T10), d: Delta<BTreeMap<usize, (T0, T1, T2, T3, T4, T5, T6, T7, T8, T9, T10)>>, after: (T0, T1, T2, T3, T4, T5, T6, T7, T8, T9, T10)|
        #[trigger] v.delta_applied(d, after) implies {
            let m = apply_entries(Map::<usize, (T0, T1, T2, T3, T4, T5, T6, T7, T8, T9, T10)>::empty().insert(0usize, v), d.removed@, d.inserted@);
            &&& d.inserted@.contains_key(0usize) ==> after == m[0usize]
            &&& !d.inserted@.contains_key(0usize) ==> after == v
        } by {}
    assert forall|v: (T0, T1, T2, T3, T4, T5, T6, T7, T8, T9, T10, T11), d: Delta<BTreeMap<usize, (T0, T1, T2, T3, T4, T5, T6, T7, T8, T9, T10, T11)>>, after: (T0, T1, T2, T3, T4, T5, T6, T7, T8, T9, T10, T11)|
        #[trigger] v.delta_applied(d, after) implies {
            let m = apply_entries(Map::<usize, (T0, T1, T2, T3, T4, T5, T6, T7, T8, T9, T10, T11)>::empty().insert(0usize, v), d.removed@, d.inserted@);
            &&& d.inserted@.contains_key(0usize) ==> after == m[0usize]
            &&& !d.inserted@.contains_key(0usize) ==> after == v
        } by {}
}

/// `Box`, `Rc` and `Arc` apply a delta to their pointee as the map model
/// says of a value held whole under index `0`.
pub proof fn lemma_pointers_apply_as_pointee<V>()
    ensures
        applies_as_pointee::<V, Box<V>>(),
        applies_as_pointee::<V, std::rc::Rc<V>>(),
        applies_as_pointee::<V, std::sync::Arc<V>>(),
{
    assert forall|p: Box<V>, d: Delta<BTreeMap<usize, V>>, after: Box<V>|
        #[trigger] p.delta_applied(d, after) implies {
            let m = apply_entries(p.entries(), d.removed@, d.inserted@);
            &&& d.inserted@.contains_key(0usize) ==> after.entries() == Map::<usize, V>::empty().insert(
                0usize,
                m[0usize],
            )
            &&& !d.inserted@.contains_key(0usize) ==> after.entries() == p.entries()
        } by {
        if !d.inserted@.contains_key(0usize) {
            assert(after.entries() =~= p.entries());
        }
    }
    assert forall|p: std::rc::Rc<V>, d: Delta<BTreeMap<usize, V>>, after: std::rc::Rc<V>|
        #[trigger] p.delta_applied(d, after) implies {
            let m = apply_entries(p.entries(), d.removed@, d.inserted@);
            &&& d.inserted@.contains_key(0usize) ==> after.entries() == Map::<usize, V>::empty().insert(
                0usize,
                m[0usize],
            )
            &&& !d.inserted@.contains_key(0usize) ==> after.entries() == p.entries()
        } by {
        if !d.inserted@.contains_key(0usize) {
            assert(after.entries() =~= p.entries());
        }
    }
    assert forall|p: std::sync::Arc<V>, d: Delta<BTreeMap<usize, V>>, after: std::sync::Arc<V>|
        #[trigger] p.delta_applied(d, after) implies {
            let m = apply_entries(p.entries(), d.removed@, d.inserted@);
            &&& d.inserted@.contains_key(0usize) ==> after.entries() == Map::<usize, V>::empty().insert(
                0usize,
                m[0usize],
            )
            &&& !d.inserted@.contains_key(0usize) ==> after.entries() == p.entries()
        } by {
        if !d.inserted@.contains_key(0usize) {
            assert(after.entries() =~= p.entries());
        }
    }
}

} // verus!
