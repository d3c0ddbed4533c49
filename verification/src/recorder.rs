use std::collections::{BTreeMap, VecDeque};
use std::marker::PhantomData;

use bidimap::{BiBTreeMap, BiHashMap};
use vstd::prelude::*;

use crate::tiny_vec::{tiny_vec_items, tiny_vec_len, tiny_vec_pop, TinyVec8};
use crate::bimap::{bimap_inserted, overwrites, Bimap, Overwritten};
use crate::collection::{
    Clear, Collection, Get, Insert, IntoIter, Iter, Keyed, Modify, Push, Remove, SetAt,
};
use crate::delta::{
    applies_entrywise, apply_entries, delta_fits, in_prefix, lemma_apply_reverse_restores,
    lemma_in_prefix_step,
    lemma_merge_apply, lemma_merge_fits, merged_inserted, merged_removed, ApplyDelta, Delta,
    HalfDelta, MergeDelta,
};
use crate::edit::ExtractEdit;

verus! {

/// Records deltas applied to a container so that they can be replayed or
/// reverted.
#[derive(Clone, Debug, PartialEq, Eq, Hash)]
pub struct Recorder<C: Keyed, DC = BTreeMap<<C as Keyed>::Key, <C as Collection>::Item>> {
    container: C,
    delta: Delta<DC>,
}

impl<C: Keyed, DC> Recorder<C, DC> {
    /// The recorded container.
    pub closed spec fn container_spec(&self) -> C {
        self.container
    }

    /// The delta recorded so far.
    pub closed spec fn delta_spec(&self) -> Delta<DC> {
        self.delta
    }

    /// Create a new recorder recording changes to an owned container, storing
    /// them in an already existing delta.
    pub fn with_delta(container: C, delta: Delta<DC>) -> (r: Self)
        ensures
            r.container_spec() == container,
            r.delta_spec() == delta,
    {
        Recorder { container, delta }
    }

    /// Returns a reference to the recorded container.
    pub fn container(&self) -> (r: &C)
        ensures
            *r == self.container_spec(),
    {
        &self.container
    }

    /// Dissolve the recorder, returning and ceding ownership of its recorded
    /// container and delta.
    pub fn dissolve(self) -> (r: (C, Delta<DC>))
        ensures
            r == (self.container_spec(), self.delta_spec()),
    {
        (self.container, self.delta)
    }
}

impl<C: Keyed, K, V, DC: Keyed<Key = K, Item = V> + HalfDelta<K, V>> Recorder<C, DC> {
    /// Create a new recorder recording changes to an owned container.
    pub fn new(container: C) -> (r: Self)
        ensures
            r.container_spec() == container,
            r.delta_spec().removed.entries() == Map::<K, V>::empty(),
            r.delta_spec().inserted.entries() == Map::<K, V>::empty(),
    {
        Recorder { container, delta: Delta::new() }
    }

    /// Flush the recorder, returning the recorded delta and replacing it with a
    /// new empty one.
    pub fn flush_delta(&mut self) -> (d: Delta<DC>)
        ensures
            d == old(self).delta_spec(),
            final(self).container_spec() == old(self).container_spec(),
            final(self).delta_spec().removed.entries() == Map::<K, V>::empty(),
            final(self).delta_spec().inserted.entries() == Map::<K, V>::empty(),
    {
        let mut d = Delta::new();
        std::mem::swap(&mut d, &mut self.delta);
        d
    }
}

impl<
    K,
    V,
    C: Keyed + ApplyDelta<DC>,
    DC: Keyed<Key = K, Item = V> + HalfDelta<K, V>,
> Recorder<C, DC> {
    /// Reset the currently recorded delta by flushing it out of the recorder
    /// and then applying its reverse.
    pub fn reset_delta(&mut self)
        ensures
            old(self).container_spec().delta_applied(
                old(self).delta_spec().reversed(),
                final(self).container_spec(),
            ),
            final(self).delta_spec().removed.entries() == Map::<K, V>::empty(),
            final(self).delta_spec().inserted.entries() == Map::<K, V>::empty(),
    {
        let delta = self.flush_delta();
        self.container.apply_delta(delta.reverse());
    }
}

impl<
    K: Copy,
    V: Copy,
    C: Keyed + ApplyDelta<DC>,
    DC: Keyed<Key = K, Item = V> + HalfDelta<K, V>,
> Recorder<C, DC> {
    /// Extend (merge) the recorder's recorded delta with the delta passed as
    /// an argument, applying that delta to the container.
    pub fn extend_delta(&mut self, delta: Delta<DC>)
        ensures
            exists|d: Delta<DC>|
                d.removed.entries() == delta.removed.entries() && d.inserted.entries()
                    == delta.inserted.entries() && #[trigger] old(self).container_spec().delta_applied(
                    d,
                    final(self).container_spec(),
                ),
            old(self).delta_spec().merges(delta, final(self).delta_spec()),
    {
        let copy = delta.clone();
        let ghost before = self.container_spec();
        self.container.apply_delta(copy);
        let ghost after = self.container_spec();
        let mut recorded = Delta::new();
        std::mem::swap(&mut recorded, &mut self.delta);
        self.delta = recorded.merge_delta(delta);
        proof {
            DC::lemma_cloned_entries(delta.removed, copy.removed);
            DC::lemma_cloned_entries(delta.inserted, copy.inserted);
            assert(self.container_spec() == after);
            assert(before.delta_applied(copy, self.container_spec()));
        }
    }
}

impl<C: Keyed + ApplyDelta<DC>, RDC, DC> ApplyDelta<DC> for Recorder<C, RDC> {
    open spec fn delta_applied(&self, delta: Delta<DC>, after: Self) -> bool {
        &&& self.container_spec().delta_applied(delta, after.container_spec())
        &&& after.delta_spec() == self.delta_spec()
    }

    fn apply_delta(&mut self, delta: Delta<DC>) {
        self.container.apply_delta(delta);
    }
}

impl<C: Keyed + Default, DC: Default> Default for Recorder<C, DC> {
    fn default() -> (r: Self)
        ensures
            call_ensures(C::default, (), r.container_spec()),
            call_ensures(DC::default, (), r.delta_spec().removed),
            call_ensures(DC::default, (), r.delta_spec().inserted),
    {
        Recorder {
            container: C::default(),
            delta: Delta { removed: DC::default(), inserted: DC::default() },
        }
    }
}

impl<C: Keyed, DC> AsRef<C> for Recorder<C, DC> {
    fn as_ref(&self) -> (r: &C)
        ensures
            *r == self.container_spec(),
    {
        &self.container
    }
}

impl<C: Keyed, DC> Collection for Recorder<C, DC> {
    type Item = C::Item;
}

impl<C: Keyed, DC> Keyed for Recorder<C, DC> {
    type Key = C::Key;

    open spec fn entries(&self) -> Map<C::Key, C::Item> {
        self.container_spec().entries()
    }
}

impl<
    K,
    V,
    C: Keyed<Key = K, Item = V>,
    DC: Keyed<Key = K, Item = V> + HalfDelta<K, V>,
> Recorder<C, DC> {
    /// The removed half of the recorded delta.
    pub open spec fn removed_spec(&self) -> Map<K, V> {
        self.delta_spec().removed.entries()
    }

    /// The inserted half of the recorded delta.
    pub open spec fn inserted_spec(&self) -> Map<K, V> {
        self.delta_spec().inserted.entries()
    }

    /// The state of the container when the recording began: the container
    /// with the recorded delta reverted.
    pub open spec fn base(&self) -> Map<K, V> {
        apply_entries(self.entries(), self.inserted_spec(), self.removed_spec())
    }

    /// The recorded delta can be reverted on the container: everything it
    /// inserted is there, and everything it removed without inserting again is
    /// gone.
    pub open spec fn consistent(&self) -> bool {
        delta_fits(self.entries(), self.inserted_spec(), self.removed_spec())
    }

    /// What a change that leaves the container with `entries` and the delta
    /// with (`removed`, `inserted`) must keep: where the old recorder was
    /// consistent, the new one is, and the state when the recording began has
    /// not moved.
    pub open spec fn keeps_base(
        &self,
        entries: Map<K, V>,
        removed: Map<K, V>,
        inserted: Map<K, V>,
    ) -> bool {
        self.consistent() ==> delta_fits(entries, inserted, removed) && apply_entries(
            entries,
            inserted,
            removed,
        ) == self.base()
    }
}

/// A consistent recorder holds a delta that was recorded from the state when
/// the recording began and that leads from that state to the container.
pub proof fn lemma_recorded_delta_replays<
    K,
    V,
    C: Keyed<Key = K, Item = V>,
    DC: Keyed<Key = K, Item = V> + HalfDelta<K, V>,
>(
    recorder: Recorder<C, DC>,
)
    requires
        recorder.consistent(),
    ensures
        delta_fits(recorder.base(), recorder.removed_spec(), recorder.inserted_spec()),
        apply_entries(recorder.base(), recorder.removed_spec(), recorder.inserted_spec())
            == recorder.entries(),
{
    lemma_apply_reverse_restores(
        recorder.entries(),
        recorder.inserted_spec(),
        recorder.removed_spec(),
    );
}

/// What recording a write of `value` under `key` makes of the removed half
/// `removed`: the old item is kept there, unless the key was already inserted
/// before or held nothing.
pub open spec fn removed_after_write<K, V>(
    removed: Map<K, V>,
    inserted: Map<K, V>,
    entries: Map<K, V>,
    key: K,
) -> Map<K, V> {
    if !inserted.contains_key(key) && entries.contains_key(key) {
        removed.insert(key, entries[key])
    } else {
        removed
    }
}

proof fn lemma_write_keeps_base<K, V>(
    entries: Map<K, V>,
    removed: Map<K, V>,
    inserted: Map<K, V>,
    key: K,
    value: V,
)
    requires
        delta_fits(entries, inserted, removed),
    ensures
        delta_fits(
            entries.insert(key, value),
            inserted.insert(key, value),
            removed_after_write(removed, inserted, entries, key),
        ),
        apply_entries(
            entries.insert(key, value),
            inserted.insert(key, value),
            removed_after_write(removed, inserted, entries, key),
        ) == apply_entries(entries, inserted, removed),
{
    let e2 = entries.insert(key, value);
    let i2 = inserted.insert(key, value);
    let r2 = removed_after_write(removed, inserted, entries, key);
    assert(apply_entries(e2, i2, r2) =~= apply_entries(entries, inserted, removed));
}

impl<
    K: Copy,
    V: Copy,
    C: Keyed<Key = K, Item = V> + Get<K>,
    DC: Keyed<Key = K, Item = V> + HalfDelta<K, V>,
> Recorder<C, DC> {
    /// Returns a reference to the value corresponding to the key.
    pub fn get(&self, key: &K) -> (r: Option<&V>)
        ensures
            match r {
                Some(v) => self.entries().contains_key(*key) && self.entries()[*key] == *v,
                None => !self.entries().contains_key(*key),
            },
    {
        self.container.get(key)
    }
}

impl<
    K: Copy,
    V: Copy,
    C: Keyed<Key = K, Item = V> + Get<K> + Insert<K>,
    DC: Keyed<Key = K, Item = V> + HalfDelta<K, V>,
> Recorder<C, DC> {
    /// Insert a key-value pair into the container, handing back what the
    /// container's own insertion hands back.
    pub fn insert(&mut self, key: K, value: V) -> (out: C::Output)
        ensures
            final(self).entries() == old(self).entries().insert(key, value),
            C::insert_output(old(self).entries(), key, out),
            final(self).inserted_spec() == old(self).inserted_spec().insert(key, value),
            final(self).removed_spec() == removed_after_write(
                old(self).removed_spec(),
                old(self).inserted_spec(),
                old(self).entries(),
                key,
            ),
            old(self).keeps_base(
                final(self).entries(),
                final(self).removed_spec(),
                final(self).inserted_spec(),
            ),
    {
        let ghost e0 = self.entries();
        let ghost r0 = self.removed_spec();
        let ghost i0 = self.inserted_spec();
        if self.delta.inserted.get(&key).is_none() {
            if let Some(value_to_remove) = self.container.get(&key) {
                self.delta.removed.insert(key, *value_to_remove);
            }
        }
        self.delta.inserted.insert(key, value);
        let out = self.container.insert(key, value);
        proof {
            if delta_fits(e0, i0, r0) {
                lemma_write_keeps_base(e0, r0, i0, key, value);
            }
        }
        out
    }
}

/// What recording the removal of the item under `key` makes of the removed
/// half `removed`: the item is kept there, unless the key was inserted since
/// the recording began.
pub open spec fn removed_after_remove<K, V>(
    removed: Map<K, V>,
    inserted: Map<K, V>,
    entries: Map<K, V>,
    key: K,
) -> Map<K, V> {
    if inserted.contains_key(key) {
        removed
    } else {
        removed.insert(key, entries[key])
    }
}

proof fn lemma_remove_keeps_base<K, V>(
    entries: Map<K, V>,
    removed: Map<K, V>,
    inserted: Map<K, V>,
    key: K,
)
    requires
        delta_fits(entries, inserted, removed),
        entries.contains_key(key),
    ensures
        delta_fits(
            entries.remove(key),
            inserted.remove(key),
            removed_after_remove(removed, inserted, entries, key),
        ),
        apply_entries(
            entries.remove(key),
            inserted.remove(key),
            removed_after_remove(removed, inserted, entries, key),
        ) == apply_entries(entries, inserted, removed),
{
    let e2 = entries.remove(key);
    let i2 = inserted.remove(key);
    let r2 = removed_after_remove(removed, inserted, entries, key);
    assert(apply_entries(e2, i2, r2) =~= apply_entries(entries, inserted, removed));
}

impl<
    K: Copy,
    V: Copy,
    C: Keyed<Key = K, Item = V> + Get<K> + SetAt<K>,
    DC: Keyed<Key = K, Item = V> + HalfDelta<K, V>,
> Recorder<C, DC> {
    /// Set the value of an already existing element under a key, handing
    /// back what the container's own `set` hands back.
    pub fn set(&mut self, key: K, value: V) -> (out: C::Output)
        requires
            old(self).container_spec().settable(key),
        ensures
            final(self).entries() == old(self).entries().insert(key, value),
            C::set_output(old(self).entries(), key, out),
            final(self).inserted_spec() == old(self).inserted_spec().insert(key, value),
            final(self).removed_spec() == removed_after_write(
                old(self).removed_spec(),
                old(self).inserted_spec(),
                old(self).entries(),
                key,
            ),
            old(self).keeps_base(
                final(self).entries(),
                final(self).removed_spec(),
                final(self).inserted_spec(),
            ),
    {
        let ghost e0 = self.entries();
        let ghost r0 = self.removed_spec();
        let ghost i0 = self.inserted_spec();
        if self.delta.inserted.get(&key).is_none() {
            if let Some(value_to_remove) = self.container.get(&key) {
                self.delta.removed.insert(key, *value_to_remove);
            }
        }
        self.delta.inserted.insert(key, value);
        let out = self.container.set(key, value);
        proof {
            if delta_fits(e0, i0, r0) {
                lemma_write_keeps_base(e0, r0, i0, key, value);
            }
        }
        out
    }
}

impl<
    K: Copy,
    V: Copy,
    C: Keyed<Key = K, Item = V> + Get<K> + Modify<K>,
    DC: Keyed<Key = K, Item = V> + HalfDelta<K, V>,
> Recorder<C, DC> {
    /// Modify the value under key with a closure.
    pub fn modify<F: FnMut(&mut V)>(&mut self, key: K, f: F)
        requires
            old(self).entries().contains_key(key),
            forall|v: &mut V| call_requires(f, (v,)),
        ensures
            exists|v: &mut V|
                *v == old(self).entries()[key] && #[trigger] call_ensures(f, (v,), ())
                    && final(self).entries() == old(self).entries().insert(key, *final(v)),
            final(self).inserted_spec() == old(self).inserted_spec().insert(
                key,
                final(self).entries()[key],
            ),
            final(self).removed_spec() == removed_after_write(
                old(self).removed_spec(),
                old(self).inserted_spec(),
                old(self).entries(),
                key,
            ),
            old(self).keeps_base(
                final(self).entries(),
                final(self).removed_spec(),
                final(self).inserted_spec(),
            ),
    {
        let ghost e0 = self.entries();
        let ghost r0 = self.removed_spec();
        let ghost i0 = self.inserted_spec();
        if self.delta.inserted.get(&key).is_none() {
            if let Some(value_to_remove) = self.container.get(&key) {
                self.delta.removed.insert(key, *value_to_remove);
            }
        }

        self.container.modify(&key, f);

        if let Some(value) = self.container.get(&key) {
            self.delta.inserted.insert(key, *value);
        }
        proof {
            if delta_fits(e0, i0, r0) {
                lemma_write_keeps_base(e0, r0, i0, key, self.entries()[key]);
                assert(self.entries() =~= e0.insert(key, self.entries()[key]));
            }
        }
    }
}

impl<
    K: Copy,
    V: Copy,
    C: Keyed<Key = K, Item = V> + Remove<K>,
    DC: Keyed<Key = K, Item = V> + HalfDelta<K, V>,
> Recorder<C, DC> {
    /// Remove an element under a key from the container, returning the value at
    /// the key if the key was previously in the map.
    pub fn remove(&mut self, key: &K) -> (r: Option<V>)
        ensures
            final(self).entries() == old(self).entries().remove(*key),
            r == (if old(self).entries().contains_key(*key) {
                Some(old(self).entries()[*key])
            } else {
                None
            }),
            r is None ==> final(self).delta_spec() == old(self).delta_spec(),
            r is Some ==> final(self).inserted_spec() == old(self).inserted_spec().remove(*key),
            r is Some ==> final(self).removed_spec() == removed_after_remove(
                old(self).removed_spec(),
                old(self).inserted_spec(),
                old(self).entries(),
                *key,
            ),
            old(self).keeps_base(
                final(self).entries(),
                final(self).removed_spec(),
                final(self).inserted_spec(),
            ),
    {
        let ghost e0 = self.entries();
        let ghost r0 = self.removed_spec();
        let ghost i0 = self.inserted_spec();
        let value = match self.container.remove(key) {
            Some(value) => value,
            None => {
                proof {
                    assert(self.entries() =~= e0);
                }
                return None;
            },
        };

        if self.delta.inserted.remove(key).is_none() {
            self.delta.removed.insert(*key, value);
        }
        proof {
            if delta_fits(e0, i0, r0) {
                lemma_remove_keeps_base(e0, r0, i0, *key);
            }
        }

        Some(value)
    }
}

impl<
    K: Copy,
    V: Copy,
    C: Keyed<Key = K, Item = V> + Push<K>,
    DC: Keyed<Key = K, Item = V> + HalfDelta<K, V>,
> Recorder<C, DC> {
    /// Insert a value into the container without specifying a key, returning
    /// the key that was automatically generated. On a vector that key is the
    /// old length (`lemma_vec_push_key`).
    pub fn push(&mut self, value: V) -> (key: K)
        ensures
            !old(self).entries().contains_key(key),
            final(self).entries() == old(self).entries().insert(key, value),
            final(self).inserted_spec() == old(self).inserted_spec().insert(key, value),
            final(self).removed_spec() == old(self).removed_spec(),
            old(self).keeps_base(
                final(self).entries(),
                final(self).removed_spec(),
                final(self).inserted_spec(),
            ),
    {
        let ghost e0 = self.entries();
        let ghost r0 = self.removed_spec();
        let ghost i0 = self.inserted_spec();
        let key = self.container.push(value);
        self.delta.inserted.insert(key, value);
        proof {
            if delta_fits(e0, i0, r0) {
                lemma_write_keeps_base(e0, r0, i0, key, value);
                assert(removed_after_write(r0, i0, e0, key) == r0);
            }
        }

        key
    }
}

impl<
    K: Copy,
    V: Copy,
    C: Keyed<Key = K, Item = V> + Iter<K> + Clear,
    DC: Keyed<Key = K, Item = V> + HalfDelta<K, V>,
> Recorder<C, DC> {
    /// Remove all elements from the container.
    pub fn clear(&mut self)
        ensures
            final(self).entries() == Map::<K, V>::empty(),
            final(self).inserted_spec() == old(self).inserted_spec().remove_keys(
                old(self).entries().dom(),
            ),
            final(self).removed_spec() == old(self).removed_spec().union_prefer_right(
                old(self).entries().remove_keys(old(self).inserted_spec().dom()),
            ),
            old(self).keeps_base(
                final(self).entries(),
                final(self).removed_spec(),
                final(self).inserted_spec(),
            ),
    {
        let ghost e0 = self.entries();
        let ghost r0 = self.removed_spec();
        let ghost i0 = self.inserted_spec();
        let entries = self.container.iter();
        let mut n: usize = 0;
        while n < entries.len()
            invariant
                n <= entries@.len(),
                crate::collection::lists_entries(entries@, e0),
                self.entries() == e0,
                forall|k: K|
                    #[trigger] self.inserted_spec().contains_key(k) == (i0.contains_key(k)
                        && !in_prefix(entries@, n as int, k)),
                forall|k: K|
                    self.inserted_spec().contains_key(k) ==> #[trigger] self.inserted_spec()[k]
                        == i0[k],
                forall|k: K|
                    #[trigger] self.removed_spec().contains_key(k) == (r0.contains_key(k) || (
                    in_prefix(entries@, n as int, k) && !i0.contains_key(k))),
                forall|k: K|
                    self.removed_spec().contains_key(k) ==> #[trigger] self.removed_spec()[k] == (
                    if in_prefix(entries@, n as int, k) && !i0.contains_key(k) {
                        e0[k]
                    } else {
                        r0[k]
                    }),
                delta_fits(e0, i0, r0) ==> {
                    let en = e0.remove_keys(
                        Set::new(|k: K| in_prefix(entries@, n as int, k)),
                    );
                    &&& delta_fits(en, self.inserted_spec(), self.removed_spec())
                    &&& apply_entries(en, self.inserted_spec(), self.removed_spec())
                        == apply_entries(e0, i0, r0)
                },
            decreases entries@.len() - n,
        {
            let (key, value) = entries[n];
            let ghost r1 = self.removed_spec();
            let ghost i1 = self.inserted_spec();
            let ghost en = e0.remove_keys(
                Set::new(|k: K| in_prefix(entries@, n as int, k)),
            );
            proof {
                assert(entries@[n as int].0 == key);
                lemma_in_prefix_step(entries@, n as int);
                assert(!in_prefix(entries@, n as int, key));
            }
            if self.delta.inserted.remove(&key).is_none() {
                self.delta.removed.insert(key, value);
            }
            proof {
                if delta_fits(e0, i0, r0) {
                    assert(en.contains_key(key));
                    assert(en[key] == value);
                    lemma_remove_keeps_base(en, r1, i1, key);
                    assert(self.removed_spec() == removed_after_remove(r1, i1, en, key));
                    assert(self.inserted_spec() == i1.remove(key));
                    assert(en.remove(key) =~= e0.remove_keys(
                        Set::new(|k: K| in_prefix(entries@, n + 1, k)),
                    ));
                }
            }
            n += 1;
        }

        let ghost d_n = self.delta_spec();
        proof {
            assert forall|k: K| in_prefix(entries@, n as int, k) == e0.contains_key(k) by {
                if in_prefix(entries@, n as int, k) {
                    let j = choose|j: int| 0 <= j < n && #[trigger] entries@[j].0 == k;
                    assert(e0.contains_key(entries@[j].0));
                }
            }
            let i_n = self.inserted_spec();
            let r_n = self.removed_spec();
            let i_want = i0.remove_keys(e0.dom());
            assert forall|k: K| #[trigger] i_n.contains_key(k) == i_want.contains_key(k) by {
                assert(i_n.contains_key(k) == (i0.contains_key(k) && !in_prefix(
                    entries@,
                    n as int,
                    k,
                )));
            }
            assert forall|k: K| #[trigger] i_n.contains_key(k) implies i_n[k] == i_want[k] by {
            }
            assert(i_n =~= i0.remove_keys(e0.dom()));
            let r_want = r0.union_prefer_right(e0.remove_keys(i0.dom()));
            assert forall|k: K| #[trigger] r_n.contains_key(k) == r_want.contains_key(k) by {
                assert(r_n.contains_key(k) == (r0.contains_key(k) || (in_prefix(
                    entries@,
                    n as int,
                    k,
                ) && !i0.contains_key(k))));
            }
            assert forall|k: K| #[trigger] r_n.contains_key(k) implies r_n[k] == r_want[k] by {
                assert(r_n[k] == (if in_prefix(entries@, n as int, k) && !i0.contains_key(k) {
                    e0[k]
                } else {
                    r0[k]
                }));
            }
            assert(r_n =~= r_want);
            if delta_fits(e0, i0, r0) {
                assert(e0.remove_keys(
                    Set::new(|k: K| in_prefix(entries@, n as int, k)),
                ) =~= Map::<K, V>::empty());
            }
        }
        self.container.clear();
        assert(self.delta_spec() == d_n);
    }
}

impl<V: Copy, DC: Keyed<Key = usize, Item = V> + HalfDelta<usize, V>> Recorder<VecDeque<V>, DC> {
    /// Returns the length of the container.
    pub fn len(&self) -> (r: usize)
        ensures
            r == self.container_spec()@.len(),
    {
        proof {
            broadcast use vstd::std_specs::vecdeque::group_vec_dequeue_axioms;
        }
        self.container.len()
    }

    /// Remove the last element of the queue and return it, or `None` if
    /// the container is empty.
    pub fn pop(&mut self) -> (r: Option<V>)
        ensures
            r == (if old(self).container_spec()@.len() > 0 {
                Some(old(self).container_spec()@.last())
            } else {
                None
            }),
            final(self).container_spec()@ == (if r is Some {
                old(self).container_spec()@.drop_last()
            } else {
                old(self).container_spec()@
            }),
            r is None ==> final(self).delta_spec() == old(self).delta_spec(),
            r is Some ==> final(self).inserted_spec() == old(self).inserted_spec().remove(
                (old(self).container_spec()@.len() - 1) as usize,
            ),
            r is Some ==> final(self).removed_spec() == removed_after_remove(
                old(self).removed_spec(),
                old(self).inserted_spec(),
                old(self).entries(),
                (old(self).container_spec()@.len() - 1) as usize,
            ),
            old(self).keeps_base(
                final(self).entries(),
                final(self).removed_spec(),
                final(self).inserted_spec(),
            ),
    {
        broadcast use vstd::std_specs::vecdeque::group_vec_dequeue_axioms;

        let ghost s0 = self.container_spec()@;
        let ghost e0 = self.entries();
        let ghost r0 = self.removed_spec();
        let ghost i0 = self.inserted_spec();
        let value = match self.container.pop_back() {
            Some(value) => value,
            None => {
                return None;
            },
        };
        let len = self.container.len();
        if self.delta.inserted.remove(&len).is_none() {
            self.delta.removed.insert(len, value);
        }
        proof {
            assert(self.entries() =~= e0.remove(len));
            if delta_fits(e0, i0, r0) {
                lemma_remove_keeps_base(e0, r0, i0, len);
            }
        }
        Some(value)
    }
}

impl<DC: Keyed<Key = usize, Item = i32> + HalfDelta<usize, i32>> Recorder<TinyVec8, DC> {
    /// Returns the length of the container.
    pub fn len(&self) -> (r: usize)
        ensures
            r == tiny_vec_items(self.container_spec()).len(),
    {
        tiny_vec_len(&self.container)
    }

    /// Remove the last element of the vector and return it, or `None` if
    /// the container is empty.
    pub fn pop(&mut self) -> (r: Option<i32>)
        ensures
            r == (if tiny_vec_items(old(self).container_spec()).len() > 0 {
                Some(tiny_vec_items(old(self).container_spec()).last())
            } else {
                None
            }),
            tiny_vec_items(final(self).container_spec()) == (if r is Some {
                tiny_vec_items(old(self).container_spec()).drop_last()
            } else {
                tiny_vec_items(old(self).container_spec())
            }),
            r is None ==> final(self).delta_spec() == old(self).delta_spec(),
            r is Some ==> final(self).inserted_spec() == old(self).inserted_spec().remove(
                (tiny_vec_items(old(self).container_spec()).len() - 1) as usize,
            ),
            r is Some ==> final(self).removed_spec() == removed_after_remove(
                old(self).removed_spec(),
                old(self).inserted_spec(),
                old(self).entries(),
                (tiny_vec_items(old(self).container_spec()).len() - 1) as usize,
            ),
            old(self).keeps_base(
                final(self).entries(),
                final(self).removed_spec(),
                final(self).inserted_spec(),
            ),
    {
        let ghost s0 = tiny_vec_items(self.container_spec());
        let ghost e0 = self.entries();
        let ghost r0 = self.removed_spec();
        let ghost i0 = self.inserted_spec();
        let value = match tiny_vec_pop(&mut self.container) {
            Some(value) => value,
            None => {
                return None;
            },
        };
        let len = tiny_vec_len(&self.container);
        if self.delta.inserted.remove(&len).is_none() {
            self.delta.removed.insert(len, value);
        }
        proof {
            assert(self.entries() =~= e0.remove(len));
            if delta_fits(e0, i0, r0) {
                lemma_remove_keeps_base(e0, r0, i0, len);
            }
        }
        Some(value)
    }
}

impl<V: Copy, DC: Keyed<Key = usize, Item = V> + HalfDelta<usize, V>> Recorder<Vec<V>, DC> {
    /// Returns the length of the container.
    pub fn len(&self) -> (r: usize)
        ensures
            r == self.container_spec()@.len(),
    {
        self.container.len()
    }

    /// Remove the last element of the container and return it, or `None` if
    /// the container is empty.
    pub fn pop(&mut self) -> (r: Option<V>)
        ensures
            r == (if old(self).container_spec()@.len() > 0 {
                Some(old(self).container_spec()@.last())
            } else {
                None
            }),
            final(self).container_spec()@ == (if r is Some {
                old(self).container_spec()@.drop_last()
            } else {
                old(self).container_spec()@
            }),
            r is None ==> final(self).delta_spec() == old(self).delta_spec(),
            r is Some ==> final(self).inserted_spec() == old(self).inserted_spec().remove(
                (old(self).container_spec()@.len() - 1) as usize,
            ),
            r is Some ==> final(self).removed_spec() == removed_after_remove(
                old(self).removed_spec(),
                old(self).inserted_spec(),
                old(self).entries(),
                (old(self).container_spec()@.len() - 1) as usize,
            ),
            old(self).keeps_base(
                final(self).entries(),
                final(self).removed_spec(),
                final(self).inserted_spec(),
            ),
    {
        let ghost s0 = self.container_spec()@;
        let ghost e0 = self.entries();
        let ghost r0 = self.removed_spec();
        let ghost i0 = self.inserted_spec();
        let value = match self.container.pop() {
            Some(value) => value,
            None => {
                return None;
            },
        };
        let len = self.container.len();
        if self.delta.inserted.remove(&len).is_none() {
            self.delta.removed.insert(len, value);
        }
        proof {
            assert(self.entries() =~= e0.remove(len));
            if delta_fits(e0, i0, r0) {
                lemma_remove_keeps_base(e0, r0, i0, len);
            }
        }
        Some(value)
    }

    /// Remove the element under `index` by swapping the last element into its
    /// place, returning the removed element.
    pub fn swap_remove(&mut self, index: &usize) -> (r: V)
        requires
            *index < old(self).container_spec()@.len(),
        ensures
            r == old(self).container_spec()@[*index as int],
            final(self).container_spec()@ == old(self).container_spec()@.update(
                *index as int,
                old(self).container_spec()@.last(),
            ).drop_last(),
            ({
                let e0 = old(self).entries();
                let r0 = old(self).removed_spec();
                let i0 = old(self).inserted_spec();
                let last = (old(self).container_spec()@.len() - 1) as usize;
                let e1 = e0.insert(*index, e0[last]);
                let i1 = i0.insert(*index, e0[last]);
                let r1 = removed_after_write(r0, i0, e0, *index);
                if *index == last {
                    &&& final(self).inserted_spec() == i0.remove(last)
                    &&& final(self).removed_spec() == removed_after_remove(r0, i0, e0, last)
                } else {
                    &&& final(self).inserted_spec() == i1.remove(last)
                    &&& final(self).removed_spec() == removed_after_remove(r1, i1, e1, last)
                }
            }),
            old(self).keeps_base(
                final(self).entries(),
                final(self).removed_spec(),
                final(self).inserted_spec(),
            ),
    {
        let ghost s0 = self.container_spec()@;
        let ghost e0 = self.entries();
        let ghost r0 = self.removed_spec();
        let ghost i0 = self.inserted_spec();
        let last = self.container.len() - 1;
        if *index == last {
            let value = self.container.swap_remove(*index);
            if self.delta.inserted.remove(index).is_none() {
                self.delta.removed.insert(*index, value);
            }
            proof {
                assert(self.entries() =~= e0.remove(last));
                if delta_fits(e0, i0, r0) {
                    lemma_remove_keeps_base(e0, r0, i0, last);
                }
            }
            value
        } else {
            let last_value = self.container[last];
            let value = self.container.swap_remove(*index);
            let ghost e1 = e0.insert(*index, last_value);
            let ghost i1 = i0.insert(*index, last_value);
            let ghost r1 = removed_after_write(r0, i0, e0, *index);
            if self.delta.inserted.get(index).is_none() {
                self.delta.removed.insert(*index, value);
            }
            self.delta.inserted.insert(*index, last_value);
            proof {
                assert(self.removed_spec() == r1);
                assert(self.inserted_spec() == i1);
            }
            if self.delta.inserted.remove(&last).is_none() {
                self.delta.removed.insert(last, last_value);
            }
            proof {
                assert(self.entries() =~= e1.remove(last));
                if delta_fits(e0, i0, r0) {
                    lemma_write_keeps_base(e0, r0, i0, *index, last_value);
                    lemma_remove_keeps_base(e1, r1, i1, last);
                }
            }
            value
        }
    }
}

/// Extend (merge) the recorder's recorded delta with the delta passed as an
/// argument.
pub trait ExtendDelta<DC>: Sized {
    /// Holds when extending with `delta` may take the recorder from `before`
    /// to `after`.
    spec fn extends(before: Self, delta: Delta<DC>, after: Self) -> bool;

    /// Extend (merge) the recorder's recorded delta with the delta passed as
    /// an argument.
    fn extend_delta(&mut self, delta: Delta<DC>)
        ensures
            Self::extends(*old(self), delta, *final(self)),
    ;
}

impl<
    K: Copy,
    V: Copy,
    C: Keyed + ApplyDelta<DC>,
    DC: Keyed<Key = K, Item = V> + HalfDelta<K, V>,
> ExtendDelta<DC> for Recorder<C, DC> {
    open spec fn extends(before: Self, delta: Delta<DC>, after: Self) -> bool {
        &&& exists|d: Delta<DC>|
            d.removed.entries() == delta.removed.entries() && d.inserted.entries()
                == delta.inserted.entries() && #[trigger] before.container_spec().delta_applied(
                d,
                after.container_spec(),
            )
        &&& before.delta_spec().merges(delta, after.delta_spec())
    }

    fn extend_delta(&mut self, delta: Delta<DC>) {
        Recorder::extend_delta(self, delta);
    }
}

impl<V, DC> ExtendDelta<DC> for PhantomData<V> {
    open spec fn extends(before: Self, delta: Delta<DC>, after: Self) -> bool {
        after == before
    }

    fn extend_delta(&mut self, _delta: Delta<DC>) {
        // Nothing happens, obviously.
    }
}

/// Flush the recorder, returning the recorded delta and replacing it with a
/// new empty one.
pub trait FlushDelta<DC>: Sized {
    /// Holds when flushing may take the recorder from `before` to `after` and
    /// hand out `delta`.
    spec fn flushes(before: Self, after: Self, delta: Delta<DC>) -> bool;

    /// Flush the recorder, returning the recorded delta and replacing it with
    /// a new empty one.
    fn flush_delta(&mut self) -> (delta: Delta<DC>)
        ensures
            Self::flushes(*old(self), *final(self), delta),
    ;
}

impl<
    C: Keyed,
    K,
    V,
    DC: Keyed<Key = K, Item = V> + HalfDelta<K, V>,
> FlushDelta<DC> for Recorder<C, DC> {
    open spec fn flushes(before: Self, after: Self, delta: Delta<DC>) -> bool {
        &&& delta == before.delta_spec()
        &&& after.container_spec() == before.container_spec()
        &&& after.delta_spec().removed.entries() == Map::<K, V>::empty()
        &&& after.delta_spec().inserted.entries() == Map::<K, V>::empty()
    }

    fn flush_delta(&mut self) -> (delta: Delta<DC>) {
        Recorder::flush_delta(self)
    }
}

/// The fresh recorder over a default container to which the half-delta
/// `half` was applied as insertions.
pub open spec fn recorded_half<
    K,
    V,
    C: Keyed + Default + ApplyDelta<DC>,
    DC: Keyed<Key = K, Item = V> + HalfDelta<K, V>,
>(
    half: DC,
    recorder: Recorder<C, DC>,
) -> bool {
    &&& recorder.delta_spec().removed.entries() == Map::<K, V>::empty()
    &&& recorder.delta_spec().inserted.entries() == Map::<K, V>::empty()
    &&& exists|start: C, d: Delta<DC>|
        {
            &&& call_ensures(C::default, (), start)
            &&& d.removed.entries() == Map::<K, V>::empty()
            &&& d.inserted == half
            &&& #[trigger] start.delta_applied(d, recorder.container_spec())
        }
}

/// Flushing a recorder into a delta of recorders: each half of the recorded
/// delta is put into a default container, held by a fresh recorder.
impl<
    K,
    V,
    C: Keyed + Default + ApplyDelta<DC>,
    DC: Keyed<Key = K, Item = V> + HalfDelta<K, V>,
> FlushDelta<
    Recorder<C, DC>,
> for Recorder<C, DC> {
    open spec fn flushes(before: Self, after: Self, delta: Delta<Recorder<C, DC>>) -> bool {
        &&& after.container_spec() == before.container_spec()
        &&& after.delta_spec().removed.entries() == Map::<K, V>::empty()
        &&& after.delta_spec().inserted.entries() == Map::<K, V>::empty()
        &&& recorded_half(before.delta_spec().removed, delta.removed)
        &&& recorded_half(before.delta_spec().inserted, delta.inserted)
    }

    fn flush_delta(&mut self) -> (delta: Delta<Recorder<C, DC>>) {
        let (removed, inserted) = Recorder::flush_delta(self).dissolve();

        let mut removed_container = C::default();
        let ghost removed_start = removed_container;
        let removed_delta = Delta::with_removed_inserted(DC::empty(), removed);
        removed_container.apply_delta(removed_delta);

        let mut inserted_container = C::default();
        let ghost inserted_start = inserted_container;
        let inserted_delta = Delta::with_removed_inserted(DC::empty(), inserted);
        inserted_container.apply_delta(inserted_delta);

        let delta = Delta::with_removed_inserted(
            Recorder::new(removed_container),
            Recorder::new(inserted_container),
        );
        proof {
            assert(removed_start.delta_applied(removed_delta, delta.removed.container_spec()));
            assert(inserted_start.delta_applied(inserted_delta, delta.inserted.container_spec()));
        }
        delta
    }
}

/// Resetting a recorder that flushes into a delta of recorders: the same as
/// resetting it into a delta of half-deltas.
impl<
    K,
    V,
    C: Keyed + Default + ApplyDelta<DC>,
    DC: Keyed<Key = K, Item = V> + HalfDelta<K, V>,
> ResetDelta<
    Recorder<C, DC>,
> for Recorder<C, DC> {
    open spec fn resets(before: Self, after: Self) -> bool {
        &&& before.container_spec().delta_applied(
            before.delta_spec().reversed(),
            after.container_spec(),
        )
        &&& after.delta_spec().removed.entries() == Map::<K, V>::empty()
        &&& after.delta_spec().inserted.entries() == Map::<K, V>::empty()
    }

    fn reset_delta(&mut self) {
        Recorder::reset_delta(self);
    }
}

impl<T, K, V, DC: Keyed<Key = K, Item = V> + HalfDelta<K, V>> FlushDelta<DC> for PhantomData<T> {
    open spec fn flushes(before: Self, after: Self, delta: Delta<DC>) -> bool {
        &&& after == before
        &&& delta.removed.entries() == Map::<K, V>::empty()
        &&& delta.inserted.entries() == Map::<K, V>::empty()
    }

    fn flush_delta(&mut self) -> (delta: Delta<DC>) {
        // Nothing is recorded, so the delta is empty.
        Delta::new()
    }
}

impl<DC, T: FlushDelta<DC>> ExtractEdit<T> for Delta<DC> {
    open spec fn extracts(before: T, after: T, edit: Self) -> bool {
        T::flushes(before, after, edit)
    }

    fn extract_edit(target: &mut T) -> (edit: Self) {
        target.flush_delta()
    }
}

/// Reset the currently recorded delta by flushing it out of the recorder and
/// then applying its reverse.
pub trait ResetDelta<DC>: Sized {
    /// Holds when resetting may take the recorder from `before` to `after`.
    spec fn resets(before: Self, after: Self) -> bool;

    /// Reset the currently recorded delta by flushing it out of the recorder
    /// and then applying its reverse.
    fn reset_delta(&mut self)
        ensures
            Self::resets(*old(self), *final(self)),
    ;
}

impl<
    K,
    V,
    C: Keyed + ApplyDelta<DC>,
    DC: Keyed<Key = K, Item = V> + HalfDelta<K, V>,
> ResetDelta<DC> for Recorder<C, DC> {
    open spec fn resets(before: Self, after: Self) -> bool {
        &&& before.container_spec().delta_applied(
            before.delta_spec().reversed(),
            after.container_spec(),
        )
        &&& after.delta_spec().removed.entries() == Map::<K, V>::empty()
        &&& after.delta_spec().inserted.entries() == Map::<K, V>::empty()
    }

    fn reset_delta(&mut self) {
        Recorder::reset_delta(self);
    }
}

impl<V, DC> ResetDelta<DC> for PhantomData<V> {
    open spec fn resets(before: Self, after: Self) -> bool {
        after == before
    }

    fn reset_delta(&mut self) {
        // Nothing happens, obviously.
    }
}

/// A recorder with an empty delta is consistent, and the state when its
/// recording began is the container as it is.
pub proof fn lemma_fresh_recorder<
    K,
    V,
    C: Keyed<Key = K, Item = V>,
    DC: Keyed<Key = K, Item = V> + HalfDelta<K, V>,
>(
    recorder: Recorder<C, DC>,
)
    requires
        recorder.removed_spec() == Map::<K, V>::empty(),
        recorder.inserted_spec() == Map::<K, V>::empty(),
    ensures
        recorder.consistent(),
        recorder.base() == recorder.entries(),
{
    assert(recorder.base() =~= recorder.entries());
}

/// A recorder that starts fresh over entries `start` and then goes through
/// any sequence of recording operations, each of which keeps the base (as
/// every one of them states), holds the net change since `start`: its delta
/// fits `start`, applying it to `start` gives the container, and applying its
/// reverse to the container gives `start`.
pub proof fn lemma_recording_is_net_change<
    K,
    V,
    C: Keyed<Key = K, Item = V>,
    DC: Keyed<Key = K, Item = V> + HalfDelta<K, V>,
>(steps: Seq<Recorder<C, DC>>, start: Map<K, V>)
    requires
        steps.len() > 0,
        steps[0].entries() == start,
        steps[0].removed_spec() == Map::<K, V>::empty(),
        steps[0].inserted_spec() == Map::<K, V>::empty(),
        forall|i: int, j: int|
            #![trigger steps[i], steps[j]]
            0 <= i && j == i + 1 && j < steps.len() ==> steps[i].keeps_base(
                steps[j].entries(),
                steps[j].removed_spec(),
                steps[j].inserted_spec(),
            ),
    ensures
        delta_fits(start, steps.last().removed_spec(), steps.last().inserted_spec()),
        apply_entries(start, steps.last().removed_spec(), steps.last().inserted_spec())
            == steps.last().entries(),
        apply_entries(
            steps.last().entries(),
            steps.last().inserted_spec(),
            steps.last().removed_spec(),
        ) == start,
    decreases steps.len(),
{
    if steps.len() == 1 {
        lemma_fresh_recorder(steps[0]);
    } else {
        let prefix = steps.drop_last();
        assert forall|i: int, j: int|
            #![trigger prefix[i], prefix[j]]
            0 <= i && j == i + 1 && j < prefix.len() implies prefix[i].keeps_base(
                prefix[j].entries(),
                prefix[j].removed_spec(),
                prefix[j].inserted_spec(),
            ) by {
            assert(prefix[i] == steps[i] && prefix[j] == steps[j]);
        }
        lemma_recording_is_net_change(prefix, start);
        lemma_apply_reverse_restores(
            prefix.last().entries(),
            prefix.last().inserted_spec(),
            prefix.last().removed_spec(),
        );
        let n = steps.len() - 1;
        assert(steps[n - 1] == prefix.last());
        assert(steps[n - 1].keeps_base(
            steps[n].entries(),
            steps[n].removed_spec(),
            steps[n].inserted_spec(),
        ));
        lemma_recorded_delta_replays(steps[n]);
    }
}

/// Resetting a recorder over a container that applies deltas entry by entry
/// gives back the state when its recording began, and leaves a fresh
/// recorder.
pub proof fn lemma_reset_restores_base<
    K,
    V,
    C: Keyed<Key = K, Item = V> + ApplyDelta<DC>,
    DC: Keyed<Key = K, Item = V> + HalfDelta<K, V>,
>(
    before: Recorder<C, DC>,
    after: Recorder<C, DC>,
)
    requires
        applies_entrywise::<K, V, C, DC>(),
        <Recorder<C, DC> as ResetDelta<DC>>::resets(before, after),
    ensures
        after.entries() == before.base(),
        after.consistent(),
        after.base() == after.entries(),
{
    assert(before.container_spec().delta_applied(
        before.delta_spec().reversed(),
        after.container_spec(),
    ));
    lemma_fresh_recorder(after);
}

/// Extending a consistent recorder with a delta that fits its container keeps
/// it consistent and keeps the state when its recording began, for every
/// container that applies deltas entry by entry.
pub proof fn lemma_extend_keeps_base<
    K: Copy,
    V: Copy,
    C: Keyed<Key = K, Item = V> + ApplyDelta<DC>,
    DC: Keyed<Key = K, Item = V> + HalfDelta<K, V>,
>(
    before: Recorder<C, DC>,
    delta: Delta<DC>,
    after: Recorder<C, DC>,
)
    requires
        applies_entrywise::<K, V, C, DC>(),
        before.consistent(),
        delta_fits(before.entries(), delta.removed.entries(), delta.inserted.entries()),
        <Recorder<C, DC> as ExtendDelta<DC>>::extends(before, delta, after),
    ensures
        after.consistent(),
        after.base() == before.base(),
{
    let b = before.base();
    let r1 = before.removed_spec();
    let i1 = before.inserted_spec();
    let r2 = delta.removed.entries();
    let i2 = delta.inserted.entries();
    lemma_recorded_delta_replays(before);
    lemma_merge_fits(b, r1, i1, r2, i2);
    lemma_merge_apply(b, r1, i1, r2, i2);
    lemma_apply_reverse_restores(b, merged_removed(r1, i1, r2), merged_inserted(i1, r2, i2));
    let d = choose|d: Delta<DC>|
        d.removed.entries() == delta.removed.entries() && d.inserted.entries()
            == delta.inserted.entries() && #[trigger] before.container_spec().delta_applied(
            d,
            after.container_spec(),
        );
    assert(after.entries() == apply_entries(before.entries(), r2, i2));
}

/// Resetting a consistent recorder over a vector whose recording began with
/// the vector `start` gives back `start`.
pub proof fn lemma_vec_reset_restores<V: Copy>(
    before: Recorder<Vec<V>, BTreeMap<usize, V>>,
    after: Recorder<Vec<V>, BTreeMap<usize, V>>,
    start: Vec<V>,
)
    requires
        before.consistent(),
        before.base() == start.entries(),
        <Recorder<Vec<V>, BTreeMap<usize, V>> as ResetDelta<BTreeMap<usize, V>>>::resets(
            before,
            after,
        ),
    ensures
        after.container_spec()@ == start@,
{
    let current = before.container_spec();
    assert(current.len() == current@.len());
    assert(start.len() == start@.len());
    assert forall|k: usize| #[trigger] before.removed_spec().contains_key(k) implies k
        < usize::MAX by {
        assert(start.entries().contains_key(k));
    }
    crate::delta::lemma_vec_applied_entries(
        current@,
        before.inserted_spec(),
        before.removed_spec(),
        start@,
    );
}

impl<C: Bimap, DC: Keyed<Key = u64, Item = u64> + HalfDelta<u64, u64>> Recorder<C, DC> {
    /// Returns the right value paired with the given left value in a
    /// bidirectional map.
    pub fn get_by_left(&self, key: &u64) -> (r: Option<&u64>)
        ensures
            match r {
                Some(v) => self.entries().contains_key(*key) && self.entries()[*key] == *v,
                None => !self.entries().contains_key(*key),
            },
    {
        self.container.get(key)
    }

    /// Returns the left value paired with the given right value in a
    /// bidirectional map.
    pub fn get_by_right(&self, key: &u64) -> (r: Option<&u64>)
        ensures
            match r {
                Some(left) => self.entries().contains_key(*left) && self.entries()[*left] == *key,
                None => forall|k: u64| #[trigger]
                    self.entries().contains_key(k) ==> self.entries()[k] != *key,
            },
    {
        self.container.get_by_right(key)
    }

    /// Insert a left-right pair into the bidirectional map, which drops the
    /// pairs holding either value. Only the pair under the left value is
    /// recorded as removed.
    fn insert_pair(&mut self, key: u64, value: u64) -> (out: Overwritten)
        ensures
            final(self).entries() == bimap_inserted(old(self).entries(), key, value),
            overwrites(old(self).entries(), key, value, out),
            final(self).inserted_spec() == old(self).inserted_spec().insert(key, value),
            final(self).removed_spec() == removed_after_write(
                old(self).removed_spec(),
                old(self).inserted_spec(),
                old(self).entries(),
                key,
            ),
            (forall|k: u64|
                #[trigger] old(self).entries().contains_key(k) && k != key ==> old(
                    self,
                ).entries()[k] != value) ==> old(self).keeps_base(
                final(self).entries(),
                final(self).removed_spec(),
                final(self).inserted_spec(),
            ),
    {
        let ghost e0 = self.entries();
        let ghost r0 = self.removed_spec();
        let ghost i0 = self.inserted_spec();
        if self.delta.inserted.get(&key).is_none() {
            if let Some(value_to_remove) = self.container.get(&key) {
                self.delta.removed.insert(key, *value_to_remove);
            }
        }
        self.delta.inserted.insert(key, value);
        let out = self.container.insert_pair(key, value);
        proof {
            if forall|k: u64| #[trigger] e0.contains_key(k) && k != key ==> e0[k] != value {
                assert(self.entries() =~= e0.insert(key, value));
                if delta_fits(e0, i0, r0) {
                    lemma_write_keeps_base(e0, r0, i0, key, value);
                }
            }
        }
        out
    }

    /// Remove the pair with the given left value from the bidirectional map,
    /// returning its right value.
    pub fn remove_by_left(&mut self, key: &u64) -> (r: Option<u64>)
        ensures
            final(self).entries() == old(self).entries().remove(*key),
            r == (if old(self).entries().contains_key(*key) {
                Some(old(self).entries()[*key])
            } else {
                None
            }),
            r is None ==> final(self).delta_spec() == old(self).delta_spec(),
            r is Some ==> final(self).inserted_spec() == old(self).inserted_spec().remove(*key),
            r is Some ==> final(self).removed_spec() == removed_after_remove(
                old(self).removed_spec(),
                old(self).inserted_spec(),
                old(self).entries(),
                *key,
            ),
            old(self).keeps_base(
                final(self).entries(),
                final(self).removed_spec(),
                final(self).inserted_spec(),
            ),
    {
        self.remove(key)
    }

    /// Remove the pair with the given right value from the bidirectional map,
    /// returning its left value.
    pub fn remove_by_right(&mut self, key: &u64) -> (r: Option<u64>)
        ensures
            match r {
                Some(left) => {
                    &&& old(self).entries().contains_key(left)
                    &&& old(self).entries()[left] == *key
                    &&& final(self).entries() == old(self).entries().remove(left)
                    &&& final(self).inserted_spec() == old(self).inserted_spec().remove(left)
                    &&& final(self).removed_spec() == removed_after_remove(
                        old(self).removed_spec(),
                        old(self).inserted_spec(),
                        old(self).entries(),
                        left,
                    )
                },
                None => {
                    &&& forall|k: u64| #[trigger]
                        old(self).entries().contains_key(k) ==> old(self).entries()[k] != *key
                    &&& final(self).entries() == old(self).entries()
                    &&& final(self).delta_spec() == old(self).delta_spec()
                },
            },
            old(self).keeps_base(
                final(self).entries(),
                final(self).removed_spec(),
                final(self).inserted_spec(),
            ),
    {
        let ghost e0 = self.entries();
        let ghost r0 = self.removed_spec();
        let ghost i0 = self.inserted_spec();
        let left_key = match self.container.remove_by_right(key) {
            Some((left_key, _right)) => left_key,
            None => {
                return None;
            },
        };

        if self.delta.inserted.remove(&left_key).is_none() {
            self.delta.removed.insert(left_key, *key);
        }
        proof {
            if delta_fits(e0, i0, r0) {
                lemma_remove_keeps_base(e0, r0, i0, left_key);
            }
        }
        Some(left_key)
    }
}

impl<DC: Keyed<Key = u64, Item = u64> + HalfDelta<u64, u64>> Recorder<BiBTreeMap<u64, u64>, DC> {
    /// Insert a left-right pair into the bidirectional map, which drops the
    /// pairs holding either value, and report the pairs it dropped. Only the
    /// pair under the left value is recorded as removed.
    pub fn insert(&mut self, key: u64, value: u64) -> (out: Overwritten)
        ensures
            final(self).entries() == bimap_inserted(old(self).entries(), key, value),
            overwrites(old(self).entries(), key, value, out),
            final(self).inserted_spec() == old(self).inserted_spec().insert(key, value),
            final(self).removed_spec() == removed_after_write(
                old(self).removed_spec(),
                old(self).inserted_spec(),
                old(self).entries(),
                key,
            ),
            (forall|k: u64|
                #[trigger] old(self).entries().contains_key(k) && k != key ==> old(
                    self,
                ).entries()[k] != value) ==> old(self).keeps_base(
                final(self).entries(),
                final(self).removed_spec(),
                final(self).inserted_spec(),
            ),
    {
        self.insert_pair(key, value)
    }
}

impl<DC: Keyed<Key = u64, Item = u64> + HalfDelta<u64, u64>> Recorder<BiHashMap<u64, u64>, DC> {
    /// Insert a left-right pair into the bidirectional map, which drops the
    /// pairs holding either value, and report the pairs it dropped. Only the
    /// pair under the left value is recorded as removed.
    pub fn insert(&mut self, key: u64, value: u64) -> (out: Overwritten)
        ensures
            final(self).entries() == bimap_inserted(old(self).entries(), key, value),
            overwrites(old(self).entries(), key, value, out),
            final(self).inserted_spec() == old(self).inserted_spec().insert(key, value),
            final(self).removed_spec() == removed_after_write(
                old(self).removed_spec(),
                old(self).inserted_spec(),
                old(self).entries(),
                key,
            ),
            (forall|k: u64|
                #[trigger] old(self).entries().contains_key(k) && k != key ==> old(
                    self,
                ).entries()[k] != value) ==> old(self).keeps_base(
                final(self).entries(),
                final(self).removed_spec(),
                final(self).inserted_spec(),
            ),
    {
        self.insert_pair(key, value)
    }
}

impl<
    C: Keyed<Key = usize, Item = C> + Copy,
    DC: Keyed<Key = usize, Item = C> + HalfDelta<usize, C>,
> Recorder<
    C,
    DC,
> {
    /// Assign a new value to the recorded container, a value recorded whole
    /// under index `0`.
    pub fn assign(&mut self, value: C)
        ensures
            final(self).container_spec() == value,
            final(self).inserted_spec() == old(self).inserted_spec().insert(0, value),
            final(self).removed_spec() == (if old(self).inserted_spec().contains_key(0) {
                old(self).removed_spec()
            } else {
                old(self).removed_spec().insert(0, old(self).container_spec())
            }),
            old(self).entries() == Map::empty().insert(0usize, old(self).container_spec())
                && final(self).entries() == Map::empty().insert(0usize, value) ==> old(
                self,
            ).keeps_base(final(self).entries(), final(self).removed_spec(), final(self).inserted_spec()),
    {
        let ghost e0 = self.entries();
        let ghost r0 = self.removed_spec();
        let ghost i0 = self.inserted_spec();
        let zero: usize = 0;
        if self.delta.inserted.get(&zero).is_none() {
            self.delta.removed.insert(zero, self.container);
        }
        self.delta.inserted.insert(zero, value);
        self.container = value;
        proof {
            if e0 == Map::empty().insert(0usize, old(self).container_spec()) && self.entries()
                == Map::empty().insert(0usize, value) {
                assert(self.entries() =~= e0.insert(0, value));
                assert(self.removed_spec() == removed_after_write(r0, i0, e0, 0));
                if delta_fits(e0, i0, r0) {
                    lemma_write_keeps_base(e0, r0, i0, 0, value);
                }
            }
        }
    }
}

impl<
    K: Copy,
    V: Copy,
    C: Keyed<Key = K, Item = V> + Get<K>,
    DC: Keyed<Key = K, Item = V> + HalfDelta<K, V>,
> Get<K> for Recorder<C, DC> {
    fn get(&self, key: &K) -> (r: Option<&V>) {
        Recorder::get(self, key)
    }
}

impl<
    K: Copy,
    V: Copy,
    C: Keyed<Key = K, Item = V> + Get<K> + Insert<K>,
    DC: Keyed<Key = K, Item = V> + HalfDelta<K, V>,
> Insert<K> for Recorder<C, DC> {
    type Output = C::Output;

    open spec fn insert_output(before: Map<K, V>, key: K, out: C::Output) -> bool {
        C::insert_output(before, key, out)
    }

    fn insert(&mut self, key: K, value: V) -> (out: C::Output)
        ensures
            final(self).inserted_spec() == old(self).inserted_spec().insert(key, value),
            final(self).removed_spec() == removed_after_write(
                old(self).removed_spec(),
                old(self).inserted_spec(),
                old(self).entries(),
                key,
            ),
            old(self).keeps_base(
                final(self).entries(),
                final(self).removed_spec(),
                final(self).inserted_spec(),
            ),
    {
        self.insert(key, value)
    }
}

impl<
    K: Copy,
    V: Copy,
    C: Keyed<Key = K, Item = V> + Get<K> + SetAt<K>,
    DC: Keyed<Key = K, Item = V> + HalfDelta<K, V>,
> SetAt<K> for Recorder<C, DC> {
    type Output = C::Output;

    open spec fn settable(&self, key: K) -> bool {
        self.container_spec().settable(key)
    }

    open spec fn set_output(before: Map<K, V>, key: K, out: C::Output) -> bool {
        C::set_output(before, key, out)
    }

    fn set(&mut self, key: K, value: V) -> (out: C::Output)
        ensures
            final(self).inserted_spec() == old(self).inserted_spec().insert(key, value),
            final(self).removed_spec() == removed_after_write(
                old(self).removed_spec(),
                old(self).inserted_spec(),
                old(self).entries(),
                key,
            ),
            old(self).keeps_base(
                final(self).entries(),
                final(self).removed_spec(),
                final(self).inserted_spec(),
            ),
    {
        Recorder::set(self, key, value)
    }
}

impl<
    K: Copy,
    V: Copy,
    C: Keyed<Key = K, Item = V> + Get<K> + Modify<K>,
    DC: Keyed<Key = K, Item = V> + HalfDelta<K, V>,
> Modify<K> for Recorder<C, DC> {
    fn modify<F: FnMut(&mut V)>(&mut self, key: &K, f: F)
        ensures
            old(self).keeps_base(
                final(self).entries(),
                final(self).removed_spec(),
                final(self).inserted_spec(),
            ),
    {
        Recorder::modify(self, *key, f);
    }
}

impl<
    K: Copy,
    V: Copy,
    C: Keyed<Key = K, Item = V> + Remove<K>,
    DC: Keyed<Key = K, Item = V> + HalfDelta<K, V>,
> Remove<K> for Recorder<C, DC> {
    fn remove(&mut self, key: &K) -> (r: Option<V>)
        ensures
            r is None ==> final(self).delta_spec() == old(self).delta_spec(),
            r is Some ==> final(self).inserted_spec() == old(self).inserted_spec().remove(*key),
            r is Some ==> final(self).removed_spec() == removed_after_remove(
                old(self).removed_spec(),
                old(self).inserted_spec(),
                old(self).entries(),
                *key,
            ),
            old(self).keeps_base(
                final(self).entries(),
                final(self).removed_spec(),
                final(self).inserted_spec(),
            ),
    {
        Recorder::remove(self, key)
    }
}

impl<
    K: Copy,
    V: Copy,
    C: Keyed<Key = K, Item = V> + Push<K>,
    DC: Keyed<Key = K, Item = V> + HalfDelta<K, V>,
> Push<K> for Recorder<C, DC> {
    fn push(&mut self, value: V) -> (key: K)
        ensures
            final(self).inserted_spec() == old(self).inserted_spec().insert(key, value),
            final(self).removed_spec() == old(self).removed_spec(),
            old(self).keeps_base(
                final(self).entries(),
                final(self).removed_spec(),
                final(self).inserted_spec(),
            ),
    {
        Recorder::push(self, value)
    }
}

impl<
    K: Copy,
    V: Copy,
    C: Keyed<Key = K, Item = V> + Iter<K> + Clear,
    DC: Keyed<Key = K, Item = V> + HalfDelta<K, V>,
> Clear for Recorder<C, DC> {
    fn clear(&mut self)
        ensures
            old(self).keeps_base(
                final(self).entries(),
                final(self).removed_spec(),
                final(self).inserted_spec(),
            ),
    {
        Recorder::clear(self);
    }
}

impl<
    K,
    V,
    C: Keyed<Key = K, Item = V> + Iter<K>,
    DC: Keyed<Key = K, Item = V> + HalfDelta<K, V>,
> Iter<K> for Recorder<C, DC> {
    fn iter(&self) -> (r: Vec<(K, V)>) {
        self.container.iter()
    }
}

impl<
    K,
    V,
    C: Keyed<Key = K, Item = V> + Iter<K>,
    DC: Keyed<Key = K, Item = V> + HalfDelta<K, V>,
> IntoIter<K> for Recorder<C, DC> {
}

} // verus!
