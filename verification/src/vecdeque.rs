//! Delta recording on double-ended queues, keyed by index as vectors are.

use std::collections::{BTreeMap, VecDeque};

use vstd::prelude::*;

use crate::collection::{
    lists_entries, seq_entries, Clear, Collection, Get, IntoIter, Iter, Keyed, Modify, Push, SetAt,
};
use crate::delta::{apply_delta_on_seq, vec_applied, ApplyDelta, Delta, SeqContainer};

verus! {

broadcast use vstd::std_specs::vecdeque::group_vec_dequeue_axioms;

impl<V> Collection for VecDeque<V> {
    type Item = V;
}

impl<V> Keyed for VecDeque<V> {
    type Key = usize;

    open spec fn entries(&self) -> Map<usize, V> {
        seq_entries(self@)
    }
}

/// Overwrite the item at index `i` of a double-ended queue.
fn set_at<V>(q: &mut VecDeque<V>, i: usize, value: V)
    requires
        i < old(q)@.len(),
    ensures
        final(q)@ == old(q)@.update(i as int, value),
{
    let _ = VecDeque::remove(q, i);
    VecDeque::insert(q, i, value);
    proof {
        assert(q@ =~= old(q)@.update(i as int, value));
    }
}

impl<V> Get<usize> for VecDeque<V> {
    fn get(&self, index: &usize) -> (r: Option<&V>) {
        let i: usize = *index;
        if i < self.len() {
            Some(&self[i])
        } else {
            None
        }
    }
}

impl<V> SetAt<usize> for VecDeque<V> {
    type Output = ();

    open spec fn settable(&self, key: usize) -> bool {
        key < self@.len()
    }

    open spec fn set_output(before: Map<usize, V>, key: usize, out: ()) -> bool {
        true
    }

    fn set(&mut self, index: usize, value: V) {
        set_at(self, index, value);
        proof {
            assert(self.entries() =~= old(self).entries().insert(index, value));
        }
    }
}

impl<V> Push<usize> for VecDeque<V> {
    fn push(&mut self, value: V) -> (key: usize) {
        let key = self.len();
        VecDeque::push_back(self, value);
        proof {
            assert(self.entries() =~= old(self).entries().insert(key, value));
        }
        key
    }
}

impl<V> Clear for VecDeque<V> {
    fn clear(&mut self) {
        VecDeque::clear(self);
        proof {
            assert(self.entries() =~= Map::<usize, V>::empty());
        }
    }
}

impl<V: Copy> Iter<usize> for VecDeque<V> {
    fn iter(&self) -> (r: Vec<(usize, V)>) {
        let mut r: Vec<(usize, V)> = Vec::new();
        let mut i: usize = 0;
        while i < self.len()
            invariant
                i <= self@.len(),
                r@.len() == i,
                forall|j: int| 0 <= j < i ==> (#[trigger] r@[j]) == (j as usize, self@[j]),
            decreases self@.len() - i,
        {
            r.push((i, self[i]));
            i = i + 1;
        }
        proof {
            assert forall|k: usize| self.entries().contains_key(k) implies exists|j: int|
                0 <= j < r@.len() && #[trigger] r@[j].0 == k by {
                assert(r@[k as int].0 == k);
            }
        }
        r
    }
}

impl<V: Copy> IntoIter<usize> for VecDeque<V> {

}

impl<V: Copy> Modify<usize> for VecDeque<V> {
    fn modify<F: FnMut(&mut V)>(&mut self, index: &usize, mut f: F) {
        let i: usize = *index;
        let mut value = self[i];
        f(&mut value);
        set_at(self, *index, value);
        proof {
            assert(self.entries() =~= old(self).entries().insert(*index, value));
        }
    }
}

impl<V> SeqContainer<V> for VecDeque<V> {
    open spec fn seq(&self) -> Seq<V> {
        self@
    }

    fn seq_len(&self) -> (r: usize) {
        self.len()
    }

    fn seq_pop(&mut self) {
        let _ = self.pop_back();
    }

    fn seq_push(&mut self, v: V) {
        self.push_back(v);
    }

    fn seq_set(&mut self, i: usize, v: V) {
        set_at(self, i, v);
    }
}

impl<V: Copy> ApplyDelta<BTreeMap<usize, V>> for VecDeque<V> {
    /// Where no inserted index is `usize::MAX` (one past it would not be a
    /// length), the queue becomes `vec_applied` of itself, as a vector would.
    open spec fn delta_applied(&self, delta: Delta<BTreeMap<usize, V>>, after: Self) -> bool {
        (forall|k: usize| #[trigger] delta.inserted@.contains_key(k) ==> k < usize::MAX) ==> after@
            == vec_applied(self@, delta.removed@, delta.inserted@)
    }

    fn apply_delta(&mut self, delta: Delta<BTreeMap<usize, V>>) {
        apply_delta_on_seq(self, delta);
    }
}

} // verus!
