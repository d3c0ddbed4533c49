//! Delta recording on `tinyvec::TinyVec<[i32; 8]>`, a vector that keeps up to
//! eight items inline and moves to the heap beyond that; keyed by index as a
//! `Vec` is. Verus cannot be told of `TinyVec` itself (its type parameter is
//! bound by `tinyvec::Array`), so the library holds it in `TinyVec8`.

use std::collections::BTreeMap;

use tinyvec::TinyVec;
use vstd::prelude::*;

use crate::collection::{
    lists_entries, seq_entries, Clear, Collection, Get, IntoIter, Iter, Keyed, Push, SetAt,
};
use crate::delta::{apply_delta_on_seq, vec_applied, ApplyDelta, Delta, SeqContainer};

verus! {

/// A `TinyVec<[i32; 8]>`.
#[verifier::external_body]
pub struct TinyVec8 {
    inner: TinyVec<[i32; 8]>,
}

/// The items of a `TinyVec8`, in order.
pub uninterp spec fn tiny_vec_items(v: TinyVec8) -> Seq<i32>;

/// `TinyVec::new`: an empty vector.
#[verifier::external_body]
fn tiny_vec_new() -> (r: TinyVec8)
    ensures
        tiny_vec_items(r).len() == 0,
{
    TinyVec8 { inner: TinyVec::new() }
}

/// `TinyVec::len`: the number of items.
#[verifier::external_body]
pub(crate) fn tiny_vec_len(v: &TinyVec8) -> (r: usize)
    ensures
        r == tiny_vec_items(*v).len(),
{
    v.inner.len()
}

/// Indexing a `TinyVec`: the item at index `i`.
#[verifier::external_body]
pub(crate) fn tiny_vec_index(v: &TinyVec8, i: usize) -> (r: &i32)
    requires
        i < tiny_vec_items(*v).len(),
    ensures
        *r == tiny_vec_items(*v)[i as int],
{
    &v.inner[i]
}

/// Indexing a `TinyVec` mutably and writing: the item at index `i` becomes
/// `value`.
#[verifier::external_body]
pub(crate) fn tiny_vec_set(v: &mut TinyVec8, i: usize, value: i32)
    requires
        i < tiny_vec_items(*old(v)).len(),
    ensures
        tiny_vec_items(*final(v)) == tiny_vec_items(*old(v)).update(i as int, value),
{
    v.inner[i] = value;
}

/// `TinyVec::push`: appends an item.
#[verifier::external_body]
pub(crate) fn tiny_vec_push(v: &mut TinyVec8, value: i32)
    ensures
        tiny_vec_items(*final(v)) == tiny_vec_items(*old(v)).push(value),
{
    v.inner.push(value);
}

/// `TinyVec::pop`: removes and hands back the last item, if any.
#[verifier::external_body]
pub(crate) fn tiny_vec_pop(v: &mut TinyVec8) -> (r: Option<i32>)
    ensures
        match r {
            Some(x) => {
                &&& tiny_vec_items(*old(v)).len() > 0
                &&& x == tiny_vec_items(*old(v)).last()
                &&& tiny_vec_items(*final(v)) == tiny_vec_items(*old(v)).drop_last()
            },
            None => {
                &&& tiny_vec_items(*old(v)).len() == 0
                &&& tiny_vec_items(*final(v)) == tiny_vec_items(*old(v))
            },
        },
{
    v.inner.pop()
}

/// `TinyVec::clear`: removes every item.
#[verifier::external_body]
pub(crate) fn tiny_vec_clear(v: &mut TinyVec8)
    ensures
        tiny_vec_items(*final(v)).len() == 0,
{
    v.inner.clear()
}

impl TinyVec8 {
    /// An empty vector.
    pub fn new() -> (r: Self)
        ensures
            tiny_vec_items(r) == Seq::<i32>::empty(),
    {
        let r = tiny_vec_new();
        proof {
            assert(tiny_vec_items(r) =~= Seq::<i32>::empty());
        }
        r
    }

    /// The number of items.
    pub fn len(&self) -> (r: usize)
        ensures
            r == tiny_vec_items(*self).len(),
    {
        tiny_vec_len(self)
    }

    /// The items, in order, copied into a `Vec`.
    pub fn to_vec(&self) -> (r: Vec<i32>)
        ensures
            r@ == tiny_vec_items(*self),
    {
        let mut r: Vec<i32> = Vec::new();
        let n = tiny_vec_len(self);
        let mut i: usize = 0;
        while i < n
            invariant
                n == tiny_vec_items(*self).len(),
                i <= n,
                r@ == tiny_vec_items(*self).take(i as int),
            decreases n - i,
        {
            r.push(*tiny_vec_index(self, i));
            proof {
                assert(r@ =~= tiny_vec_items(*self).take(i + 1));
            }
            i = i + 1;
        }
        proof {
            assert(tiny_vec_items(*self).take(n as int) =~= tiny_vec_items(*self));
        }
        r
    }
}

impl Collection for TinyVec8 {
    type Item = i32;
}

impl Keyed for TinyVec8 {
    type Key = usize;

    open spec fn entries(&self) -> Map<usize, i32> {
        seq_entries(tiny_vec_items(*self))
    }
}

impl Get<usize> for TinyVec8 {
    fn get(&self, index: &usize) -> (r: Option<&i32>) {
        if *index < tiny_vec_len(self) {
            Some(tiny_vec_index(self, *index))
        } else {
            None
        }
    }
}

impl SetAt<usize> for TinyVec8 {
    type Output = ();

    open spec fn settable(&self, key: usize) -> bool {
        key < tiny_vec_items(*self).len()
    }

    open spec fn set_output(before: Map<usize, i32>, key: usize, out: ()) -> bool {
        true
    }

    fn set(&mut self, index: usize, value: i32) {
        tiny_vec_set(self, index, value);
        proof {
            assert(self.entries() =~= old(self).entries().insert(index, value));
        }
    }
}

impl Push<usize> for TinyVec8 {
    fn push(&mut self, value: i32) -> (key: usize) {
        let key = tiny_vec_len(self);
        tiny_vec_push(self, value);
        proof {
            assert(self.entries() =~= old(self).entries().insert(key, value));
        }
        key
    }
}

impl Clear for TinyVec8 {
    fn clear(&mut self) {
        tiny_vec_clear(self);
        proof {
            assert(self.entries() =~= Map::<usize, i32>::empty());
        }
    }
}

impl Iter<usize> for TinyVec8 {
    fn iter(&self) -> (r: Vec<(usize, i32)>) {
        let mut r: Vec<(usize, i32)> = Vec::new();
        let mut i: usize = 0;
        let n = tiny_vec_len(self);
        while i < n
            invariant
                n == tiny_vec_items(*self).len(),
                i <= n,
                r@.len() == i,
                forall|j: int| 0 <= j < i ==> (#[trigger] r@[j]) == (j as usize, tiny_vec_items(*self)[j]),
            decreases n - i,
        {
            r.push((i, *tiny_vec_index(self, i)));
            i = i + 1;
        }
        proof {
            assert forall|k: usize| self.entries().contains_key(k) implies exists|j: int|
                0 <= j < r@.len() && #[trigger] r@[j].0 == k by {
                assert(r@[k as int].0 == k);
            }
        }
        r
    }
}

impl IntoIter<usize> for TinyVec8 {

}

impl SeqContainer<i32> for TinyVec8 {
    open spec fn seq(&self) -> Seq<i32> {
        tiny_vec_items(*self)
    }

    fn seq_len(&self) -> (r: usize) {
        tiny_vec_len(self)
    }

    fn seq_pop(&mut self) {
        let _ = tiny_vec_pop(self);
    }

    fn seq_push(&mut self, v: i32) {
        tiny_vec_push(self, v);
    }

    fn seq_set(&mut self, i: usize, v: i32) {
        tiny_vec_set(self, i, v);
    }
}

impl ApplyDelta<BTreeMap<usize, i32>> for TinyVec8 {
    /// Where no inserted index is `usize::MAX` (one past it would not be a
    /// length), the items become `vec_applied` of themselves, as a vector's
    /// would.
    open spec fn delta_applied(&self, delta: Delta<BTreeMap<usize, i32>>, after: Self) -> bool {
        (forall|k: usize| #[trigger] delta.inserted@.contains_key(k) ==> k < usize::MAX)
            ==> tiny_vec_items(after) == vec_applied(
            tiny_vec_items(*self),
            delta.removed@,
            delta.inserted@,
        )
    }

    fn apply_delta(&mut self, delta: Delta<BTreeMap<usize, i32>>) {
        apply_delta_on_seq(self, delta);
    }
}

} // verus!
