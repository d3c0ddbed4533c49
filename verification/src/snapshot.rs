use vstd::prelude::*;

use crate::edit::{ApplyEdit, ExtractEdit, RevertEdit};

verus! {

/// A whole copy of a past state of a target.
#[derive(Debug, PartialEq, Eq, Hash)]
pub struct Snapshot<T> {
    state: T,
}

impl<T> Snapshot<T> {
    /// The state that the snapshot holds.
    pub closed spec fn state_spec(&self) -> T {
        self.state
    }

    /// Create a new snapshot from a state of a target.
    pub fn new(state: T) -> (r: Self)
        ensures
            r.state_spec() == state,
    {
        Snapshot { state }
    }

    /// Two snapshots holding the same state are the same snapshot.
    pub proof fn lemma_same_state(a: Self, b: Self)
        requires
            a.state_spec() == b.state_spec(),
        ensures
            a == b,
    {
    }

    /// Dissolve the snapshot, returning the state it was holding.
    pub fn dissolve(self) -> (r: T)
        ensures
            r == self.state_spec(),
    {
        self.state
    }
}

impl<T: Default> Default for Snapshot<T> {
    fn default() -> (r: Self)
        ensures
            call_ensures(T::default, (), r.state_spec()),
    {
        Snapshot { state: T::default() }
    }
}

impl<T: Clone> Clone for Snapshot<T> {
    fn clone(&self) -> (r: Self)
        ensures
            cloned(self.state_spec(), r.state_spec()),
    {
        Snapshot { state: self.state.clone() }
    }
}

impl<T: Clone> RevertEdit<T> for Snapshot<T> {
    /// Reverting a snapshot puts its state into the target and hands back a
    /// snapshot of a clone of what the target held.
    open spec fn reverts(&self, before: T, after: T, back: Self) -> bool {
        &&& after == self.state_spec()
        &&& cloned(before, back.state_spec())
    }

    fn revert_edit(self, target: &mut T) -> (back: Self) {
        let reverse = Snapshot::new(target.clone());
        *target = self.state;
        reverse
    }
}

impl<T: Clone> ExtractEdit<T> for Snapshot<T> {
    /// Extracting a snapshot leaves the target as it is and clones it.
    open spec fn extracts(before: T, after: T, edit: Self) -> bool {
        &&& after == before
        &&& cloned(before, edit.state_spec())
    }

    fn extract_edit(target: &mut T) -> (edit: Self) {
        Snapshot::new(target.clone())
    }
}

impl<T> ApplyEdit<T> for Snapshot<T> {
    /// Applying a snapshot puts its state into the target.
    open spec fn applies(&self, before: T, after: T) -> bool {
        after == self.state_spec()
    }

    fn apply_edit(self, target: &mut T) {
        *target = self.state;
    }
}

} // verus!
