use std::collections::BTreeMap;

use vstd::prelude::*;

use crate::collection::Keyed;
use crate::delta::{
    applies_entrywise, apply_entries, delta_fits, lemma_apply_reverse_restores, ApplyDelta, Delta,
    HalfDelta,
};
use crate::edit::{CmdEdit, ExtractEdit, RevertEdit};
use crate::snapshot::Snapshot;
use crate::recorder::Recorder;

verus! {

/// An history bistack for linear undo-redo action.
#[derive(Clone, Debug, PartialEq, Eq, Hash)]
pub struct UndoRedo<E, Cmd = ()> {
    done: Vec<CmdEdit<Cmd, E>>,
    undone: Vec<CmdEdit<Cmd, E>>,
}

impl<E, Cmd> Default for UndoRedo<E, Cmd> {
    fn default() -> (r: Self)
        ensures
            r.done_spec() == Seq::<CmdEdit<Cmd, E>>::empty(),
            r.undone_spec() == Seq::<CmdEdit<Cmd, E>>::empty(),
    {
        UndoRedo::new()
    }
}

impl<E, Cmd> UndoRedo<E, Cmd> {
    /// The *done* stack, oldest edit first.
    pub closed spec fn done_spec(&self) -> Seq<CmdEdit<Cmd, E>> {
        self.done@
    }

    /// The *undone* stack, the edit undone first at the front.
    pub closed spec fn undone_spec(&self) -> Seq<CmdEdit<Cmd, E>> {
        self.undone@
    }

    /// Create a new empty history bistack.
    pub fn new() -> (r: Self)
        ensures
            r.done_spec() == Seq::<CmdEdit<Cmd, E>>::empty(),
            r.undone_spec() == Seq::<CmdEdit<Cmd, E>>::empty(),
    {
        UndoRedo { done: Vec::new(), undone: Vec::new() }
    }

    /// Rebuild a history bistack from a *done* and an *undone* stack, laid
    /// out as [`Self::done`] and [`Self::undone`] hand them out.
    pub fn from_stacks(done: Vec<CmdEdit<Cmd, E>>, undone: Vec<CmdEdit<Cmd, E>>) -> (r: Self)
        ensures
            r.done_spec() == done@,
            r.undone_spec() == undone@,
    {
        UndoRedo { done, undone }
    }

    /// Returns a slice of the *done* stack, which contains all the done (or
    /// redone) edits.
    pub fn done(&self) -> (r: &[CmdEdit<Cmd, E>])
        ensures
            r@ == self.done_spec(),
    {
        self.done.as_slice()
    }

    /// Returns a slice of the *undone* stack, which contains all the undone
    /// edits.
    pub fn undone(&self) -> (r: &[CmdEdit<Cmd, E>])
        ensures
            r@ == self.undone_spec(),
    {
        self.undone.as_slice()
    }

    /// What committing with the command `cmd` does: the edit extracted from
    /// the target, taking it from `target` to `target_after`, is pushed with
    /// `cmd` onto the *done* stack, and the *undone* stack is cleared.
    pub open spec fn commits<
        T,
    >(self, cmd: Cmd, target: T, after: Self, target_after: T) -> bool where
        E: ExtractEdit<T>,
     {
        &&& after.done_spec().len() == self.done_spec().len() + 1
        &&& after.done_spec().drop_last() == self.done_spec()
        &&& after.done_spec().last().cmd == cmd
        &&& E::extracts(target, target_after, after.done_spec().last().edit)
        &&& after.undone_spec() == Seq::<CmdEdit<Cmd, E>>::empty()
    }

    /// Flush the target container and push its changes as an edit onto the
    /// *done* stack as an edit along with additional metadata ("cmd").
    ///
    /// This clears the undone stack.
    pub fn cmd_commit<T>(&mut self, cmd: Cmd, target: &mut T) where E: ExtractEdit<T>
        ensures
            old(self).commits(cmd, *old(target), *final(self), *final(target)),
    {
        let edit = E::extract_edit(target);
        self.done.push(CmdEdit { cmd, edit });
        self.undone.clear();
        proof {
            assert(self.done@.drop_last() =~= old(self).done@);
        }
    }
}

impl<E, Cmd: Default> UndoRedo<E, Cmd> {
    /// Flush the target container and push its changes as an edit onto the
    /// *done* stack, with the default command.
    ///
    /// This clears the undone stack.
    pub fn commit<T>(&mut self, target: &mut T) where E: ExtractEdit<T>
        ensures
            call_ensures(Cmd::default, (), final(self).done_spec().last().cmd),
            old(self).commits(
                final(self).done_spec().last().cmd,
                *old(target),
                *final(self),
                *final(target),
            ),
    {
        self.cmd_commit(Cmd::default(), target);
    }
}

impl<Cmd> UndoRedo<(), Cmd> {
    /// Push command onto the *done* stack without any edit (delta or
    /// snapshot).
    ///
    /// This is a convenience interface for the Command pattern, equivalent to
    /// calling [`UndoRedo::cmd_commit()`] with the `command` as `cmd` and `()`
    /// as `edit`.
    pub fn command(&mut self, command: Cmd)
        ensures
            final(self).done_spec() == old(self).done_spec().push(CmdEdit { cmd: command, edit: () }),
            final(self).undone_spec() == Seq::<CmdEdit<Cmd, ()>>::empty(),
    {
        self.cmd_commit(command, &mut ());
    }
}

impl<E, Cmd: Clone> UndoRedo<E, Cmd> {
    /// What undoing does when the *done* stack is not empty: its top edit is
    /// reverted on the target, which goes from `target` to `target_after`,
    /// and the edit handed back is pushed with a clone of the command onto
    /// the *undone* stack. It is the same step as redoing, with the two
    /// stacks swapped.
    pub open spec fn undo_step<T>(self, target: T, after: Self, target_after: T) -> bool where
        E: RevertEdit<T>,
     {
        move_step(
            self.done_spec(),
            self.undone_spec(),
            target,
            after.done_spec(),
            after.undone_spec(),
            target_after,
        )
    }

    /// What redoing does when the *undone* stack is not empty: the same step
    /// as undoing, from the *undone* stack to the *done* stack.
    pub open spec fn redo_step<T>(self, target: T, after: Self, target_after: T) -> bool where
        E: RevertEdit<T>,
     {
        move_step(
            self.undone_spec(),
            self.done_spec(),
            target,
            after.undone_spec(),
            after.done_spec(),
            target_after,
        )
    }
}

/// The top of `from` is popped and reverted on the target, taking it from
/// `target` to `target_after`, and the edit handed back is pushed with a clone
/// of the command onto `to`, giving `from_after` and `to_after`.
pub open spec fn move_step<Cmd: Clone, E: RevertEdit<T>, T>(
    from: Seq<CmdEdit<Cmd, E>>,
    to: Seq<CmdEdit<Cmd, E>>,
    target: T,
    from_after: Seq<CmdEdit<Cmd, E>>,
    to_after: Seq<CmdEdit<Cmd, E>>,
    target_after: T,
) -> bool {
    &&& from.len() > 0
    &&& from_after == from.drop_last()
    &&& to_after.len() == to.len() + 1
    &&& to_after.drop_last() == to
    &&& cloned(from.last().cmd, to_after.last().cmd)
    &&& from.last().edit.reverts(target, target_after, to_after.last().edit)
}

impl<E, Cmd: Clone> UndoRedo<E, Cmd> {
    /// Undo the last done edit.
    ///
    /// The undone edit is popped from the *done* stack, reversed, reverted,
    /// and pushed onto the *undone* stack.
    pub fn undo<T>(&mut self, target: &mut T) -> (r: Option<Cmd>) where E: RevertEdit<T>
        ensures
            old(self).done_spec().len() == 0 ==> r is None && final(self).done_spec() == old(
                self,
            ).done_spec() && final(self).undone_spec() == old(self).undone_spec() && *final(target)
                == *old(target),
            old(self).done_spec().len() > 0 ==> r == Some(old(self).done_spec().last().cmd)
                && old(self).undo_step(*old(target), *final(self), *final(target)),
    {
        let CmdEdit { cmd, edit } = match self.done.pop() {
            Some(cmd_edit) => cmd_edit,
            None => {
                return None;
            },
        };
        let copy = cmd.clone();
        let back = edit.revert_edit(target);
        self.undone.push(CmdEdit { cmd: copy, edit: back });
        proof {
            assert(self.undone@.drop_last() =~= old(self).undone@);
        }
        Some(cmd)
    }

    /// Redo the last undone edit.
    ///
    /// The redone edit is popped from the *undone* stack, reversed, reverted,
    /// and pushed back onto the *done* stack.
    pub fn redo<T>(&mut self, target: &mut T) -> (r: Option<Cmd>) where E: RevertEdit<T>
        ensures
            old(self).undone_spec().len() == 0 ==> r is None && final(self).done_spec() == old(
                self,
            ).done_spec() && final(self).undone_spec() == old(self).undone_spec() && *final(target)
                == *old(target),
            old(self).undone_spec().len() > 0 ==> r == Some(old(self).undone_spec().last().cmd)
                && old(self).redo_step(*old(target), *final(self), *final(target)),
    {
        let CmdEdit { cmd, edit } = match self.undone.pop() {
            Some(cmd_edit) => cmd_edit,
            None => {
                return None;
            },
        };
        let copy = cmd.clone();
        let back = edit.revert_edit(target);
        self.done.push(CmdEdit { cmd: copy, edit: back });
        proof {
            assert(self.done@.drop_last() =~= old(self).done@);
        }
        Some(cmd)
    }
}

impl<Cmd: Clone> UndoRedo<(), Cmd> {
    /// Pop the last done command from the *done* stack and push it onto the
    /// *undone* stack, returning it. The underlying data is not anyhow
    /// mutated otherwise.
    ///
    /// This is a convenience interface for the Command pattern. Implementing
    /// the returned command's behavior is the responsibility of the caller.
    pub fn undo_command(&mut self) -> (r: Option<Cmd>)
        ensures
            old(self).done_spec().len() == 0 ==> r is None && final(self).done_spec() == old(
                self,
            ).done_spec() && final(self).undone_spec() == old(self).undone_spec(),
            old(self).done_spec().len() > 0 ==> {
                &&& r == Some(old(self).done_spec().last().cmd)
                &&& final(self).done_spec() == old(self).done_spec().drop_last()
                &&& final(self).undone_spec().len() == old(self).undone_spec().len() + 1
                &&& final(self).undone_spec().drop_last() == old(self).undone_spec()
                &&& cloned(old(self).done_spec().last().cmd, final(self).undone_spec().last().cmd)
            },
    {
        let CmdEdit { cmd, .. } = match self.done.pop() {
            Some(cmd_edit) => cmd_edit,
            None => {
                return None;
            },
        };
        self.undone.push(CmdEdit { cmd: cmd.clone(), edit: () });
        proof {
            assert(self.undone@.drop_last() =~= old(self).undone@);
        }
        Some(cmd)
    }

    /// Pop the last undone command from the *undone* stack and push it onto
    /// the *done* stack, returning it. The underlying data is not anyhow
    /// mutated otherwise.
    ///
    /// This is a convenience interface for the Command pattern. Implementing
    /// the returned command's action is the responsibility of the caller.
    pub fn redo_command(&mut self) -> (r: Option<Cmd>)
        ensures
            old(self).undone_spec().len() == 0 ==> r is None && final(self).done_spec() == old(
                self,
            ).done_spec() && final(self).undone_spec() == old(self).undone_spec(),
            old(self).undone_spec().len() > 0 ==> {
                &&& r == Some(old(self).undone_spec().last().cmd)
                &&& final(self).undone_spec() == old(self).undone_spec().drop_last()
                &&& final(self).done_spec().len() == old(self).done_spec().len() + 1
                &&& final(self).done_spec().drop_last() == old(self).done_spec()
                &&& cloned(old(self).undone_spec().last().cmd, final(self).done_spec().last().cmd)
            },
    {
        let CmdEdit { cmd, .. } = match self.undone.pop() {
            Some(cmd_edit) => cmd_edit,
            None => {
                return None;
            },
        };
        self.done.push(CmdEdit { cmd: cmd.clone(), edit: () });
        proof {
            assert(self.done@.drop_last() =~= old(self).done@);
        }
        Some(cmd)
    }
}

impl<K, V, DC: Keyed<Key = K, Item = V> + HalfDelta<K, V>, Cmd> UndoRedo<Delta<DC>, Cmd> {
    /// Make and record changes to the recorded container from within a
    /// closure, automatically committing them once the closure finishes.
    pub fn edit<C, F>(&mut self, container: C, f: F) -> (r: C) where
        C: Keyed<Key = K, Item = V>,
        F: FnOnce(&mut Recorder<C, DC>) -> Cmd,

        requires
            forall|recorder: &mut Recorder<C, DC>| call_requires(f, (recorder,)),
        ensures
            final(self).done_spec().len() == old(self).done_spec().len() + 1,
            final(self).done_spec().drop_last() == old(self).done_spec(),
            final(self).undone_spec() == Seq::<CmdEdit<Cmd, Delta<DC>>>::empty(),
            exists|recorder: &mut Recorder<C, DC>|
                {
                    &&& recorder.container_spec() == container
                    &&& recorder.removed_spec() == Map::<K, V>::empty()
                    &&& recorder.inserted_spec() == Map::<K, V>::empty()
                    &&& #[trigger] call_ensures(
                        f,
                        (recorder,),
                        final(self).done_spec().last().cmd,
                    )
                    &&& r == final(recorder).container_spec()
                    &&& final(self).done_spec().last().edit == final(recorder).delta_spec()
                },
    {
        let mut recorder = Recorder::new(container);
        let ghost start = recorder;
        let cmd = f(&mut recorder);
        let ghost after = recorder;
        proof {
            assert(exists|r: &mut Recorder<C, DC>|
                *r == start && #[trigger] call_ensures(f, (r,), cmd) && *final(r) == after);
        }
        let (container, delta) = recorder.dissolve();
        self.done.push(CmdEdit { cmd, edit: delta });
        self.undone.clear();
        proof {
            assert(self.done@.drop_last() =~= old(self).done@);
            assert(self.done@.last().cmd == cmd);
            assert(self.done@.last().edit == after.delta_spec());
            assert(container == after.container_spec());
        }
        container
    }
}

/// Reverting a delta on a container that applies deltas entry by entry, and
/// then reverting the delta handed back, gives back the container's entries
/// and the delta, where the delta's reverse fits the entries (as it does when
/// the delta led to them).
pub proof fn lemma_revert_twice_restores<
    K,
    V,
    C: Keyed<Key = K, Item = V> + ApplyDelta<DC>,
    DC: Keyed<Key = K, Item = V> + HalfDelta<K, V>,
>(edit: Delta<DC>, t0: C, t1: C, back: Delta<DC>, t2: C, again: Delta<DC>)
    requires
        applies_entrywise::<K, V, C, DC>(),
        delta_fits(t0.entries(), edit.inserted.entries(), edit.removed.entries()),
        edit.reverts(t0, t1, back),
        back.reverts(t1, t2, again),
    ensures
        t2.entries() == t0.entries(),
        again == edit,
{
    lemma_apply_reverse_restores(t0.entries(), edit.inserted.entries(), edit.removed.entries());
    let d1 = choose|d: Delta<DC>|
        cloned(back.removed, d.removed) && cloned(back.inserted, d.inserted)
            && #[trigger] t0.delta_applied(d, t1);
    DC::lemma_cloned_entries(back.removed, d1.removed);
    DC::lemma_cloned_entries(back.inserted, d1.inserted);
    let d2 = choose|d: Delta<DC>|
        cloned(again.removed, d.removed) && cloned(again.inserted, d.inserted)
            && #[trigger] t1.delta_applied(d, t2);
    DC::lemma_cloned_entries(again.removed, d2.removed);
    DC::lemma_cloned_entries(again.inserted, d2.inserted);
    assert(t1.entries() == apply_entries(
        t0.entries(),
        edit.inserted.entries(),
        edit.removed.entries(),
    ));
    assert(t2.entries() == apply_entries(
        t1.entries(),
        edit.removed.entries(),
        edit.inserted.entries(),
    ));
}

/// Undoing and then redoing gives back the target's entries and the history,
/// up to clones of the command, for a target that applies deltas entry by
/// entry and where the reverse of the top edit fits the target (as it does
/// when that edit led to the target).
pub proof fn lemma_undo_redo_round_trip<
    K,
    V,
    C: Keyed<Key = K, Item = V> + ApplyDelta<DC>,
    DC: Keyed<Key = K, Item = V> + HalfDelta<K, V>,
    Cmd: Clone,
>(
    u0: UndoRedo<Delta<DC>, Cmd>,
    t0: C,
    u1: UndoRedo<Delta<DC>, Cmd>,
    t1: C,
    u2: UndoRedo<Delta<DC>, Cmd>,
    t2: C,
)
    requires
        applies_entrywise::<K, V, C, DC>(),
        u0.done_spec().len() > 0,
        delta_fits(
            t0.entries(),
            u0.done_spec().last().edit.inserted.entries(),
            u0.done_spec().last().edit.removed.entries(),
        ),
        u0.undo_step(t0, u1, t1),
        u1.redo_step(t1, u2, t2),
    ensures
        t2.entries() == t0.entries(),
        u2.done_spec().len() == u0.done_spec().len(),
        u2.done_spec().drop_last() == u0.done_spec().drop_last(),
        u2.done_spec().last().edit == u0.done_spec().last().edit,
        u2.undone_spec() == u0.undone_spec(),
{
    lemma_revert_twice_restores(
        u0.done_spec().last().edit,
        t0,
        t1,
        u1.undone_spec().last().edit,
        t2,
        u2.done_spec().last().edit,
    );
}

/// Committing what a consistent recorder recorded and then undoing it gives
/// back the state when the recording began; redoing it then gives back the
/// state the recording led to. This holds of every container that applies
/// deltas entry by entry, such as maps and sets.
pub proof fn lemma_undo_after_commit_restores<
    K,
    V,
    C: Keyed<Key = K, Item = V> + ApplyDelta<DC>,
    DC: Keyed<Key = K, Item = V> + HalfDelta<K, V>,
    Cmd: Clone,
>(
    u0: UndoRedo<Delta<DC>, Cmd>,
    cmd: Cmd,
    rec0: Recorder<C, DC>,
    u1: UndoRedo<Delta<DC>, Cmd>,
    rec1: Recorder<C, DC>,
    u2: UndoRedo<Delta<DC>, Cmd>,
    rec2: Recorder<C, DC>,
    u3: UndoRedo<Delta<DC>, Cmd>,
    rec3: Recorder<C, DC>,
)
    requires
        applies_entrywise::<K, V, C, DC>(),
        rec0.consistent(),
        u0.commits(cmd, rec0, u1, rec1),
        u1.undo_step(rec1, u2, rec2),
    ensures
        rec2.entries() == rec0.base(),
        u2.redo_step(rec2, u3, rec3) ==> rec3.entries() == rec0.entries(),
{
    let edit = u1.done_spec().last().edit;
    let back = u2.undone_spec().last().edit;
    assert(edit == rec0.delta_spec());
    assert(rec1.entries() == rec0.entries());
    lemma_apply_reverse_restores(rec0.base(), rec0.removed_spec(), rec0.inserted_spec());
    crate::recorder::lemma_recorded_delta_replays(rec0);
    let d1 = choose|d: Delta<DC>|
        cloned(back.removed, d.removed) && cloned(back.inserted, d.inserted)
            && #[trigger] rec1.delta_applied(d, rec2);
    DC::lemma_cloned_entries(back.removed, d1.removed);
    DC::lemma_cloned_entries(back.inserted, d1.inserted);
    assert(rec1.container_spec().delta_applied(d1, rec2.container_spec()));
    assert(rec2.entries() == apply_entries(
        rec1.entries(),
        edit.inserted.entries(),
        edit.removed.entries(),
    ));
    if u2.redo_step(rec2, u3, rec3) {
        let again = u3.done_spec().last().edit;
        let d2 = choose|d: Delta<DC>|
            cloned(again.removed, d.removed) && cloned(again.inserted, d.inserted)
                && #[trigger] rec2.delta_applied(d, rec3);
        DC::lemma_cloned_entries(again.removed, d2.removed);
        DC::lemma_cloned_entries(again.inserted, d2.inserted);
        assert(rec2.container_spec().delta_applied(d2, rec3.container_spec()));
        assert(rec3.entries() == apply_entries(
            rec2.entries(),
            edit.removed.entries(),
            edit.inserted.entries(),
        ));
    }
}

/// Committing what a consistent recorder over a vector recorded since it
/// began with the vector `start`, and then undoing it, gives back `start`;
/// redoing it then gives back the vector the recording led to.
pub proof fn lemma_vec_undo_after_commit_restores<V: Copy, Cmd: Clone>(
    start: Vec<V>,
    u0: UndoRedo<Delta<BTreeMap<usize, V>>, Cmd>,
    cmd: Cmd,
    rec0: Recorder<Vec<V>, BTreeMap<usize, V>>,
    u1: UndoRedo<Delta<BTreeMap<usize, V>>, Cmd>,
    rec1: Recorder<Vec<V>, BTreeMap<usize, V>>,
    u2: UndoRedo<Delta<BTreeMap<usize, V>>, Cmd>,
    rec2: Recorder<Vec<V>, BTreeMap<usize, V>>,
    u3: UndoRedo<Delta<BTreeMap<usize, V>>, Cmd>,
    rec3: Recorder<Vec<V>, BTreeMap<usize, V>>,
)
    requires
        rec0.consistent(),
        rec0.base() == start.entries(),
        u0.commits(cmd, rec0, u1, rec1),
        u1.undo_step(rec1, u2, rec2),
    ensures
        rec2.container_spec()@ == start@,
        u2.redo_step(rec2, u3, rec3) ==> rec3.container_spec()@ == rec0.container_spec()@,
{
    let edit = u1.done_spec().last().edit;
    let back = u2.undone_spec().last().edit;
    let c0 = rec0.container_spec();
    let c1 = rec1.container_spec();
    assert(edit == rec0.delta_spec());
    assert(c1 == c0);
    assert(c0.len() == c0@.len());
    assert(start.len() == start@.len());
    crate::recorder::lemma_recorded_delta_replays(rec0);
    assert forall|k: usize| #[trigger] rec0.removed_spec().contains_key(k) implies k
        < usize::MAX by {
        assert(start.entries().contains_key(k));
    }
    assert forall|k: usize| #[trigger] rec0.inserted_spec().contains_key(k) implies k
        < usize::MAX by {
        assert(c0.entries().contains_key(k));
    }
    let d1 = choose|d: Delta<BTreeMap<usize, V>>|
        cloned(back.removed, d.removed) && cloned(back.inserted, d.inserted)
            && #[trigger] rec1.delta_applied(d, rec2);
    crate::delta::lemma_vec_applied_entries(
        c0@,
        rec0.inserted_spec(),
        rec0.removed_spec(),
        start@,
    );
    if u2.redo_step(rec2, u3, rec3) {
        let again = u3.done_spec().last().edit;
        let d2 = choose|d: Delta<BTreeMap<usize, V>>|
            cloned(again.removed, d.removed) && cloned(again.inserted, d.inserted)
                && #[trigger] rec2.delta_applied(d, rec3);
        crate::delta::lemma_vec_applied_entries(
            start@,
            rec0.removed_spec(),
            rec0.inserted_spec(),
            c0@,
        );
    }
}


/// In a history of snapshots, each undo puts back the state that the top
/// snapshot holds: after committing a state `a`, then a state `b`, the first
/// undo leaves the target a clone of `b`, the state just committed, and the
/// second a clone of `a`.
pub proof fn lemma_snapshot_undo_restores_committed<T: Clone, Cmd: Clone>(
    u0: UndoRedo<Snapshot<T>, Cmd>,
    cmd_a: Cmd,
    a: T,
    u1: UndoRedo<Snapshot<T>, Cmd>,
    a_after: T,
    cmd_b: Cmd,
    b: T,
    u2: UndoRedo<Snapshot<T>, Cmd>,
    b_after: T,
    u3: UndoRedo<Snapshot<T>, Cmd>,
    t3: T,
    u4: UndoRedo<Snapshot<T>, Cmd>,
    t4: T,
)
    requires
        u0.commits(cmd_a, a, u1, a_after),
        u1.commits(cmd_b, b, u2, b_after),
        u2.undo_step(b_after, u3, t3),
        u3.undo_step(t3, u4, t4),
    ensures
        a_after == a,
        b_after == b,
        cloned(b, t3),
        cloned(a, t4),
        u4.done_spec() == u0.done_spec(),
{
    assert(u2.done_spec().drop_last().last() == u1.done_spec().last());
    assert(u3.done_spec() == u1.done_spec());
}


/// Where commands clone faithfully, undoing and then redoing gives back both
/// stacks exactly, and the target's entries, for a target that applies
/// deltas entry by entry and where the reverse of the top edit fits the
/// target (as it does when that edit led to the target).
pub proof fn lemma_undo_redo_restores_stacks<
    K,
    V,
    C: Keyed<Key = K, Item = V> + ApplyDelta<DC>,
    DC: Keyed<Key = K, Item = V> + HalfDelta<K, V>,
    Cmd: Clone,
>(
    u0: UndoRedo<Delta<DC>, Cmd>,
    t0: C,
    u1: UndoRedo<Delta<DC>, Cmd>,
    t1: C,
    u2: UndoRedo<Delta<DC>, Cmd>,
    t2: C,
)
    requires
        forall|a: Cmd, b: Cmd| #[trigger] cloned(a, b) ==> a == b,
        applies_entrywise::<K, V, C, DC>(),
        u0.done_spec().len() > 0,
        delta_fits(
            t0.entries(),
            u0.done_spec().last().edit.inserted.entries(),
            u0.done_spec().last().edit.removed.entries(),
        ),
        u0.undo_step(t0, u1, t1),
        u1.redo_step(t1, u2, t2),
    ensures
        t2.entries() == t0.entries(),
        u2.done_spec() == u0.done_spec(),
        u2.undone_spec() == u0.undone_spec(),
{
    lemma_undo_redo_round_trip(u0, t0, u1, t1, u2, t2);
    let top = u0.done_spec().last();
    let mid = u1.undone_spec().last();
    let again = u2.done_spec().last();
    assert(cloned(top.cmd, mid.cmd));
    assert(cloned(mid.cmd, again.cmd));
    assert(again == top);
    assert(u2.done_spec() =~= u0.done_spec().drop_last().push(top));
    assert(u0.done_spec() =~= u0.done_spec().drop_last().push(top));
}

/// In a history of snapshots, undoing and then redoing leaves the target a
/// clone of what it was, the top snapshot a clone of the one it replaced,
/// and the rest of both stacks as they were. Where states and commands
/// clone faithfully, target and stacks are back exactly.
pub proof fn lemma_snapshot_undo_redo_round_trip<T: Clone, Cmd: Clone>(
    u0: UndoRedo<Snapshot<T>, Cmd>,
    t0: T,
    u1: UndoRedo<Snapshot<T>, Cmd>,
    t1: T,
    u2: UndoRedo<Snapshot<T>, Cmd>,
    t2: T,
)
    requires
        u0.undo_step(t0, u1, t1),
        u1.redo_step(t1, u2, t2),
    ensures
        t1 == u0.done_spec().last().edit.state_spec(),
        cloned(t0, t2),
        cloned(u0.done_spec().last().edit.state_spec(), u2.done_spec().last().edit.state_spec()),
        u2.done_spec().drop_last() == u0.done_spec().drop_last(),
        u2.undone_spec() == u0.undone_spec(),
        (forall|a: T, b: T| #[trigger] cloned(a, b) ==> a == b) && (forall|a: Cmd, b: Cmd|
            #[trigger] cloned(a, b) ==> a == b) ==> {
            &&& t2 == t0
            &&& u2.done_spec() == u0.done_spec()
        },
{
    assert(u2.undone_spec() =~= u0.undone_spec());
    if (forall|a: T, b: T| #[trigger] cloned(a, b) ==> a == b) && (forall|a: Cmd, b: Cmd|
        #[trigger] cloned(a, b) ==> a == b) {
        let top = u0.done_spec().last();
        let mid = u1.undone_spec().last();
        let again = u2.done_spec().last();
        assert(cloned(top.cmd, mid.cmd));
        assert(cloned(mid.cmd, again.cmd));
        Snapshot::lemma_same_state(again.edit, top.edit);
        assert(again == top);
        assert(u2.done_spec() =~= u0.done_spec().drop_last().push(top));
        assert(u0.done_spec() =~= u0.done_spec().drop_last().push(top));
    }
}

} // verus!
