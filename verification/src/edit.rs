use vstd::prelude::*;

verus! {

/// Revert an edit and return an edit that reverts the revert.
pub trait RevertEdit<T>: Sized {
    /// Holds when reverting `self` may take a target from state `before` to
    /// state `after` and hand back the edit `back`.
    spec fn reverts(&self, before: T, after: T, back: Self) -> bool;

    /// Revert an edit and return an edit that reverts the revert.
    fn revert_edit(self, target: &mut T) -> (back: Self)
        ensures
            self.reverts(*old(target), *final(target), back),
    ;
}

/// Apply an edit to a target, redoing it.
pub trait ApplyEdit<T>: Sized {
    /// Holds when applying `self` may take a target from state `before` to
    /// state `after`.
    spec fn applies(&self, before: T, after: T) -> bool;

    /// Apply the edit to the target.
    fn apply_edit(self, target: &mut T)
        ensures
            self.applies(*old(target), *final(target)),
    ;
}

/// Extract an edit corresponding to the current state.
///
/// In delta-based undo-redo, this flushes the delta. In snapshot-based
/// undo-redo, this clones the current state into a snapshot.
pub trait ExtractEdit<T>: Sized {
    /// Holds when extracting may take a target from state `before` to state
    /// `after` and yield the edit `edit`.
    spec fn extracts(before: T, after: T, edit: Self) -> bool;

    /// Extract an edit corresponding to the current state.
    fn extract_edit(target: &mut T) -> (edit: Self)
        ensures
            Self::extracts(*old(target), *final(target), edit),
    ;
}

impl<T> RevertEdit<T> for () {
    open spec fn reverts(&self, before: T, after: T, back: Self) -> bool {
        after == before
    }

    fn revert_edit(self, _target: &mut T) -> (back: Self) {
    }
}

impl<T> ApplyEdit<T> for () {
    open spec fn applies(&self, before: T, after: T) -> bool {
        after == before
    }

    fn apply_edit(self, _target: &mut T) {
    }
}

impl<T> ExtractEdit<T> for () {
    open spec fn extracts(before: T, after: T, edit: Self) -> bool {
        after == before
    }

    fn extract_edit(_target: &mut T) -> (edit: Self) {
    }
}

/// An edit along with metadata.
///
/// The metadata usually somehow represents the command that originated the
/// edit, but it really can be anything, as it is only for the convenience of
/// the programmer using the library, without any effect on logic.
#[derive(Debug, PartialEq, Eq, Hash)]
pub struct CmdEdit<Cmd, E> {
    /// Command or other metadata associated with this edit.
    pub cmd: Cmd,
    /// The recorded change (for example a flushed delta from a `Recorder`).
    pub edit: E,
}

impl<Cmd: Clone, E: Clone> Clone for CmdEdit<Cmd, E> {
    fn clone(&self) -> (r: Self)
        ensures
            cloned(self.cmd, r.cmd),
            cloned(self.edit, r.edit),
    {
        CmdEdit { cmd: self.cmd.clone(), edit: self.edit.clone() }
    }
}

impl<Cmd: Default, E: Default> Default for CmdEdit<Cmd, E> {
    fn default() -> (r: Self)
        ensures
            call_ensures(Cmd::default, (), r.cmd),
            call_ensures(E::default, (), r.edit),
    {
        CmdEdit { cmd: Cmd::default(), edit: E::default() }
    }
}

} // verus!
