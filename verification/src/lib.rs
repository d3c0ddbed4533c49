//! Undo and redo on arbitrary data structures by recording sparse deltas of
//! their changes, or whole snapshots of past states, kept in a linear undo-redo
//! bistack or a non-linear history tree.

use vstd::prelude::*;

pub mod aliases;
pub mod bimap;
pub mod collection;
pub mod delta;
pub mod edit;
pub mod hashmap;
pub mod history_tree;
pub mod index_map;
pub mod key;
pub mod recorder;
pub mod rtreed;
pub mod snapshot;
pub mod tiny_vec;
pub mod undoredo;
pub mod vecdeque;

pub use crate::collection::{Clear, Collection, Get, Insert, IntoIter, Iter, Keyed, Modify, Push, Remove, SetAt};
pub use crate::bimap::{Bimap, Overwritten};
pub use crate::delta::{ApplyDelta, Delta, HalfDelta, MergeDelta};
pub use crate::edit::{ApplyEdit, CmdEdit, ExtractEdit, RevertEdit};
pub use crate::history_tree::{HistoryTree, HistoryTreeNode, HistoryTreeNodeId};
pub use crate::key::{HashKey, OrdKey};
pub use crate::recorder::{ExtendDelta, FlushDelta, Recorder, ResetDelta};
pub use crate::snapshot::Snapshot;
pub use crate::undoredo::UndoRedo;

verus! {
}
