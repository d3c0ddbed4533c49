# undoredo

Undo and redo on arbitrary data structures by recording sparse *deltas* of
their changes, or whole *snapshots* of past states, kept in a linear undo-redo
bistack or a non-linear history tree. The library's own functions are
verified with Verus against their contracts; the calls into `bidimap` and
`indexmap` stand behind small trusted wrappers whose contracts are believed,
not proved.

## Layout

- `src/delta.rs`: `Delta`, a removed half and an inserted half; reversing,
  merging and applying deltas to maps, sets, vectors, options, smart pointers,
  scalars and tuples. The model of a delta on a map is `apply_entries`: remove
  the keys of the removed half, then insert the entries of the inserted half.
- `src/recorder.rs`: `Recorder`, which wraps a container and records every
  change made through it as a delta whose halves are any `HalfDelta` (a
  `BTreeMap` by default, or a `HashMap`). Each operation keeps the *base*, the
  state when the recording began, from which the recorded delta replays.
- `src/undoredo.rs`: `UndoRedo`, the linear bistack of done and undone edits,
  with the laws that undoing a committed recording restores its start and that
  redoing restores its end.
- `src/history_tree.rs`: `HistoryTree`, a tree of edits with checkout between
  any two nodes through their lowest common ancestor.
- `src/snapshot.rs`: `Snapshot`, a whole past state used as an edit.
- `src/collection.rs`: the container traits (`Keyed`, `Get`, `Insert`, ...)
  whose contracts speak of a container's entries, with their implementations
  for the standard collections; `src/hashmap.rs` does the same for `HashMap`
  and `HashSet`, and `src/bimap.rs` for the bidirectional maps
  `bidimap::BiBTreeMap<u64, u64>` and `bidimap::BiHashMap<u64, u64>`, whose
  calls stand behind trusted wrappers; `src/index_map.rs` does the same for
  `indexmap::IndexMap<u64, u64>` and `indexmap::IndexSet<u64>`, and
  `src/vecdeque.rs` gives `VecDeque` the same treatment as `Vec`.
- `src/tiny_vec.rs` and `src/rtreed.rs`: `TinyVec8`, which holds a
  `tinyvec::TinyVec<[i32; 8]>`, and `RTreedPoints`, which holds an
  `rstared::RTreed<BTreeMap<i32, (i32, i32)>>`; Verus cannot be told of those
  two outside types themselves, so the library keeps each in a struct of its
  own behind trusted wrappers.
- `src/key.rs`: key types whose ordering or hashing the maps can rely on.
- `src/aliases.rs`: names for the half-delta and delta types.
- `app/lib.rs`: serialisable forms of the edit, recorder and bistack types,
  with the `serde` derives.
