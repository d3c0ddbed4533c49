use std::collections::{BTreeMap, BTreeSet};

use undoredo::aliases::{BTreeMapDelta, BTreeSetDelta, OptionHalfDelta, VecDelta};
use undoredo::{Delta, Recorder, Snapshot, UndoRedo};

fn edit_undo_redo_at_specified_indexes(container: BTreeMap<usize, i32>) {
    let mut container = container;
    let mut undoredo: UndoRedo<BTreeMapDelta<usize, i32>> = UndoRedo::new();
    assert_eq!(undoredo.undo(&mut container), None);
    assert_eq!(undoredo.redo(&mut container), None);

    let mut container = undoredo.edit(container, |recorder| {
        recorder.insert(1, 10);
        recorder.insert(2, 20);
        recorder.insert(3, 30);
        recorder.insert(4, 40);
        recorder.insert(5, 50);
    });

    assert_eq!(undoredo.redo(&mut container), None);

    assert_eq!(container.get(&1), Some(&10));
    assert_eq!(container.get(&2), Some(&20));
    assert_eq!(container.get(&3), Some(&30));
    assert_eq!(container.get(&4), Some(&40));
    assert_eq!(container.get(&5), Some(&50));

    let mut container = undoredo.edit(container, |recorder| {
        recorder.remove(&2);
        recorder.insert(1, 11);
        recorder.insert(3, 33);
    });

    assert_eq!(container.get(&1), Some(&11));
    assert_eq!(container.get(&2), None);
    assert_eq!(container.get(&3), Some(&33));
    assert_eq!(container.get(&4), Some(&40));
    assert_eq!(container.get(&5), Some(&50));

    assert!(undoredo.undo(&mut container).is_some());

    assert_eq!(container.get(&1), Some(&10));
    assert_eq!(container.get(&2), Some(&20));
    assert_eq!(container.get(&3), Some(&30));
    assert_eq!(container.get(&4), Some(&40));
    assert_eq!(container.get(&5), Some(&50));

    assert!(undoredo.redo(&mut container).is_some());

    assert_eq!(container.get(&1), Some(&11));
    assert_eq!(container.get(&2), None);
    assert_eq!(container.get(&3), Some(&33));
    assert_eq!(container.get(&4), Some(&40));
    assert_eq!(container.get(&5), Some(&50));

    let mut container = undoredo.edit(container, |recorder| {
        recorder.remove(&3);
        recorder.insert(6, 60);
    });

    assert_eq!(container.get(&1), Some(&11));
    assert_eq!(container.get(&2), None);
    assert_eq!(container.get(&3), None);
    assert_eq!(container.get(&4), Some(&40));
    assert_eq!(container.get(&5), Some(&50));
    assert_eq!(container.get(&6), Some(&60));

    assert_eq!(undoredo.redo(&mut container), None);

    assert!(undoredo.undo(&mut container).is_some());
    assert!(undoredo.undo(&mut container).is_some());
    assert!(undoredo.undo(&mut container).is_some());
    assert_eq!(undoredo.undo(&mut container), None);

    assert!(undoredo.redo(&mut container).is_some());

    assert_eq!(container.get(&1), Some(&10));
    assert_eq!(container.get(&2), Some(&20));
    assert_eq!(container.get(&3), Some(&30));
    assert_eq!(container.get(&4), Some(&40));
    assert_eq!(container.get(&5), Some(&50));

    assert!(undoredo.redo(&mut container).is_some());

    assert_eq!(container.get(&1), Some(&11));
    assert_eq!(container.get(&2), None);
    assert_eq!(container.get(&3), Some(&33));
    assert_eq!(container.get(&4), Some(&40));
    assert_eq!(container.get(&5), Some(&50));
}

#[test]
fn btreemap_test_edit_undo_redo_at_specified_indexes() {
    edit_undo_redo_at_specified_indexes(BTreeMap::new());
}

// A sparse vector with stable indices behaves as a map from index to item.
#[test]
fn stable_vec_test_edit_undo_redo_at_specified_indexes() {
    edit_undo_redo_at_specified_indexes(BTreeMap::new());
}

#[test]
fn test_edit_undo_redo_at_generated_indexes() {
    let mut container: Vec<i32> = Vec::new();
    let mut undoredo: UndoRedo<VecDelta<i32>> = UndoRedo::new();
    assert_eq!(undoredo.undo(&mut container), None);
    assert_eq!(undoredo.redo(&mut container), None);

    let mut indices = Vec::new();

    let mut container = undoredo.edit(container, |recorder| {
        indices.push(recorder.push(10));
        indices.push(recorder.push(20));
        indices.push(recorder.push(30));
        indices.push(recorder.push(40));
        indices.push(recorder.push(50));
        indices.push(recorder.push(60));
        recorder.pop();
    });

    assert_eq!(undoredo.redo(&mut container), None);
    assert_eq!(container, vec![10, 20, 30, 40, 50]);

    let mut container = undoredo.edit(container, |recorder| {
        recorder.swap_remove(&indices[1]);
        recorder.set(indices[0], 11);
        recorder.set(indices[2], 33);
    });

    assert_eq!(container, vec![11, 50, 33, 40]);

    assert!(undoredo.undo(&mut container).is_some());
    assert_eq!(container, vec![10, 20, 30, 40, 50]);

    assert!(undoredo.redo(&mut container).is_some());
    assert_eq!(container, vec![11, 50, 33, 40]);

    let mut container = undoredo.edit(container, |recorder| {
        recorder.pop();
        recorder.push(60);
    });
    assert_eq!(container, vec![11, 50, 33, 60]);

    assert_eq!(undoredo.redo(&mut container), None);

    assert!(undoredo.undo(&mut container).is_some());
    assert!(undoredo.undo(&mut container).is_some());
    assert!(undoredo.undo(&mut container).is_some());
    assert_eq!(undoredo.undo(&mut container), None);
    assert!(container.is_empty());

    assert!(undoredo.redo(&mut container).is_some());
    assert_eq!(container, vec![10, 20, 30, 40, 50]);

    assert!(undoredo.redo(&mut container).is_some());
    assert_eq!(container, vec![11, 50, 33, 40]);
}

#[test]
fn test_edit_undo_redo_on_set() {
    let mut container: BTreeSet<i32> = BTreeSet::new();
    let mut undoredo: UndoRedo<BTreeSetDelta<i32>> = UndoRedo::new();
    assert_eq!(undoredo.undo(&mut container), None);
    assert_eq!(undoredo.redo(&mut container), None);

    let mut container = undoredo.edit(container, |recorder| {
        recorder.insert(10, ());
        recorder.insert(20, ());
        recorder.insert(30, ());
        recorder.insert(40, ());
        recorder.insert(50, ());
    });

    assert_eq!(undoredo.redo(&mut container), None);
    assert_eq!(container, BTreeSet::from([10, 20, 30, 40, 50]));

    let mut container = undoredo.edit(container, |recorder| {
        recorder.remove(&20);
    });
    assert_eq!(container, BTreeSet::from([10, 30, 40, 50]));

    assert!(undoredo.undo(&mut container).is_some());
    assert_eq!(container, BTreeSet::from([10, 20, 30, 40, 50]));

    assert!(undoredo.redo(&mut container).is_some());
    assert_eq!(container, BTreeSet::from([10, 30, 40, 50]));

    let mut container = undoredo.edit(container, |recorder| {
        recorder.remove(&30);
        recorder.insert(60, ());
    });
    assert_eq!(container, BTreeSet::from([10, 40, 50, 60]));

    assert_eq!(undoredo.redo(&mut container), None);

    assert!(undoredo.undo(&mut container).is_some());
    assert!(undoredo.undo(&mut container).is_some());
    assert!(undoredo.undo(&mut container).is_some());
    assert_eq!(undoredo.undo(&mut container), None);
    assert!(container.is_empty());

    assert!(undoredo.redo(&mut container).is_some());
    assert_eq!(container, BTreeSet::from([10, 20, 30, 40, 50]));

    assert!(undoredo.redo(&mut container).is_some());
    assert_eq!(container, BTreeSet::from([10, 30, 40, 50]));
}

#[test]
fn test_readme_btreemap_commit_undo_redo() {
    let mut recorder: Recorder<BTreeMap<usize, char>> = Recorder::new(BTreeMap::new());
    let mut undoredo: UndoRedo<BTreeMapDelta<usize, char>> = UndoRedo::new();

    recorder.insert(1, 'A');
    recorder.insert(2, 'B');
    recorder.insert(3, 'C');
    assert!(*recorder.container() == BTreeMap::from([(1, 'A'), (2, 'B'), (3, 'C')]));

    undoredo.commit(&mut recorder);
    undoredo.undo(&mut recorder);
    assert!(*recorder.container() == BTreeMap::from([]));

    undoredo.redo(&mut recorder);
    assert!(*recorder.container() == BTreeMap::from([(1, 'A'), (2, 'B'), (3, 'C')]));

    let (btreemap, ..) = recorder.dissolve();
    assert!(btreemap == BTreeMap::from([(1, 'A'), (2, 'B'), (3, 'C')]));
}

#[test]
fn test_vec_swap_remove_undo_redo() {
    let mut recorder: Recorder<Vec<char>> = Recorder::new(Vec::new());
    let mut undoredo: UndoRedo<VecDelta<char>> = UndoRedo::new();

    recorder.push('A');
    recorder.push('B');
    recorder.push('C');
    recorder.push('D');
    undoredo.commit(&mut recorder);
    assert_eq!(*recorder.container(), vec!['A', 'B', 'C', 'D']);

    recorder.swap_remove(&1);
    undoredo.commit(&mut recorder);
    assert_eq!(*recorder.container(), vec!['A', 'D', 'C']);

    undoredo.undo(&mut recorder);
    assert_eq!(*recorder.container(), vec!['A', 'B', 'C', 'D']);

    undoredo.redo(&mut recorder);
    assert_eq!(*recorder.container(), vec!['A', 'D', 'C']);

    recorder.swap_remove(&2);
    undoredo.commit(&mut recorder);
    assert_eq!(*recorder.container(), vec!['A', 'D']);

    undoredo.undo(&mut recorder);
    assert_eq!(*recorder.container(), vec!['A', 'D', 'C']);

    undoredo.redo(&mut recorder);
    assert_eq!(*recorder.container(), vec!['A', 'D']);
}

#[test]
fn test_option_delta_undo_redo_clear() {
    let mut undoredo: UndoRedo<Delta<OptionHalfDelta<i32>>> = UndoRedo::new();
    let mut recorder = Recorder::<Option<i32>>::new(None);

    recorder.set(0, 10);
    undoredo.commit(&mut recorder);
    assert_eq!(*recorder.container(), Some(10));

    recorder.set(0, 20);
    recorder.clear();
    undoredo.commit(&mut recorder);
    assert_eq!(*recorder.container(), None);

    assert!(undoredo.undo(&mut recorder).is_some());
    assert_eq!(*recorder.container(), Some(10));

    assert!(undoredo.redo(&mut recorder).is_some());
    assert_eq!(*recorder.container(), None);
}

#[test]
fn test_commit_clears_undone() {
    let mut recorder: Recorder<BTreeMap<usize, char>> = Recorder::new(BTreeMap::new());
    let mut undoredo: UndoRedo<BTreeMapDelta<usize, char>, u8> = UndoRedo::new();

    recorder.insert(1, 'A');
    undoredo.cmd_commit(7, &mut recorder);
    assert_eq!(undoredo.done().len(), 1);
    assert_eq!(undoredo.done()[0].cmd, 7);

    assert_eq!(undoredo.undo(&mut recorder), Some(7));
    assert_eq!(undoredo.done().len(), 0);
    assert_eq!(undoredo.undone().len(), 1);

    recorder.insert(2, 'B');
    undoredo.cmd_commit(8, &mut recorder);
    assert_eq!(undoredo.undone().len(), 0);
    assert_eq!(undoredo.redo(&mut recorder), None);
    assert_eq!(*recorder.container(), BTreeMap::from([(2, 'B')]));
}

#[test]
fn test_command_undo_redo() {
    let mut undoredo: UndoRedo<(), &str> = UndoRedo::new();
    assert_eq!(undoredo.undo_command(), None);
    assert_eq!(undoredo.redo_command(), None);

    undoredo.command("first");
    undoredo.command("second");
    assert_eq!(undoredo.undo_command(), Some("second"));
    assert_eq!(undoredo.undo_command(), Some("first"));
    assert_eq!(undoredo.undo_command(), None);
    assert_eq!(undoredo.redo_command(), Some("first"));
    assert_eq!(undoredo.done().len(), 1);
    assert_eq!(undoredo.undone().len(), 1);

    undoredo.command("third");
    assert_eq!(undoredo.redo_command(), None);
    assert_eq!(undoredo.undo_command(), Some("third"));
}

#[test]
fn test_snapshot_undo_redo() {
    let mut container: BTreeMap<usize, i32> = BTreeMap::new();
    let mut undoredo: UndoRedo<Snapshot<BTreeMap<usize, i32>>> = UndoRedo::new();
    assert_eq!(undoredo.undo(&mut container), None);
    assert_eq!(undoredo.redo(&mut container), None);

    container.insert(1, 10);
    container.insert(2, 20);
    container.insert(3, 30);
    container.insert(4, 40);
    container.insert(5, 50);

    undoredo.commit(&mut container);

    container.remove(&2);
    container.insert(1, 11);
    container.insert(3, 33);

    assert!(undoredo.undo(&mut container).is_some());
    assert_eq!(container.get(&1), Some(&10));
    assert_eq!(container.get(&2), Some(&20));
    assert_eq!(container.get(&3), Some(&30));
    assert_eq!(container.get(&4), Some(&40));
    assert_eq!(container.get(&5), Some(&50));

    assert_eq!(undoredo.undo(&mut container), None);

    assert!(undoredo.redo(&mut container).is_some());
    assert_eq!(container.get(&1), Some(&11));
    assert_eq!(container.get(&2), None);
    assert_eq!(container.get(&3), Some(&33));
    assert_eq!(container.get(&4), Some(&40));
    assert_eq!(container.get(&5), Some(&50));

    assert_eq!(undoredo.redo(&mut container), None);
}

#[test]
fn test_snapshot_new_and_dissolve() {
    let snapshot = Snapshot::new(vec![1, 2, 3]);
    assert_eq!(snapshot.dissolve(), vec![1, 2, 3]);
}

#[test]
fn test_defaults_are_empty() {
    let undoredo: UndoRedo<(), u8> = UndoRedo::default();
    assert!(undoredo.done().is_empty());
    assert!(undoredo.undone().is_empty());

    let recorder: Recorder<BTreeMap<u8, u8>> = Recorder::default();
    assert!(recorder.container().is_empty());
    let (_, delta) = recorder.clone().dissolve();
    let (removed, inserted) = delta.dissolve();
    assert!(removed.is_empty() && inserted.is_empty());
}

#[test]
fn test_undoredo_from_stacks_keeps_stacks() {
    let mut recorder: Recorder<BTreeMap<usize, char>> = Recorder::new(BTreeMap::new());
    let mut undoredo: UndoRedo<BTreeMapDelta<usize, char>> = UndoRedo::new();
    recorder.insert(1, 'A');
    undoredo.commit(&mut recorder);
    recorder.insert(2, 'B');
    undoredo.commit(&mut recorder);
    undoredo.undo(&mut recorder);

    let rebuilt: UndoRedo<BTreeMapDelta<usize, char>> =
        UndoRedo::from_stacks(undoredo.done().to_vec(), undoredo.undone().to_vec());
    assert_eq!(rebuilt, undoredo);
    assert_eq!(rebuilt.done().len(), 1);
    assert_eq!(rebuilt.undone().len(), 1);
}

#[test]
fn test_undo_redo_restores_stacks_exactly() {
    let mut recorder: Recorder<BTreeMap<usize, i32>> = Recorder::new(BTreeMap::new());
    let mut undoredo: UndoRedo<BTreeMapDelta<usize, i32>, u64> = UndoRedo::new();
    recorder.insert(1, 10);
    undoredo.cmd_commit(7, &mut recorder);
    recorder.insert(2, 20);
    undoredo.cmd_commit(8, &mut recorder);
    let before = undoredo.clone();
    let container_before = recorder.container().clone();

    assert_eq!(undoredo.undo(&mut recorder), Some(8));
    assert_eq!(undoredo.redo(&mut recorder), Some(8));
    assert_eq!(undoredo, before);
    assert_eq!(*recorder.container(), container_before);
}

#[test]
fn test_snapshot_default_and_round_trip() {
    let snapshot: Snapshot<Vec<i32>> = Snapshot::default();
    assert!(snapshot.dissolve().is_empty());

    let mut state = vec![1];
    let mut undoredo: UndoRedo<Snapshot<Vec<i32>>> = UndoRedo::new();
    undoredo.commit(&mut state);
    state.push(2);
    undoredo.commit(&mut state);
    let before = undoredo.clone();
    assert!(undoredo.undo(&mut state).is_some());
    assert!(undoredo.redo(&mut state).is_some());
    assert_eq!(state, vec![1, 2]);
    assert_eq!(undoredo, before);
}
