use std::collections::{BTreeMap, HashMap, HashSet};

use undoredo::aliases::{
    BTreeMapDelta, BTreeSetDelta, HashMapDelta, HashMapHalfDelta, HashSetHalfDelta,
};
use undoredo::{ApplyDelta, Delta, Recorder, UndoRedo};

#[test]
fn test_hashmap_recorder_apply_delta_at_specified_indices() {
    let mut recorder = Recorder::<HashMap<usize, i32>>::new(HashMap::new());
    recorder.insert(1, 10);
    recorder.insert(2, 20);
    recorder.insert(3, 30);
    recorder.insert(4, 40);
    recorder.insert(5, 50);

    recorder.apply_delta(Delta::with_removed_inserted(
        BTreeMap::from([(2, 20)]),
        BTreeMap::from([(3, 33), (6, 66)]),
    ));

    assert_eq!(recorder.get(&1), Some(&10));
    assert_eq!(recorder.get(&2), None);
    assert_eq!(recorder.get(&3), Some(&33));
    assert_eq!(recorder.get(&4), Some(&40));
    assert_eq!(recorder.get(&5), Some(&50));
    assert_eq!(recorder.get(&6), Some(&66));
}

#[test]
fn test_hashmap_apply_hash_half_delta() {
    let mut map = HashMap::from([(1, 10), (2, 20)]);
    map.apply_delta(Delta::with_removed_inserted(
        HashMapHalfDelta::from([(1, 10)]),
        HashMapHalfDelta::from([(3, 30)]),
    ));
    assert_eq!(map, HashMap::from([(2, 20), (3, 30)]));
}

#[test]
fn test_hash_half_delta_merge() {
    let first: Delta<HashMap<i32, i32>> =
        Delta::with_removed_inserted(HashMap::from([(1, 10)]), HashMap::from([(1, 11)]));
    let second = Delta::with_removed_inserted(HashMap::from([(1, 11)]), HashMap::from([(2, 20)]));
    let (removed, inserted) = first.merge_delta(second).dissolve();
    assert_eq!(removed, HashMap::from([(1, 10)]));
    assert_eq!(inserted, HashMap::from([(2, 20)]));
}

#[test]
fn test_hashmap_delta_undo_redo() {
    let container: HashMap<usize, i32> = HashMap::new();
    let mut undoredo: UndoRedo<BTreeMapDelta<usize, i32>> = UndoRedo::new();

    let mut container = undoredo.edit(container, |recorder| {
        recorder.insert(1, 10);
        recorder.insert(2, 20);
    });
    let mut container = undoredo.edit(container, |recorder| {
        recorder.remove(&2);
        recorder.insert(1, 11);
    });
    assert_eq!(container, HashMap::from([(1, 11)]));

    assert!(undoredo.undo(&mut container).is_some());
    assert_eq!(container, HashMap::from([(1, 10), (2, 20)]));
    assert!(undoredo.undo(&mut container).is_some());
    assert!(container.is_empty());
    assert!(undoredo.redo(&mut container).is_some());
    assert!(undoredo.redo(&mut container).is_some());
    assert_eq!(container, HashMap::from([(1, 11)]));
}

#[test]
fn test_hashset_recorder_and_undo() {
    let mut recorder = Recorder::<HashSet<i32>>::new(HashSet::new());
    let mut undoredo: UndoRedo<BTreeSetDelta<i32>> = UndoRedo::new();
    recorder.insert(10, ());
    recorder.insert(20, ());
    undoredo.commit(&mut recorder);
    recorder.remove(&10);
    recorder.clear();
    undoredo.commit(&mut recorder);
    assert!(recorder.container().is_empty());

    assert!(undoredo.undo(&mut recorder).is_some());
    assert_eq!(*recorder.container(), HashSet::from([10, 20]));
    assert!(undoredo.undo(&mut recorder).is_some());
    assert!(recorder.container().is_empty());
}

#[test]
fn test_hashset_apply_hash_half_delta() {
    let mut set = HashSet::from([1, 2, 3]);
    set.apply_delta(Delta::with_removed_inserted(
        HashSetHalfDelta::from([(2, ())]),
        HashSetHalfDelta::from([(4, ())]),
    ));
    assert_eq!(set, HashSet::from([1, 3, 4]));
}

#[test]
fn test_basic_usage_with_hash_half_deltas() {
    let mut recorder: Recorder<HashMap<usize, char>, HashMapHalfDelta<usize, char>> =
        Recorder::new(HashMap::new());
    let mut undoredo: UndoRedo<HashMapDelta<usize, char>> = UndoRedo::new();

    recorder.insert(1, 'A');
    recorder.insert(2, 'B');
    recorder.insert(3, 'C');
    assert!(*recorder.container() == HashMap::from([(1, 'A'), (2, 'B'), (3, 'C')]));

    undoredo.commit(&mut recorder);
    undoredo.undo(&mut recorder);
    assert!(*recorder.container() == HashMap::from([]));

    undoredo.redo(&mut recorder);
    assert!(*recorder.container() == HashMap::from([(1, 'A'), (2, 'B'), (3, 'C')]));
}

#[derive(Debug, Clone, PartialEq)]
enum Command {
    PushChar,
}

#[test]
fn test_cmd_commit_with_hash_half_deltas() {
    let mut recorder: Recorder<HashMap<usize, char>, HashMapHalfDelta<usize, char>> =
        Recorder::new(HashMap::new());
    let mut undoredo: UndoRedo<HashMapDelta<usize, char>, Command> = UndoRedo::new();

    recorder.insert(1, 'A');
    undoredo.cmd_commit(Command::PushChar, &mut recorder);
    assert_eq!(undoredo.done().last().unwrap().cmd, Command::PushChar);

    undoredo.undo(&mut recorder);
    assert_eq!(undoredo.undone().last().unwrap().cmd, Command::PushChar);
    assert!(recorder.container().is_empty());
}

#[test]
fn test_hash_half_delta_edit_and_reset() {
    let mut undoredo: UndoRedo<Delta<HashMapHalfDelta<u32, u32>>> = UndoRedo::new();
    let mut container = undoredo.edit(HashMap::from([(1, 1)]), |recorder| {
        recorder.insert(2, 2);
        recorder.remove(&1);
    });
    assert_eq!(container, HashMap::from([(2, 2)]));
    assert!(undoredo.undo(&mut container).is_some());
    assert_eq!(container, HashMap::from([(1, 1)]));

    let mut recorder: Recorder<HashMap<u32, u32>, HashMapHalfDelta<u32, u32>> =
        Recorder::new(container);
    recorder.insert(5, 5);
    recorder.reset_delta();
    assert_eq!(*recorder.container(), HashMap::from([(1, 1)]));
}
