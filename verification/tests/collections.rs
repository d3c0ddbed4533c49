use std::collections::{BTreeMap, BTreeSet, HashMap, HashSet, VecDeque};

use undoredo::aliases::{
    BTreeMapDelta, BTreeSetDelta, HashMapDelta, HashSetDelta, VecDelta, VecDequeDelta,
    VecDequeHalfDelta, VecHalfDelta,
};
use undoredo::{ApplyDelta, Delta, Get, Recorder, UndoRedo};


#[test]
fn btreemap_test_delta_undo_redo_at_specified_indices() {
    let mut container: BTreeMap<usize, i32> = BTreeMap::new();
    let mut undoredo: UndoRedo<BTreeMapDelta<usize, i32>> = UndoRedo::new();
    assert_eq!(undoredo.undo(&mut container), None);
    assert_eq!(undoredo.redo(&mut container), None);

    let mut container = undoredo.edit(container, |recorder| {
        recorder.insert(1, 10);
        recorder.insert(2, 20);
        recorder.insert(3, 30);
        recorder.insert(4, 40);
        recorder.insert(5, 50);
    });

    assert_eq!(undoredo.redo(&mut container), None);

    assert_eq!(container.get(&1), Some(&10));
    assert_eq!(container.get(&2), Some(&20));
    assert_eq!(container.get(&3), Some(&30));
    assert_eq!(container.get(&4), Some(&40));
    assert_eq!(container.get(&5), Some(&50));

    let mut container = undoredo.edit(container, |recorder| {
        recorder.remove(&2);
        recorder.insert(1, 11);
        recorder.insert(3, 33);
    });

    assert_eq!(container.get(&1), Some(&11));
    assert_eq!(Get::get(&container, &2), None);
    assert_eq!(container.get(&3), Some(&33));
    assert_eq!(container.get(&4), Some(&40));
    assert_eq!(container.get(&5), Some(&50));

    assert!(undoredo.undo(&mut container).is_some());

    assert_eq!(container.get(&1), Some(&10));
    assert_eq!(container.get(&2), Some(&20));
    assert_eq!(container.get(&3), Some(&30));
    assert_eq!(container.get(&4), Some(&40));
    assert_eq!(container.get(&5), Some(&50));

    assert!(undoredo.redo(&mut container).is_some());

    assert_eq!(container.get(&1), Some(&11));
    assert_eq!(Get::get(&container, &2), None);
    assert_eq!(container.get(&3), Some(&33));
    assert_eq!(container.get(&4), Some(&40));
    assert_eq!(container.get(&5), Some(&50));

    let mut container = undoredo.edit(container, |recorder| {
        recorder.remove(&3);
        recorder.insert(6, 60);
    });

    assert_eq!(container.get(&1), Some(&11));
    assert_eq!(Get::get(&container, &2), None);
    assert_eq!(Get::get(&container, &3), None);
    assert_eq!(container.get(&4), Some(&40));
    assert_eq!(container.get(&5), Some(&50));
    assert_eq!(container.get(&6), Some(&60));

    assert_eq!(undoredo.redo(&mut container), None);

    assert!(undoredo.undo(&mut container).is_some());
    assert!(undoredo.undo(&mut container).is_some());
    assert!(undoredo.undo(&mut container).is_some());
    assert_eq!(undoredo.undo(&mut container), None);

    assert!(undoredo.redo(&mut container).is_some());

    assert_eq!(container.get(&1), Some(&10));
    assert_eq!(container.get(&2), Some(&20));
    assert_eq!(container.get(&3), Some(&30));
    assert_eq!(container.get(&4), Some(&40));
    assert_eq!(container.get(&5), Some(&50));

    assert!(undoredo.redo(&mut container).is_some());

    assert_eq!(container.get(&1), Some(&11));
    assert_eq!(Get::get(&container, &2), None);
    assert_eq!(container.get(&3), Some(&33));
    assert_eq!(container.get(&4), Some(&40));
    assert_eq!(container.get(&5), Some(&50));
}

#[test]
fn hashmap_test_delta_undo_redo_at_specified_indices() {
    let mut container: HashMap<usize, i32> = HashMap::new();
    let mut undoredo: UndoRedo<HashMapDelta<usize, i32>> = UndoRedo::new();
    assert_eq!(undoredo.undo(&mut container), None);
    assert_eq!(undoredo.redo(&mut container), None);

    let mut container = undoredo.edit(container, |recorder| {
        recorder.insert(1, 10);
        recorder.insert(2, 20);
        recorder.insert(3, 30);
        recorder.insert(4, 40);
        recorder.insert(5, 50);
    });

    assert_eq!(undoredo.redo(&mut container), None);

    assert_eq!(container.get(&1), Some(&10));
    assert_eq!(container.get(&2), Some(&20));
    assert_eq!(container.get(&3), Some(&30));
    assert_eq!(container.get(&4), Some(&40));
    assert_eq!(container.get(&5), Some(&50));

    let mut container = undoredo.edit(container, |recorder| {
        recorder.remove(&2);
        recorder.insert(1, 11);
        recorder.insert(3, 33);
    });

    assert_eq!(container.get(&1), Some(&11));
    assert_eq!(Get::get(&container, &2), None);
    assert_eq!(container.get(&3), Some(&33));
    assert_eq!(container.get(&4), Some(&40));
    assert_eq!(container.get(&5), Some(&50));

    assert!(undoredo.undo(&mut container).is_some());

    assert_eq!(container.get(&1), Some(&10));
    assert_eq!(container.get(&2), Some(&20));
    assert_eq!(container.get(&3), Some(&30));
    assert_eq!(container.get(&4), Some(&40));
    assert_eq!(container.get(&5), Some(&50));

    assert!(undoredo.redo(&mut container).is_some());

    assert_eq!(container.get(&1), Some(&11));
    assert_eq!(Get::get(&container, &2), None);
    assert_eq!(container.get(&3), Some(&33));
    assert_eq!(container.get(&4), Some(&40));
    assert_eq!(container.get(&5), Some(&50));

    let mut container = undoredo.edit(container, |recorder| {
        recorder.remove(&3);
        recorder.insert(6, 60);
    });

    assert_eq!(container.get(&1), Some(&11));
    assert_eq!(Get::get(&container, &2), None);
    assert_eq!(Get::get(&container, &3), None);
    assert_eq!(container.get(&4), Some(&40));
    assert_eq!(container.get(&5), Some(&50));
    assert_eq!(container.get(&6), Some(&60));

    assert_eq!(undoredo.redo(&mut container), None);

    assert!(undoredo.undo(&mut container).is_some());
    assert!(undoredo.undo(&mut container).is_some());
    assert!(undoredo.undo(&mut container).is_some());
    assert_eq!(undoredo.undo(&mut container), None);

    assert!(undoredo.redo(&mut container).is_some());

    assert_eq!(container.get(&1), Some(&10));
    assert_eq!(container.get(&2), Some(&20));
    assert_eq!(container.get(&3), Some(&30));
    assert_eq!(container.get(&4), Some(&40));
    assert_eq!(container.get(&5), Some(&50));

    assert!(undoredo.redo(&mut container).is_some());

    assert_eq!(container.get(&1), Some(&11));
    assert_eq!(Get::get(&container, &2), None);
    assert_eq!(container.get(&3), Some(&33));
    assert_eq!(container.get(&4), Some(&40));
    assert_eq!(container.get(&5), Some(&50));
}

#[test]
fn btreeset_test_recorder_apply_delta_on_set() {
    let mut recorder = Recorder::<BTreeSet<i32>>::new(BTreeSet::new());
    recorder.insert(10, ());
    recorder.insert(20, ());
    recorder.insert(30, ());
    recorder.insert(40, ());
    recorder.insert(50, ());

    let delta = Delta::with_removed_inserted(
        BTreeMap::from([(20, ())]),
        BTreeMap::from([(30, ()), (60, ())]),
    );
    recorder.apply_delta(delta);

    assert_eq!(recorder.get(&10), Some(&()));
    assert_eq!(recorder.get(&20), None);
    assert_eq!(recorder.get(&30), Some(&()));
    assert_eq!(recorder.get(&40), Some(&()));
    assert_eq!(recorder.get(&50), Some(&()));
    assert_eq!(recorder.get(&60), Some(&()));
}

#[test]
fn hashset_test_recorder_apply_delta_on_set() {
    let mut recorder = Recorder::<HashSet<i32>>::new(HashSet::new());
    recorder.insert(10, ());
    recorder.insert(20, ());
    recorder.insert(30, ());
    recorder.insert(40, ());
    recorder.insert(50, ());

    let delta = Delta::with_removed_inserted(
        BTreeMap::from([(20, ())]),
        BTreeMap::from([(30, ()), (60, ())]),
    );
    recorder.apply_delta(delta);

    assert_eq!(recorder.get(&10), Some(&()));
    assert_eq!(recorder.get(&20), None);
    assert_eq!(recorder.get(&30), Some(&()));
    assert_eq!(recorder.get(&40), Some(&()));
    assert_eq!(recorder.get(&50), Some(&()));
    assert_eq!(recorder.get(&60), Some(&()));
}

#[test]
fn test_apply_edit_on_set() {
    let mut recorder = Recorder::<BTreeSet<i32>>::new(BTreeSet::new());
    recorder.insert(10, ());
    recorder.insert(20, ());
    recorder.insert(30, ());
    recorder.insert(40, ());
    recorder.insert(50, ());

    let delta = Delta::with_removed_inserted(
        BTreeMap::from([(20, ())]),
        BTreeMap::from([(30, ()), (60, ())]),
    );
    recorder.apply_delta(delta);

    assert_eq!(recorder.get(&10), Some(&()));
    assert_eq!(recorder.get(&20), None);
    assert_eq!(recorder.get(&30), Some(&()));
    assert_eq!(recorder.get(&40), Some(&()));
    assert_eq!(recorder.get(&50), Some(&()));
    assert_eq!(recorder.get(&60), Some(&()));
}

#[test]
fn btreeset_test_delta_undo_redo_on_set() {
    let mut container: BTreeSet<i32> = BTreeSet::new();
    let mut undoredo: UndoRedo<BTreeSetDelta<i32>> = UndoRedo::new();
    assert_eq!(undoredo.undo(&mut container), None);
    assert_eq!(undoredo.redo(&mut container), None);

    let mut container = undoredo.edit(container, |recorder| {
        recorder.insert(10, ());
        recorder.insert(20, ());
        recorder.insert(30, ());
        recorder.insert(40, ());
        recorder.insert(50, ());
    });

    assert_eq!(undoredo.redo(&mut container), None);

    assert_eq!(Get::get(&container, &10), Some(&()));
    assert_eq!(Get::get(&container, &20), Some(&()));
    assert_eq!(Get::get(&container, &30), Some(&()));
    assert_eq!(Get::get(&container, &40), Some(&()));
    assert_eq!(Get::get(&container, &50), Some(&()));

    let mut container = undoredo.edit(container, |recorder| {
        recorder.remove(&20);
    });

    assert_eq!(Get::get(&container, &10), Some(&()));
    assert_eq!(Get::get(&container, &20), None);
    assert_eq!(Get::get(&container, &30), Some(&()));
    assert_eq!(Get::get(&container, &40), Some(&()));
    assert_eq!(Get::get(&container, &50), Some(&()));

    assert!(undoredo.undo(&mut container).is_some());

    assert_eq!(Get::get(&container, &10), Some(&()));
    assert_eq!(Get::get(&container, &20), Some(&()));
    assert_eq!(Get::get(&container, &30), Some(&()));
    assert_eq!(Get::get(&container, &40), Some(&()));
    assert_eq!(Get::get(&container, &50), Some(&()));

    assert!(undoredo.redo(&mut container).is_some());

    assert_eq!(Get::get(&container, &10), Some(&()));
    assert_eq!(Get::get(&container, &20), None);
    assert_eq!(Get::get(&container, &30), Some(&()));
    assert_eq!(Get::get(&container, &40), Some(&()));
    assert_eq!(Get::get(&container, &50), Some(&()));

    let mut container = undoredo.edit(container, |recorder| {
        recorder.remove(&30);
        recorder.insert(60, ());
    });

    assert_eq!(Get::get(&container, &10), Some(&()));
    assert_eq!(Get::get(&container, &20), None);
    assert_eq!(Get::get(&container, &30), None);
    assert_eq!(Get::get(&container, &40), Some(&()));
    assert_eq!(Get::get(&container, &50), Some(&()));
    assert_eq!(Get::get(&container, &60), Some(&()));

    assert_eq!(undoredo.redo(&mut container), None);

    assert!(undoredo.undo(&mut container).is_some());
    assert!(undoredo.undo(&mut container).is_some());
    assert!(undoredo.undo(&mut container).is_some());
    assert_eq!(undoredo.undo(&mut container), None);

    assert!(undoredo.redo(&mut container).is_some());

    assert_eq!(Get::get(&container, &10), Some(&()));
    assert_eq!(Get::get(&container, &20), Some(&()));
    assert_eq!(Get::get(&container, &30), Some(&()));
    assert_eq!(Get::get(&container, &40), Some(&()));
    assert_eq!(Get::get(&container, &50), Some(&()));

    assert!(undoredo.redo(&mut container).is_some());

    assert_eq!(Get::get(&container, &10), Some(&()));
    assert_eq!(Get::get(&container, &20), None);
    assert_eq!(Get::get(&container, &30), Some(&()));
    assert_eq!(Get::get(&container, &40), Some(&()));
    assert_eq!(Get::get(&container, &50), Some(&()));
}

#[test]
fn hashset_test_delta_undo_redo_on_set() {
    let mut container: HashSet<i32> = HashSet::new();
    let mut undoredo: UndoRedo<HashSetDelta<i32>> = UndoRedo::new();
    assert_eq!(undoredo.undo(&mut container), None);
    assert_eq!(undoredo.redo(&mut container), None);

    let mut container = undoredo.edit(container, |recorder| {
        recorder.insert(10, ());
        recorder.insert(20, ());
        recorder.insert(30, ());
        recorder.insert(40, ());
        recorder.insert(50, ());
    });

    assert_eq!(undoredo.redo(&mut container), None);

    assert_eq!(Get::get(&container, &10), Some(&()));
    assert_eq!(Get::get(&container, &20), Some(&()));
    assert_eq!(Get::get(&container, &30), Some(&()));
    assert_eq!(Get::get(&container, &40), Some(&()));
    assert_eq!(Get::get(&container, &50), Some(&()));

    let mut container = undoredo.edit(container, |recorder| {
        recorder.remove(&20);
    });

    assert_eq!(Get::get(&container, &10), Some(&()));
    assert_eq!(Get::get(&container, &20), None);
    assert_eq!(Get::get(&container, &30), Some(&()));
    assert_eq!(Get::get(&container, &40), Some(&()));
    assert_eq!(Get::get(&container, &50), Some(&()));

    assert!(undoredo.undo(&mut container).is_some());

    assert_eq!(Get::get(&container, &10), Some(&()));
    assert_eq!(Get::get(&container, &20), Some(&()));
    assert_eq!(Get::get(&container, &30), Some(&()));
    assert_eq!(Get::get(&container, &40), Some(&()));
    assert_eq!(Get::get(&container, &50), Some(&()));

    assert!(undoredo.redo(&mut container).is_some());

    assert_eq!(Get::get(&container, &10), Some(&()));
    assert_eq!(Get::get(&container, &20), None);
    assert_eq!(Get::get(&container, &30), Some(&()));
    assert_eq!(Get::get(&container, &40), Some(&()));
    assert_eq!(Get::get(&container, &50), Some(&()));

    let mut container = undoredo.edit(container, |recorder| {
        recorder.remove(&30);
        recorder.insert(60, ());
    });

    assert_eq!(Get::get(&container, &10), Some(&()));
    assert_eq!(Get::get(&container, &20), None);
    assert_eq!(Get::get(&container, &30), None);
    assert_eq!(Get::get(&container, &40), Some(&()));
    assert_eq!(Get::get(&container, &50), Some(&()));
    assert_eq!(Get::get(&container, &60), Some(&()));

    assert_eq!(undoredo.redo(&mut container), None);

    assert!(undoredo.undo(&mut container).is_some());
    assert!(undoredo.undo(&mut container).is_some());
    assert!(undoredo.undo(&mut container).is_some());
    assert_eq!(undoredo.undo(&mut container), None);

    assert!(undoredo.redo(&mut container).is_some());

    assert_eq!(Get::get(&container, &10), Some(&()));
    assert_eq!(Get::get(&container, &20), Some(&()));
    assert_eq!(Get::get(&container, &30), Some(&()));
    assert_eq!(Get::get(&container, &40), Some(&()));
    assert_eq!(Get::get(&container, &50), Some(&()));

    assert!(undoredo.redo(&mut container).is_some());

    assert_eq!(Get::get(&container, &10), Some(&()));
    assert_eq!(Get::get(&container, &20), None);
    assert_eq!(Get::get(&container, &30), Some(&()));
    assert_eq!(Get::get(&container, &40), Some(&()));
    assert_eq!(Get::get(&container, &50), Some(&()));
}

#[test]
fn btreeset_test_delta_undo_redo_clear() {
    let container: BTreeSet<i32> = BTreeSet::new();
    let mut undoredo: UndoRedo<BTreeSetDelta<i32>> = UndoRedo::new();

    let container = undoredo.edit(container, |recorder| {
        recorder.insert(10, ());
        recorder.insert(20, ());
        recorder.insert(30, ());
    });

    let mut container = undoredo.edit(container, |recorder| {
        recorder.clear();
    });

    assert_eq!(Get::get(&container, &10), None);
    assert_eq!(Get::get(&container, &20), None);
    assert_eq!(Get::get(&container, &30), None);
    assert!(container.is_empty());

    assert!(undoredo.undo(&mut container).is_some());

    assert_eq!(Get::get(&container, &10), Some(&()));
    assert_eq!(Get::get(&container, &20), Some(&()));
    assert_eq!(Get::get(&container, &30), Some(&()));

    assert!(undoredo.redo(&mut container).is_some());
    assert!(container.is_empty());

    assert!(undoredo.undo(&mut container).is_some());
    assert!(undoredo.undo(&mut container).is_some());
    assert!(container.is_empty());
    assert_eq!(undoredo.undo(&mut container), None);
}

#[test]
fn hashset_test_delta_undo_redo_clear() {
    let container: HashSet<i32> = HashSet::new();
    let mut undoredo: UndoRedo<HashSetDelta<i32>> = UndoRedo::new();

    let container = undoredo.edit(container, |recorder| {
        recorder.insert(10, ());
        recorder.insert(20, ());
        recorder.insert(30, ());
    });

    let mut container = undoredo.edit(container, |recorder| {
        recorder.clear();
    });

    assert_eq!(Get::get(&container, &10), None);
    assert_eq!(Get::get(&container, &20), None);
    assert_eq!(Get::get(&container, &30), None);
    assert!(container.is_empty());

    assert!(undoredo.undo(&mut container).is_some());

    assert_eq!(Get::get(&container, &10), Some(&()));
    assert_eq!(Get::get(&container, &20), Some(&()));
    assert_eq!(Get::get(&container, &30), Some(&()));

    assert!(undoredo.redo(&mut container).is_some());
    assert!(container.is_empty());

    assert!(undoredo.undo(&mut container).is_some());
    assert!(undoredo.undo(&mut container).is_some());
    assert!(container.is_empty());
    assert_eq!(undoredo.undo(&mut container), None);
}

#[test]
fn vec_test_recorder_apply_delta_and_reverse() {
    let mut recorder = Recorder::<Vec<i32>, VecHalfDelta<i32>>::new(Vec::new());
    recorder.push(0);
    recorder.push(10);
    recorder.push(20);
    recorder.push(30);
    recorder.push(40);
    recorder.push(50);
    recorder.push(60);

    assert_eq!(recorder.get(&0), Some(&0));
    assert_eq!(recorder.get(&1), Some(&10));
    assert_eq!(recorder.get(&2), Some(&20));
    assert_eq!(recorder.get(&3), Some(&30));
    assert_eq!(recorder.get(&4), Some(&40));
    assert_eq!(recorder.get(&5), Some(&50));
    assert_eq!(recorder.get(&6), Some(&60));

    let delta = Delta::<BTreeMap<usize, i32>>::with_removed_inserted(
        BTreeMap::from([(2, 20), (6, 60), (5, 50), (4, 40)]),
        BTreeMap::from([(2, 22), (5, 55), (4, 44)]),
    );
    recorder.apply_delta(delta.clone());

    assert_eq!(recorder.get(&0), Some(&0));
    assert_eq!(recorder.get(&1), Some(&10));
    assert_eq!(recorder.get(&2), Some(&22));
    assert_eq!(recorder.get(&3), Some(&30));
    assert_eq!(recorder.get(&4), Some(&44));
    assert_eq!(recorder.get(&5), Some(&55));
    assert_eq!(recorder.get(&6), None);

    recorder.apply_delta(delta.reverse());

    assert_eq!(recorder.get(&0), Some(&0));
    assert_eq!(recorder.get(&1), Some(&10));
    assert_eq!(recorder.get(&2), Some(&20));
    assert_eq!(recorder.get(&3), Some(&30));
    assert_eq!(recorder.get(&4), Some(&40));
    assert_eq!(recorder.get(&5), Some(&50));
    assert_eq!(recorder.get(&6), Some(&60));
}

#[test]
fn vec_test_delta_undo_redo() {
    let container: Vec<i32> = Vec::new();
    let mut undoredo: UndoRedo<VecDelta<i32>> = UndoRedo::new();

    let mut container = undoredo.edit(container, |recorder| {
        recorder.push(0);
        recorder.push(10);
        recorder.push(20);
        recorder.push(30);
        recorder.push(40);
        recorder.push(50);
        recorder.push(60);
        recorder.pop();
    });

    assert_eq!(undoredo.redo(&mut container), None);

    assert_eq!(container.get(&0), Some(&0));
    assert_eq!(container.get(&1), Some(&10));
    assert_eq!(container.get(&2), Some(&20));
    assert_eq!(container.get(&3), Some(&30));
    assert_eq!(container.get(&4), Some(&40));
    assert_eq!(container.get(&5), Some(&50));
    assert_eq!(Get::get(&container, &6), None);

    let mut container = undoredo.edit(container, |recorder| {
        recorder.set(1, 11);
        recorder.set(3, 33);
        recorder.pop();
    });

    assert_eq!(container.get(&0), Some(&0));
    assert_eq!(container.get(&1), Some(&11));
    assert_eq!(container.get(&2), Some(&20));
    assert_eq!(container.get(&3), Some(&33));
    assert_eq!(container.get(&4), Some(&40));
    assert_eq!(Get::get(&container, &5), None);
    assert_eq!(Get::get(&container, &6), None);

    assert!(undoredo.undo(&mut container).is_some());

    assert_eq!(container.get(&0), Some(&0));
    assert_eq!(container.get(&1), Some(&10));
    assert_eq!(container.get(&2), Some(&20));
    assert_eq!(container.get(&3), Some(&30));
    assert_eq!(container.get(&4), Some(&40));
    assert_eq!(container.get(&5), Some(&50));
    assert_eq!(Get::get(&container, &6), None);

    assert!(undoredo.redo(&mut container).is_some());

    assert_eq!(container.get(&0), Some(&0));
    assert_eq!(container.get(&1), Some(&11));
    assert_eq!(container.get(&2), Some(&20));
    assert_eq!(container.get(&3), Some(&33));
    assert_eq!(container.get(&4), Some(&40));
    assert_eq!(Get::get(&container, &5), None);
    assert_eq!(Get::get(&container, &6), None);

    let mut container = undoredo.edit(container, |recorder| {
        recorder.push(50);
        recorder.push(60);
    });

    assert_eq!(container.get(&0), Some(&0));
    assert_eq!(container.get(&1), Some(&11));
    assert_eq!(container.get(&2), Some(&20));
    assert_eq!(container.get(&3), Some(&33));
    assert_eq!(container.get(&4), Some(&40));
    assert_eq!(container.get(&5), Some(&50));
    assert_eq!(container.get(&6), Some(&60));

    assert_eq!(undoredo.redo(&mut container), None);

    assert!(undoredo.undo(&mut container).is_some());
    assert!(undoredo.undo(&mut container).is_some());
    assert!(undoredo.undo(&mut container).is_some());
    assert_eq!(undoredo.undo(&mut container), None);

    assert!(undoredo.redo(&mut container).is_some());

    assert_eq!(container.get(&0), Some(&0));
    assert_eq!(container.get(&1), Some(&10));
    assert_eq!(container.get(&2), Some(&20));
    assert_eq!(container.get(&3), Some(&30));
    assert_eq!(container.get(&4), Some(&40));
    assert_eq!(container.get(&5), Some(&50));
    assert_eq!(Get::get(&container, &6), None);

    assert!(undoredo.redo(&mut container).is_some());

    assert_eq!(container.get(&0), Some(&0));
    assert_eq!(container.get(&1), Some(&11));
    assert_eq!(container.get(&2), Some(&20));
    assert_eq!(container.get(&3), Some(&33));
    assert_eq!(container.get(&4), Some(&40));
    assert_eq!(Get::get(&container, &5), None);
    assert_eq!(Get::get(&container, &6), None);
}

#[test]
fn test_delta_undo_redo_swap_remove() {
    let container: Vec<i32> = Vec::new();
    let mut undoredo: UndoRedo<VecDelta<i32>> = UndoRedo::new();

    let container = undoredo.edit(container, |recorder| {
        recorder.push(10);
        recorder.push(20);
        recorder.push(30);
        recorder.push(40);
        recorder.push(50);
    });

    let mut container = undoredo.edit(container, |recorder| {
        recorder.swap_remove(&1);
    });

    assert_eq!(container.get(&0), Some(&10));
    assert_eq!(container.get(&1), Some(&50));
    assert_eq!(container.get(&2), Some(&30));
    assert_eq!(container.get(&3), Some(&40));
    assert_eq!(Get::get(&container, &4), None);

    assert!(undoredo.undo(&mut container).is_some());

    assert_eq!(container.get(&0), Some(&10));
    assert_eq!(container.get(&1), Some(&20));
    assert_eq!(container.get(&2), Some(&30));
    assert_eq!(container.get(&3), Some(&40));
    assert_eq!(container.get(&4), Some(&50));

    assert!(undoredo.redo(&mut container).is_some());

    assert_eq!(container.get(&0), Some(&10));
    assert_eq!(container.get(&1), Some(&50));
    assert_eq!(container.get(&2), Some(&30));
    assert_eq!(container.get(&3), Some(&40));
    assert_eq!(Get::get(&container, &4), None);

    let mut container = undoredo.edit(container, |recorder| {
        recorder.swap_remove(&3);
    });

    assert_eq!(container.get(&0), Some(&10));
    assert_eq!(container.get(&1), Some(&50));
    assert_eq!(container.get(&2), Some(&30));
    assert_eq!(Get::get(&container, &3), None);

    assert!(undoredo.undo(&mut container).is_some());

    assert_eq!(container.get(&0), Some(&10));
    assert_eq!(container.get(&1), Some(&50));
    assert_eq!(container.get(&2), Some(&30));
    assert_eq!(container.get(&3), Some(&40));

    assert!(undoredo.redo(&mut container).is_some());

    assert_eq!(container.get(&0), Some(&10));
    assert_eq!(container.get(&1), Some(&50));
    assert_eq!(container.get(&2), Some(&30));
    assert_eq!(Get::get(&container, &3), None);
}

#[test]
fn btreemap_test_apply_edit_at_specified_indexes() {
    let mut recorder = Recorder::<BTreeMap<usize, i32>>::new(BTreeMap::new());
    recorder.insert(1, 10);
    recorder.insert(2, 20);
    recorder.insert(3, 30);
    recorder.insert(4, 40);
    recorder.insert(5, 50);

    recorder.apply_delta(Delta::with_removed_inserted(
        BTreeMap::from([(2, 20)]),
        BTreeMap::from([(3, 33), (6, 66)]),
    ));

    assert_eq!(recorder.get(&1), Some(&10));
    assert_eq!(recorder.get(&2), None);
    assert_eq!(recorder.get(&3), Some(&33));
    assert_eq!(recorder.get(&4), Some(&40));
    assert_eq!(recorder.get(&5), Some(&50));
    assert_eq!(recorder.get(&6), Some(&66));
}

#[test]
fn btreemap_test_insert_and_remove_at_specified_indexes() {
    let mut recorder = Recorder::<BTreeMap<usize, i32>>::new(BTreeMap::new());
    recorder.insert(1, 10);
    recorder.insert(2, 20);
    recorder.insert(3, 30);
    recorder.insert(4, 40);
    recorder.insert(5, 50);
    recorder.remove(&2);
    recorder.insert(1, 11);
    recorder.remove(&4);
    recorder.insert(6, 60);

    assert_eq!(recorder.get(&1), Some(&11));
    assert_eq!(recorder.get(&2), None);
    assert_eq!(recorder.get(&3), Some(&30));
    assert_eq!(recorder.get(&4), None);
    assert_eq!(recorder.get(&5), Some(&50));
    assert_eq!(recorder.get(&6), Some(&60));
}

#[test]
fn test_apply_edit() {
    let mut recorder = Recorder::<BTreeMap<usize, i32>>::new(BTreeMap::new());
    recorder.insert(1, 10);
    recorder.insert(2, 20);
    recorder.insert(3, 30);
    recorder.insert(4, 40);
    recorder.insert(5, 50);
    assert_eq!(recorder.container().len(), 5);
}

#[test]
fn test_recorder_insert_and_remove() {
    let mut recorder = Recorder::<BTreeMap<usize, i32>>::new(BTreeMap::new());

    recorder.insert(1, 10);
    recorder.insert(2, 20);
    recorder.insert(3, 30);
    recorder.insert(4, 40);
    recorder.insert(5, 50);
    recorder.remove(&2);

    assert_eq!(recorder.get(&1), Some(&10));
    assert_eq!(recorder.get(&2), None);
    assert_eq!(recorder.get(&3), Some(&30));
    assert_eq!(recorder.get(&4), Some(&40));
    assert_eq!(recorder.get(&5), Some(&50));
}

#[test]
fn test_clear() {
    let mut recorder = Recorder::<BTreeMap<usize, i32>>::new(BTreeMap::new());

    recorder.insert(1, 10);
    recorder.insert(2, 20);
    recorder.insert(3, 30);
    recorder.insert(4, 40);
    recorder.insert(5, 50);

    recorder.clear();

    assert!(recorder.container().is_empty());
}

#[test]
fn vecdeque_test_recorder_apply_delta_and_reverse() {
    let mut recorder = Recorder::<VecDeque<i32>, VecDequeHalfDelta<i32>>::new(VecDeque::new());
    recorder.push(0);
    recorder.push(10);
    recorder.push(20);
    recorder.push(30);
    recorder.push(40);
    recorder.push(50);
    recorder.push(60);

    assert_eq!(Get::get(&recorder, &0), Some(&0));
    assert_eq!(Get::get(&recorder, &1), Some(&10));
    assert_eq!(Get::get(&recorder, &2), Some(&20));
    assert_eq!(Get::get(&recorder, &3), Some(&30));
    assert_eq!(Get::get(&recorder, &4), Some(&40));
    assert_eq!(Get::get(&recorder, &5), Some(&50));
    assert_eq!(Get::get(&recorder, &6), Some(&60));

    let delta = Delta::<BTreeMap<usize, i32>>::with_removed_inserted(
        BTreeMap::from([(2, 20), (6, 60), (5, 50), (4, 40)]),
        BTreeMap::from([(2, 22), (5, 55), (4, 44)]),
    );
    recorder.apply_delta(delta.clone());

    assert_eq!(Get::get(&recorder, &0), Some(&0));
    assert_eq!(Get::get(&recorder, &1), Some(&10));
    assert_eq!(Get::get(&recorder, &2), Some(&22));
    assert_eq!(Get::get(&recorder, &3), Some(&30));
    assert_eq!(Get::get(&recorder, &4), Some(&44));
    assert_eq!(Get::get(&recorder, &5), Some(&55));
    assert_eq!(Get::get(&recorder, &6), None);

    recorder.apply_delta(delta.reverse());

    assert_eq!(Get::get(&recorder, &0), Some(&0));
    assert_eq!(Get::get(&recorder, &1), Some(&10));
    assert_eq!(Get::get(&recorder, &2), Some(&20));
    assert_eq!(Get::get(&recorder, &3), Some(&30));
    assert_eq!(Get::get(&recorder, &4), Some(&40));
    assert_eq!(Get::get(&recorder, &5), Some(&50));
    assert_eq!(Get::get(&recorder, &6), Some(&60));
}

#[test]
fn vecdeque_test_delta_undo_redo() {
    let container: VecDeque<i32> = VecDeque::new();
    let mut undoredo: UndoRedo<VecDequeDelta<i32>> = UndoRedo::new();

    let mut container = undoredo.edit(container, |recorder| {
        recorder.push(0);
        recorder.push(10);
        recorder.push(20);
        recorder.push(30);
        recorder.push(40);
        recorder.push(50);
        recorder.push(60);
        recorder.pop();
    });

    assert_eq!(undoredo.redo(&mut container), None);

    assert_eq!(Get::get(&container, &0), Some(&0));
    assert_eq!(Get::get(&container, &1), Some(&10));
    assert_eq!(Get::get(&container, &2), Some(&20));
    assert_eq!(Get::get(&container, &3), Some(&30));
    assert_eq!(Get::get(&container, &4), Some(&40));
    assert_eq!(Get::get(&container, &5), Some(&50));
    assert_eq!(Get::get(&container, &6), None);

    let mut container = undoredo.edit(container, |recorder| {
        recorder.set(1, 11);
        recorder.set(3, 33);
        recorder.pop();
    });

    assert_eq!(Get::get(&container, &0), Some(&0));
    assert_eq!(Get::get(&container, &1), Some(&11));
    assert_eq!(Get::get(&container, &2), Some(&20));
    assert_eq!(Get::get(&container, &3), Some(&33));
    assert_eq!(Get::get(&container, &4), Some(&40));
    assert_eq!(Get::get(&container, &5), None);
    assert_eq!(Get::get(&container, &6), None);

    assert!(undoredo.undo(&mut container).is_some());

    assert_eq!(Get::get(&container, &0), Some(&0));
    assert_eq!(Get::get(&container, &1), Some(&10));
    assert_eq!(Get::get(&container, &2), Some(&20));
    assert_eq!(Get::get(&container, &3), Some(&30));
    assert_eq!(Get::get(&container, &4), Some(&40));
    assert_eq!(Get::get(&container, &5), Some(&50));
    assert_eq!(Get::get(&container, &6), None);

    assert!(undoredo.redo(&mut container).is_some());

    assert_eq!(Get::get(&container, &0), Some(&0));
    assert_eq!(Get::get(&container, &1), Some(&11));
    assert_eq!(Get::get(&container, &2), Some(&20));
    assert_eq!(Get::get(&container, &3), Some(&33));
    assert_eq!(Get::get(&container, &4), Some(&40));
    assert_eq!(Get::get(&container, &5), None);
    assert_eq!(Get::get(&container, &6), None);

    let mut container = undoredo.edit(container, |recorder| {
        recorder.push(50);
        recorder.push(60);
    });

    assert_eq!(Get::get(&container, &0), Some(&0));
    assert_eq!(Get::get(&container, &1), Some(&11));
    assert_eq!(Get::get(&container, &2), Some(&20));
    assert_eq!(Get::get(&container, &3), Some(&33));
    assert_eq!(Get::get(&container, &4), Some(&40));
    assert_eq!(Get::get(&container, &5), Some(&50));
    assert_eq!(Get::get(&container, &6), Some(&60));

    assert_eq!(undoredo.redo(&mut container), None);

    assert!(undoredo.undo(&mut container).is_some());
    assert!(undoredo.undo(&mut container).is_some());
    assert!(undoredo.undo(&mut container).is_some());
    assert_eq!(undoredo.undo(&mut container), None);

    assert!(undoredo.redo(&mut container).is_some());

    assert_eq!(Get::get(&container, &0), Some(&0));
    assert_eq!(Get::get(&container, &1), Some(&10));
    assert_eq!(Get::get(&container, &2), Some(&20));
    assert_eq!(Get::get(&container, &3), Some(&30));
    assert_eq!(Get::get(&container, &4), Some(&40));
    assert_eq!(Get::get(&container, &5), Some(&50));
    assert_eq!(Get::get(&container, &6), None);

    assert!(undoredo.redo(&mut container).is_some());

    assert_eq!(Get::get(&container, &0), Some(&0));
    assert_eq!(Get::get(&container, &1), Some(&11));
    assert_eq!(Get::get(&container, &2), Some(&20));
    assert_eq!(Get::get(&container, &3), Some(&33));
    assert_eq!(Get::get(&container, &4), Some(&40));
    assert_eq!(Get::get(&container, &5), None);
    assert_eq!(Get::get(&container, &6), None);
}

#[test]
fn vecdeque_test_delta_undo_redo_clear() {
    let container: VecDeque<i32> = VecDeque::new();
    let mut undoredo: UndoRedo<VecDequeDelta<i32>> = UndoRedo::new();

    let container = undoredo.edit(container, |recorder| {
        recorder.push(10);
        recorder.push(20);
        recorder.push(30);
    });

    let mut container = undoredo.edit(container, |recorder| {
        recorder.clear();
    });
    assert!(container.is_empty());

    assert!(undoredo.undo(&mut container).is_some());
    assert_eq!(container, VecDeque::from(vec![10, 20, 30]));

    assert!(undoredo.redo(&mut container).is_some());
    assert!(container.is_empty());

    assert!(undoredo.undo(&mut container).is_some());
    assert!(undoredo.undo(&mut container).is_some());
    assert!(container.is_empty());
    assert_eq!(undoredo.undo(&mut container), None);
}
