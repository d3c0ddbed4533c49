use std::collections::BTreeMap;

use bidimap::{BiBTreeMap, BiHashMap};
use undoredo::aliases::{BTreeMapDelta, BiHashMapDelta, BiHashMapHalfDelta};
use undoredo::{ApplyDelta, Delta, Overwritten, Recorder, UndoRedo};

fn bimap(pairs: &[(u64, u64)]) -> BiBTreeMap<u64, u64> {
    let mut m = BiBTreeMap::new();
    for (left, right) in pairs {
        m.insert(*left, *right);
    }
    m
}

#[test]
fn test_bimap_apply_delta() {
    let mut m = bimap(&[(1, 10), (2, 20), (3, 30)]);
    m.apply_delta(Delta::with_removed_inserted(
        BTreeMap::from([(2, 20)]),
        BTreeMap::from([(3, 33), (4, 40)]),
    ));
    assert_eq!(m.get_by_left(&1), Some(&10));
    assert_eq!(m.get_by_left(&2), None);
    assert_eq!(m.get_by_left(&3), Some(&33));
    assert_eq!(m.get_by_right(&40), Some(&4));
    assert_eq!(m.get_by_right(&30), None);
    assert_eq!(m.len(), 3);
}

#[test]
fn test_bimap_recorder_by_left_and_right() {
    let mut recorder = Recorder::<BiBTreeMap<u64, u64>>::new(bimap(&[(1, 10), (2, 20)]));
    assert_eq!(recorder.get_by_left(&1), Some(&10));
    assert_eq!(recorder.get_by_right(&20), Some(&2));
    assert_eq!(recorder.get_by_right(&30), None);

    recorder.insert(3, 30);
    assert_eq!(recorder.remove_by_right(&20), Some(2));
    assert_eq!(recorder.remove_by_right(&20), None);
    assert_eq!(recorder.remove_by_left(&1), Some(10));
    assert_eq!(recorder.remove_by_left(&1), None);

    let (removed, inserted) = recorder.flush_delta().dissolve();
    assert_eq!(removed, BTreeMap::from([(1, 10), (2, 20)]));
    assert_eq!(inserted, BTreeMap::from([(3, 30)]));
}

#[test]
fn test_bimap_recorder_reset() {
    let mut recorder = Recorder::<BiBTreeMap<u64, u64>>::new(bimap(&[(1, 10), (2, 20)]));
    recorder.insert(1, 11);
    recorder.remove_by_right(&20);
    recorder.insert(5, 50);
    assert_eq!(recorder.container().len(), 2);

    recorder.reset_delta();
    assert_eq!(recorder.get_by_left(&1), Some(&10));
    assert_eq!(recorder.get_by_left(&2), Some(&20));
    assert_eq!(recorder.get_by_left(&5), None);
}

#[test]
fn test_bimap_undo_redo() {
    let mut recorder = Recorder::<BiBTreeMap<u64, u64>>::new(BiBTreeMap::new());
    let mut undoredo: UndoRedo<BTreeMapDelta<u64, u64>> = UndoRedo::new();

    recorder.insert(1, 10);
    recorder.insert(2, 20);
    undoredo.commit(&mut recorder);

    recorder.remove_by_left(&1);
    recorder.insert(3, 30);
    undoredo.commit(&mut recorder);
    assert_eq!(recorder.get_by_right(&30), Some(&3));

    assert!(undoredo.undo(&mut recorder).is_some());
    assert_eq!(recorder.get_by_left(&1), Some(&10));
    assert_eq!(recorder.get_by_left(&3), None);

    assert!(undoredo.undo(&mut recorder).is_some());
    assert!(recorder.container().is_empty());

    assert!(undoredo.redo(&mut recorder).is_some());
    assert!(undoredo.redo(&mut recorder).is_some());
    assert_eq!(recorder.get_by_left(&1), None);
    assert_eq!(recorder.get_by_left(&2), Some(&20));
    assert_eq!(recorder.get_by_left(&3), Some(&30));
}

#[test]
fn test_bimap_clear_records_pairs() {
    let mut recorder = Recorder::<BiBTreeMap<u64, u64>>::new(bimap(&[(1, 10), (2, 20)]));
    recorder.clear();
    assert!(recorder.container().is_empty());
    let (removed, inserted) = recorder.flush_delta().dissolve();
    assert_eq!(removed, BTreeMap::from([(1, 10), (2, 20)]));
    assert!(inserted.is_empty());
}

fn hash_bimap(pairs: &[(u64, u64)]) -> BiHashMap<u64, u64> {
    let mut m = BiHashMap::new();
    for (left, right) in pairs {
        m.insert(*left, *right);
    }
    m
}

#[test]
fn test_hash_bimap_apply_delta() {
    let mut m = hash_bimap(&[(1, 10), (2, 20), (3, 30)]);
    m.apply_delta(Delta::with_removed_inserted(
        BiHashMapHalfDelta::from([(2, 20)]),
        BiHashMapHalfDelta::from([(3, 33), (4, 40)]),
    ));
    assert_eq!(m.get_by_left(&1), Some(&10));
    assert_eq!(m.get_by_left(&2), None);
    assert_eq!(m.get_by_left(&3), Some(&33));
    assert_eq!(m.get_by_right(&40), Some(&4));
    assert_eq!(m.get_by_right(&30), None);
}

#[test]
fn test_hash_bimap_recorder_undo_redo() {
    let mut recorder: Recorder<BiHashMap<u64, u64>, BiHashMapHalfDelta<u64, u64>> =
        Recorder::new(hash_bimap(&[(1, 10)]));
    let mut undoredo: UndoRedo<BiHashMapDelta<u64, u64>> = UndoRedo::new();

    recorder.insert(2, 20);
    assert_eq!(recorder.remove_by_right(&10), Some(1));
    assert_eq!(recorder.get_by_right(&20), Some(&2));
    assert_eq!(recorder.get_by_left(&1), None);
    undoredo.commit(&mut recorder);

    assert!(undoredo.undo(&mut recorder).is_some());
    assert_eq!(recorder.get_by_left(&1), Some(&10));
    assert_eq!(recorder.get_by_left(&2), None);

    assert!(undoredo.redo(&mut recorder).is_some());
    assert_eq!(recorder.get_by_left(&1), None);
    assert_eq!(recorder.get_by_right(&20), Some(&2));
    assert_eq!(recorder.remove_by_left(&2), Some(20));
    recorder.clear();
    assert!(recorder.container().is_empty());
}

#[test]
fn test_bimap_recorder_insert_reports_overwritten_pairs() {
    let mut recorder = Recorder::<BiBTreeMap<u64, u64>>::new(BiBTreeMap::new());
    assert_eq!(recorder.insert(1, 10), Overwritten::Neither);
    assert_eq!(recorder.insert(1, 11), Overwritten::Left(1, 10));
    assert_eq!(recorder.insert(2, 11), Overwritten::Right(1, 11));
    assert_eq!(recorder.insert(2, 11), Overwritten::Pair(2, 11));
    assert_eq!(recorder.insert(3, 30), Overwritten::Neither);
    assert_eq!(recorder.insert(2, 30), Overwritten::Both((2, 11), (3, 30)));
    assert_eq!(recorder.get_by_left(&2), Some(&30));
    assert_eq!(recorder.get_by_right(&11), None);
}

#[test]
fn test_hash_bimap_recorder_insert_reports_overwritten_pairs() {
    let mut recorder = Recorder::<BiHashMap<u64, u64>>::new(BiHashMap::new());
    assert_eq!(recorder.insert(1, 10), Overwritten::Neither);
    assert_eq!(recorder.insert(1, 11), Overwritten::Left(1, 10));
    assert_eq!(recorder.insert(2, 11), Overwritten::Right(1, 11));
    assert_eq!(recorder.insert(2, 11), Overwritten::Pair(2, 11));
}
