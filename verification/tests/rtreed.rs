use std::collections::BTreeMap;

use undoredo::aliases::BTreeMapDelta;
use undoredo::rtreed::RTreedPoints;
use undoredo::{ApplyDelta, Delta, Get, Recorder, UndoRedo};

fn point(u: i32) -> (i32, i32) {
    (u, 0)
}

#[test]
fn rstared_test_recorder_apply_delta_on_set() {
    let mut recorder = Recorder::<RTreedPoints>::new(RTreedPoints::new());
    recorder.insert(1, point(10));
    recorder.insert(2, point(20));
    recorder.insert(3, point(30));
    recorder.insert(4, point(40));
    recorder.insert(5, point(50));

    let delta = Delta::with_removed_inserted(
        BTreeMap::from([(2, point(20))]),
        BTreeMap::from([(3, point(33)), (6, point(66))]),
    );
    recorder.apply_delta(delta);

    assert_eq!(recorder.get(&1), Some(&point(10)));
    assert_eq!(recorder.get(&2), None);
    assert_eq!(recorder.get(&3), Some(&point(33)));
    assert_eq!(recorder.get(&4), Some(&point(40)));
    assert_eq!(recorder.get(&5), Some(&point(50)));
    assert_eq!(recorder.get(&6), Some(&point(66)));
}

#[test]
fn rstared_test_delta_undo_redo() {
    let container = RTreedPoints::new();
    let mut undoredo: UndoRedo<BTreeMapDelta<i32, (i32, i32)>> = UndoRedo::new();

    let container = undoredo.edit(container, |recorder| {
        recorder.insert(1, point(10));
        recorder.insert(2, point(20));
    });
    let mut container = undoredo.edit(container, |recorder| {
        assert_eq!(recorder.remove(&1), Some(point(10)));
        assert_eq!(recorder.insert(2, point(22)), Some(point(20)));
    });
    assert_eq!(Get::get(&container, &1), None);
    assert_eq!(Get::get(&container, &2), Some(&point(22)));

    assert!(undoredo.undo(&mut container).is_some());
    assert_eq!(Get::get(&container, &1), Some(&point(10)));
    assert_eq!(Get::get(&container, &2), Some(&point(20)));

    assert!(undoredo.redo(&mut container).is_some());
    assert_eq!(Get::get(&container, &1), None);
    assert_eq!(Get::get(&container, &2), Some(&point(22)));

    assert!(undoredo.undo(&mut container).is_some());
    assert!(undoredo.undo(&mut container).is_some());
    assert_eq!(Get::get(&container, &1), None);
    assert_eq!(Get::get(&container, &2), None);
}
