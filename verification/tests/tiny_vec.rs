use std::collections::BTreeMap;

use undoredo::aliases::{TinyVecDelta, TinyVecHalfDelta};
use undoredo::tiny_vec::TinyVec8;
use undoredo::{ApplyDelta, Delta, Get, Recorder, UndoRedo};


#[test]
fn tinyvec_test_recorder_apply_delta_and_reverse() {
    let mut recorder = Recorder::<TinyVec8, TinyVecHalfDelta<i32>>::new(TinyVec8::new());
    recorder.push(0);
    recorder.push(10);
    recorder.push(20);
    recorder.push(30);
    recorder.push(40);
    recorder.push(50);
    recorder.push(60);

    assert_eq!(Get::get(&recorder, &0), Some(&0));
    assert_eq!(Get::get(&recorder, &1), Some(&10));
    assert_eq!(Get::get(&recorder, &2), Some(&20));
    assert_eq!(Get::get(&recorder, &3), Some(&30));
    assert_eq!(Get::get(&recorder, &4), Some(&40));
    assert_eq!(Get::get(&recorder, &5), Some(&50));
    assert_eq!(Get::get(&recorder, &6), Some(&60));

    let delta = Delta::<BTreeMap<usize, i32>>::with_removed_inserted(
        BTreeMap::from([(2, 20), (6, 60), (5, 50), (4, 40)]),
        BTreeMap::from([(2, 22), (5, 55), (4, 44)]),
    );
    recorder.apply_delta(delta.clone());

    assert_eq!(Get::get(&recorder, &0), Some(&0));
    assert_eq!(Get::get(&recorder, &1), Some(&10));
    assert_eq!(Get::get(&recorder, &2), Some(&22));
    assert_eq!(Get::get(&recorder, &3), Some(&30));
    assert_eq!(Get::get(&recorder, &4), Some(&44));
    assert_eq!(Get::get(&recorder, &5), Some(&55));
    assert_eq!(Get::get(&recorder, &6), None);

    recorder.apply_delta(delta.reverse());

    assert_eq!(Get::get(&recorder, &0), Some(&0));
    assert_eq!(Get::get(&recorder, &1), Some(&10));
    assert_eq!(Get::get(&recorder, &2), Some(&20));
    assert_eq!(Get::get(&recorder, &3), Some(&30));
    assert_eq!(Get::get(&recorder, &4), Some(&40));
    assert_eq!(Get::get(&recorder, &5), Some(&50));
    assert_eq!(Get::get(&recorder, &6), Some(&60));
}

#[test]
fn tinyvec_test_recorder_push_and_pop() {
    let mut recorder = Recorder::<TinyVec8, TinyVecHalfDelta<i32>>::new(TinyVec8::new());
    recorder.push(0);
    recorder.push(10);
    recorder.push(20);
    recorder.push(30);
    recorder.push(40);
    recorder.push(50);
    recorder.push(60);

    recorder.pop();
    recorder.pop();

    assert_eq!(Get::get(&recorder, &0), Some(&0));
    assert_eq!(Get::get(&recorder, &1), Some(&10));
    assert_eq!(Get::get(&recorder, &2), Some(&20));
    assert_eq!(Get::get(&recorder, &3), Some(&30));
    assert_eq!(Get::get(&recorder, &4), Some(&40));
    assert_eq!(Get::get(&recorder, &5), None);
    assert_eq!(Get::get(&recorder, &6), None);
    assert_eq!(recorder.len(), 5);
}

#[test]
fn tinyvec_test_delta_undo_redo() {
    let container = TinyVec8::new();
    let mut undoredo: UndoRedo<TinyVecDelta<i32>> = UndoRedo::new();

    let mut container = undoredo.edit(container, |recorder| {
        recorder.push(0);
        recorder.push(10);
        recorder.push(20);
        recorder.push(30);
        recorder.push(40);
        recorder.push(50);
        recorder.push(60);
        recorder.pop();
    });

    assert_eq!(undoredo.redo(&mut container), None);

    assert_eq!(Get::get(&container, &0), Some(&0));
    assert_eq!(Get::get(&container, &1), Some(&10));
    assert_eq!(Get::get(&container, &2), Some(&20));
    assert_eq!(Get::get(&container, &3), Some(&30));
    assert_eq!(Get::get(&container, &4), Some(&40));
    assert_eq!(Get::get(&container, &5), Some(&50));
    assert_eq!(Get::get(&container, &6), None);

    let mut container = undoredo.edit(container, |recorder| {
        recorder.set(1, 11);
        recorder.set(3, 33);
        recorder.pop();
    });

    assert_eq!(Get::get(&container, &0), Some(&0));
    assert_eq!(Get::get(&container, &1), Some(&11));
    assert_eq!(Get::get(&container, &2), Some(&20));
    assert_eq!(Get::get(&container, &3), Some(&33));
    assert_eq!(Get::get(&container, &4), Some(&40));
    assert_eq!(Get::get(&container, &5), None);
    assert_eq!(Get::get(&container, &6), None);

    assert!(undoredo.undo(&mut container).is_some());

    assert_eq!(Get::get(&container, &0), Some(&0));
    assert_eq!(Get::get(&container, &1), Some(&10));
    assert_eq!(Get::get(&container, &2), Some(&20));
    assert_eq!(Get::get(&container, &3), Some(&30));
    assert_eq!(Get::get(&container, &4), Some(&40));
    assert_eq!(Get::get(&container, &5), Some(&50));
    assert_eq!(Get::get(&container, &6), None);

    assert!(undoredo.redo(&mut container).is_some());

    assert_eq!(Get::get(&container, &0), Some(&0));
    assert_eq!(Get::get(&container, &1), Some(&11));
    assert_eq!(Get::get(&container, &2), Some(&20));
    assert_eq!(Get::get(&container, &3), Some(&33));
    assert_eq!(Get::get(&container, &4), Some(&40));
    assert_eq!(Get::get(&container, &5), None);
    assert_eq!(Get::get(&container, &6), None);

    let mut container = undoredo.edit(container, |recorder| {
        recorder.push(50);
        recorder.push(60);
    });

    assert_eq!(Get::get(&container, &0), Some(&0));
    assert_eq!(Get::get(&container, &1), Some(&11));
    assert_eq!(Get::get(&container, &2), Some(&20));
    assert_eq!(Get::get(&container, &3), Some(&33));
    assert_eq!(Get::get(&container, &4), Some(&40));
    assert_eq!(Get::get(&container, &5), Some(&50));
    assert_eq!(Get::get(&container, &6), Some(&60));

    assert_eq!(undoredo.redo(&mut container), None);

    assert!(undoredo.undo(&mut container).is_some());
    assert!(undoredo.undo(&mut container).is_some());
    assert!(undoredo.undo(&mut container).is_some());
    assert_eq!(undoredo.undo(&mut container), None);

    assert!(undoredo.redo(&mut container).is_some());

    assert_eq!(Get::get(&container, &0), Some(&0));
    assert_eq!(Get::get(&container, &1), Some(&10));
    assert_eq!(Get::get(&container, &2), Some(&20));
    assert_eq!(Get::get(&container, &3), Some(&30));
    assert_eq!(Get::get(&container, &4), Some(&40));
    assert_eq!(Get::get(&container, &5), Some(&50));
    assert_eq!(Get::get(&container, &6), None);

    assert!(undoredo.redo(&mut container).is_some());

    assert_eq!(Get::get(&container, &0), Some(&0));
    assert_eq!(Get::get(&container, &1), Some(&11));
    assert_eq!(Get::get(&container, &2), Some(&20));
    assert_eq!(Get::get(&container, &3), Some(&33));
    assert_eq!(Get::get(&container, &4), Some(&40));
    assert_eq!(Get::get(&container, &5), None);
    assert_eq!(Get::get(&container, &6), None);
}

#[test]
fn tinyvec_test_delta_undo_redo_clear() {
    let container = TinyVec8::new();
    let mut undoredo: UndoRedo<TinyVecDelta<i32>> = UndoRedo::new();

    let container = undoredo.edit(container, |recorder| {
        for value in 0..10 {
            recorder.push(value * 10);
        }
    });
    assert_eq!(container.len(), 10);

    let mut container = undoredo.edit(container, |recorder| {
        recorder.clear();
    });
    assert_eq!(container.len(), 0);

    assert!(undoredo.undo(&mut container).is_some());
    assert_eq!(container.to_vec(), vec![0, 10, 20, 30, 40, 50, 60, 70, 80, 90]);

    assert!(undoredo.redo(&mut container).is_some());
    assert_eq!(container.len(), 0);

    assert!(undoredo.undo(&mut container).is_some());
    assert!(undoredo.undo(&mut container).is_some());
    assert_eq!(container.to_vec(), Vec::<i32>::new());
    assert_eq!(undoredo.undo(&mut container), None);
}
