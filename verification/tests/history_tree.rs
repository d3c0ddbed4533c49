use std::collections::BTreeMap;

use undoredo::aliases::{BTreeMapDelta, VecDelta};
use undoredo::{HistoryTree, HistoryTreeNodeId, Recorder, Snapshot};

#[test]
fn test_history_tree_command_checkout() {
    let mut history_tree = HistoryTree::<(), u8>::new();
    let mut state = ();

    history_tree.cmd_commit(1, &mut state);
    history_tree.cmd_commit(3, &mut state);
    let left_leaf = history_tree.curr_node();

    assert_eq!(history_tree.undo(&mut state), Some(3));
    assert_eq!(history_tree.undo(&mut state), Some(1));

    history_tree.cmd_commit(2, &mut state);
    history_tree.cmd_commit(4, &mut state);
    let right_leaf = history_tree.curr_node();

    assert_eq!(history_tree.checkout(&mut state, left_leaf), vec![1, 3]);
    assert_eq!(history_tree.curr_node(), left_leaf);

    assert_eq!(history_tree.checkout(&mut state, right_leaf), vec![2, 4]);
    assert_eq!(history_tree.curr_node(), right_leaf);

    // Checking out the same node again emits no commands.
    assert_eq!(history_tree.checkout(&mut state, right_leaf), vec![]);
    assert_eq!(history_tree.curr_node(), right_leaf);
}

#[test]
fn test_history_tree_branches() {
    let mut history_tree: HistoryTree<VecDelta<&str>> = HistoryTree::new();
    let mut state = Recorder::new(vec!["root"]);

    state.push("fork");
    history_tree.commit(&mut state);
    let fork = history_tree.curr_node();
    assert_eq!(*state.as_ref(), vec!["root", "fork"]);

    state.push("left_branch_1");
    history_tree.commit(&mut state);
    let left_branch_1 = history_tree.curr_node();

    state.push("left_branch_2");
    history_tree.commit(&mut state);
    let left_branch_2 = history_tree.curr_node();

    assert_eq!(
        *state.as_ref(),
        vec!["root", "fork", "left_branch_1", "left_branch_2"]
    );

    history_tree.undo(&mut state);
    history_tree.undo(&mut state);

    assert_eq!(*state.as_ref(), vec!["root", "fork"]);
    assert_eq!(history_tree.curr_node(), fork);

    state.push("right_branch_1");
    history_tree.commit(&mut state);
    let right_branch_1 = history_tree.curr_node();

    state.push("right_branch_2");
    history_tree.commit(&mut state);
    let right_branch_2 = history_tree.curr_node();

    assert_eq!(
        *state.as_ref(),
        vec!["root", "fork", "right_branch_1", "right_branch_2"]
    );

    let root_children = history_tree
        .node(history_tree.node(fork).parent().unwrap())
        .children();
    assert_eq!(root_children, &[fork]);

    assert_eq!(
        history_tree.node(fork).children(),
        &[left_branch_1, right_branch_1]
    );
    assert_eq!(history_tree.node(left_branch_1).children(), &[left_branch_2]);
    assert_eq!(history_tree.node(right_branch_1).children(), &[right_branch_2]);

    history_tree.checkout(&mut state, left_branch_2);
    assert_eq!(history_tree.curr_node(), left_branch_2);
    assert_eq!(
        *state.as_ref(),
        vec!["root", "fork", "left_branch_1", "left_branch_2"]
    );

    history_tree.checkout(&mut state, right_branch_2);
    assert_eq!(history_tree.curr_node(), right_branch_2);
    assert_eq!(
        *state.as_ref(),
        vec!["root", "fork", "right_branch_1", "right_branch_2"]
    );

    history_tree.undo(&mut state);
    history_tree.undo(&mut state);

    assert_eq!(*state.as_ref(), vec!["root", "fork"]);
    assert_eq!(history_tree.curr_node(), fork);
}

#[test]
fn test_history_tree_root_and_depths() {
    let mut history_tree = HistoryTree::<(), u8>::new();
    let mut state = ();
    let root = history_tree.curr_node();
    assert_eq!(root, HistoryTreeNodeId::new(0));
    assert_eq!(root.index(), 0);
    assert_eq!(history_tree.parent(root), None);
    assert_eq!(history_tree.node(root).depth(), 0);
    assert_eq!(history_tree.undo(&mut state), None);

    history_tree.cmd_commit(5, &mut state);
    let child = history_tree.curr_node();
    assert_eq!(history_tree.parent(child), Some(root));
    assert_eq!(history_tree.node(child).depth(), 1);
    assert_eq!(*history_tree.cmd(child), 5);
    assert_eq!(history_tree.node(child).cmd_edit().cmd, 5);

    *history_tree.cmd_mut(child) = 6;
    assert_eq!(*history_tree.cmd(child), 6);

    assert_eq!(history_tree.undo(&mut state), Some(6));
    assert_eq!(history_tree.curr_node(), root);
    assert_eq!(history_tree.redo(&mut state, child), 6);
    assert_eq!(history_tree.curr_node(), child);
}

#[test]
fn test_history_tree_undo_then_redo_restores() {
    let mut history_tree: HistoryTree<BTreeMapDelta<u32, u32>> = HistoryTree::new();
    let mut state = Recorder::new(BTreeMap::from([(1, 10)]));

    state.insert(2, 20);
    state.remove(&1);
    history_tree.commit(&mut state);
    let node = history_tree.curr_node();
    assert_eq!(*state.container(), BTreeMap::from([(2, 20)]));

    history_tree.undo(&mut state);
    assert_eq!(*state.container(), BTreeMap::from([(1, 10)]));

    history_tree.redo(&mut state, node);
    assert_eq!(*state.container(), BTreeMap::from([(2, 20)]));
    assert_eq!(history_tree.curr_node(), node);
}

#[test]
fn test_history_tree_children_in_commit_order() {
    let mut history_tree = HistoryTree::<(), u8>::new();
    let mut state = ();
    let root = history_tree.curr_node();
    assert_eq!(*history_tree.cmd(root), 0);

    history_tree.cmd_commit(1, &mut state);
    let first = history_tree.curr_node();
    history_tree.undo(&mut state);
    history_tree.cmd_commit(2, &mut state);
    let second = history_tree.curr_node();
    history_tree.cmd_commit(3, &mut state);
    let grandchild = history_tree.curr_node();
    history_tree.commit(&mut state);
    let default_cmd = history_tree.curr_node();

    assert_eq!(history_tree.node(root).children(), &[first, second]);
    assert!(first.index() < second.index());
    assert_eq!(history_tree.node(second).children(), &[grandchild]);
    assert_eq!(history_tree.parent(grandchild), Some(second));
    assert_eq!(
        history_tree.node(grandchild).depth(),
        history_tree.node(second).depth() + 1
    );
    assert_eq!(history_tree.node(default_cmd).depth(), 3);
    assert_eq!(*history_tree.cmd(default_cmd), 0);
}

#[test]
fn test_history_tree_checkout_parent_and_child_match_undo_redo() {
    let mut history_tree: HistoryTree<BTreeMapDelta<u32, u32>, u8> = HistoryTree::new();
    let mut state = Recorder::new(BTreeMap::new());
    state.insert(1, 10);
    history_tree.cmd_commit(1, &mut state);
    let node = history_tree.curr_node();
    let tree_before = history_tree.clone();

    assert!(history_tree.checkout(&mut state, HistoryTreeNodeId::new(0)).is_empty());
    assert!(state.container().is_empty());
    assert_eq!(history_tree.checkout(&mut state, node), vec![1]);
    assert_eq!(*state.container(), BTreeMap::from([(1, 10)]));
    assert_eq!(history_tree, tree_before);
}

#[test]
fn test_history_tree_vec_undo_after_commit() {
    let mut history_tree: HistoryTree<VecDelta<i32>> = HistoryTree::new();
    let mut state = Recorder::new(vec![1, 2, 3]);
    state.push(4);
    state.set(0, 9);
    history_tree.commit(&mut state);
    history_tree.undo(&mut state);
    assert_eq!(*state.container(), vec![1, 2, 3]);
    history_tree.redo(&mut state, HistoryTreeNodeId::new(1));
    assert_eq!(*state.container(), vec![9, 2, 3, 4]);
}

#[test]
fn test_history_tree_snapshot_undo_after_commit() {
    let mut history_tree: HistoryTree<Snapshot<Vec<i32>>> = HistoryTree::new();
    let mut state = vec![1, 2];
    history_tree.commit(&mut state);
    state.push(3);
    history_tree.undo(&mut state);
    assert_eq!(state, vec![1, 2]);
}
