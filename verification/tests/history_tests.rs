use isv2::codec::ScenarioNodeSerde;
use isv2::operation_history::Operation;
use isv2::operation_history::OperationHistory;
use isv2::operation_history::OperationHistoryItem;
use isv2::operation_history::TreeManipulationHandle;
use isv2::scenario_node::BranchType;
use isv2::scenario_node::HasBranches;
use isv2::scenario_node::Item;
use isv2::scenario_node::Mat;
use isv2::scenario_node::Page;
use isv2::scenario_node::Scene;
use isv2::tree_ops::ScenarioTree;

/// The preorder fingerprint of a whole document.
fn signature(tree: &ScenarioTree) -> Vec<(i32, BranchType, HasBranches)> {
    match &tree.root {
        None => Vec::new(),
        Some(root) => ScenarioNodeSerde::from_sn(root)
            .iter()
            .map(|r| (r.id, r.bt, r.has_n_and_c))
            .collect(),
    }
}

#[test]
fn test_undo_redo_boundaries() {
    // Undo on an empty history reports failure and changes nothing;
    // redo at the top of the stack likewise.
    let mut tree = ScenarioTree::new();
    let mut hist = OperationHistory::new();
    let root_id = hist.do_add_root(&mut tree, Item::Scene(Scene::default())).unwrap();
    let before = signature(&tree);
    assert!(hist.undo(&mut tree));
    assert!(!hist.undo(&mut tree));
    assert!(tree.root.is_none());
    assert!(hist.redo(&mut tree));
    assert!(!hist.redo(&mut tree));
    assert_eq!(signature(&tree), before);
    assert!(tree.contains(root_id));
}

#[test]
fn test_undo_redo_involution_scenario() {
    // A run of structural mutations, undone back to the start and
    // redone to the end, reproduces the same document at both ends.
    let mut tree = ScenarioTree::new();
    let mut hist = OperationHistory::new();

    let empty = signature(&tree);
    let s = hist.do_add_root(&mut tree, Item::Scene(Scene::default())).unwrap();
    let p1 = hist.do_add_child(&mut tree, s, Item::Page(Page::default())).unwrap();
    let m1 = hist.do_add_child(&mut tree, p1, Item::Mat(Mat::default())).unwrap();
    let m2 = hist.do_add_neighbor(&mut tree, m1, Item::Mat(Mat::default())).unwrap();
    let p2 = hist.do_add_neighbor(&mut tree, p1, Item::Page(Page::default())).unwrap();
    assert!(hist.do_mv_to_child(&mut tree, p2, m2));
    assert!(hist.do_mv_to_neighbor(&mut tree, m2, m1));
    assert!(hist.do_remove(&mut tree, p1));
    let after = signature(&tree);

    for _ in 0..8 {
        assert!(hist.undo(&mut tree));
    }
    assert!(!hist.undo(&mut tree));
    assert_eq!(signature(&tree), empty);

    for _ in 0..8 {
        assert!(hist.redo(&mut tree));
    }
    assert!(!hist.redo(&mut tree));
    assert_eq!(signature(&tree), after);
}

#[test]
fn test_undo_remove_restores_node() {
    // Undoing a removal re-attaches the very node, subtree and all.
    let mut tree = ScenarioTree::new();
    let mut hist = OperationHistory::new();
    let s = hist.do_add_root(&mut tree, Item::Scene(Scene::default())).unwrap();
    let p = hist.do_add_child(&mut tree, s, Item::Page(Page::default())).unwrap();
    let m = hist.do_add_child(&mut tree, p, Item::Mat(Mat::default())).unwrap();
    let before = signature(&tree);
    assert!(hist.do_remove(&mut tree, p));
    assert!(!tree.contains(p));
    assert!(!tree.contains(m));
    assert!(hist.undo(&mut tree));
    assert_eq!(signature(&tree), before);
}

#[test]
fn test_push_clears_stale_redo() {
    // A fresh mutation after an undo clears the redo history.
    let mut tree = ScenarioTree::new();
    let mut hist = OperationHistory::new();
    let s = hist.do_add_root(&mut tree, Item::Scene(Scene::default())).unwrap();
    let p1 = hist.do_add_child(&mut tree, s, Item::Page(Page::default())).unwrap();
    assert!(hist.undo(&mut tree));
    assert!(!tree.contains(p1));
    let p2 = hist.do_add_child(&mut tree, s, Item::Page(Page::default())).unwrap();
    assert!(tree.contains(p2));
    // The undone addition of p1 is gone for good.
    assert!(!hist.redo(&mut tree));
    assert!(!tree.contains(p1));
}

#[test]
fn test_drop_moves_through_history() {
    // The drop-above moves: between siblings and above the root.
    let mut tree = ScenarioTree::new();
    let mut hist = OperationHistory::new();
    let s1 = hist.do_add_root(&mut tree, Item::Scene(Scene::default())).unwrap();
    let s2 = hist.do_add_neighbor(&mut tree, s1, Item::Scene(Scene::default())).unwrap();
    let s3 = hist.do_add_neighbor(&mut tree, s2, Item::Scene(Scene::default())).unwrap();
    // Drop s3 above s2: it lands between s1 and s2.
    assert!(hist.do_mv_to_parent_neighbor(&mut tree, s2, s3));
    let n1 = tree.root.as_ref().unwrap();
    assert_eq!(n1.id, s1);
    assert_eq!(n1.neighbor.as_ref().unwrap().id, s3);
    // Drop s2 above the root: it becomes the new root.
    assert!(hist.do_mv_to_parent(&mut tree, s1, s2));
    assert_eq!(tree.root.as_ref().unwrap().id, s2);
    let before_undo = signature(&tree);
    assert!(hist.undo(&mut tree));
    assert_eq!(tree.root.as_ref().unwrap().id, s1);
    assert!(hist.redo(&mut tree));
    assert_eq!(signature(&tree), before_undo);
}

#[test]
fn test_undo_skips_unresolvable_entry() {
    // An entry whose captured context no longer resolves is refused
    // with no change, rather than applied halfway.
    let mut tree = ScenarioTree::new();
    let mut hist = OperationHistory::new();
    let s = hist.do_add_root(&mut tree, Item::Scene(Scene::default())).unwrap();
    let before = signature(&tree);
    // A removal entry that parked no node cannot be undone.
    let bogus = OperationHistoryItem {
        ope: Operation::Remove,
        src: TreeManipulationHandle { sno: s, bt: BranchType::Child, parent_sno: None },
        dest: TreeManipulationHandle { sno: 0, bt: BranchType::Child, parent_sno: None },
        new_sno: None,
        new_id: s,
    };
    let mut broken = OperationHistory { history: vec![bogus], index: 1 };
    assert!(!broken.undo(&mut tree));
    assert_eq!(signature(&tree), before);
    assert_eq!(broken.index, 1);
}
