use isv2::scenario_node::BranchType;
use isv2::scenario_node::Item;
use isv2::scenario_node::Mat;
use isv2::scenario_node::Page;
use isv2::scenario_node::Scene;
use isv2::scenario_node::ScenarioNode;
use isv2::tree_ops::ScenarioTree;

fn leaf(id: i32, value: Item) -> Box<ScenarioNode> {
    Box::new(ScenarioNode { value, bt: BranchType::Child, id, child: None, neighbor: None })
}

fn scene_tree() -> ScenarioTree {
    let mut tree = ScenarioTree::new();
    let given_back = tree.add_root(leaf(1, Item::Scene(Scene::default())));
    assert!(given_back.is_none());
    tree
}

#[test]
fn test_grammar_tables() {
    let group = Item::Group;
    let scene = Item::Scene(Scene::default());
    let page = Item::Page(Page::default());
    let mat = Item::Mat(Mat::default());
    let pmat = Item::Pmat(Mat::default());
    assert!(ScenarioNode::can_be_child(&group, &scene));
    assert!(ScenarioNode::can_be_child(&scene, &page));
    assert!(ScenarioNode::can_be_child(&scene, &pmat));
    assert!(ScenarioNode::can_be_child(&page, &mat));
    assert!(!ScenarioNode::can_be_child(&group, &page));
    assert!(!ScenarioNode::can_be_child(&page, &scene));
    assert!(!ScenarioNode::can_be_child(&mat, &mat));
    assert!(ScenarioNode::can_be_neighbor(&group, &scene));
    assert!(ScenarioNode::can_be_neighbor(&page, &pmat));
    assert!(ScenarioNode::can_be_neighbor(&mat, &mat));
    assert!(!ScenarioNode::can_be_neighbor(&page, &mat));
    assert!(!ScenarioNode::can_be_neighbor(&scene, &page));
    // The auto predicate is the disjunction of the two tables.
    assert!(ScenarioNode::can_be_neighbor_or_child_auto(&page, &mat));
    assert!(!ScenarioNode::can_be_neighbor_or_child_auto(&group, &mat));
    assert!(ScenarioNode::can_be_neighbor_or_child_auto(&pmat, &mat));
    assert!(!ScenarioNode::can_be_neighbor_or_child_auto(&page, &group));
    assert!(!ScenarioNode::can_be_neighbor_or_child_auto(&mat, &scene));
}

#[test]
fn test_add_child_found_at_child_link() {
    // Grammar closure on concrete values: a page may nest under a scene,
    // and once attached it is the scene's first child.
    let mut tree = scene_tree();
    let given_back = tree.add_child(1, leaf(2, Item::Page(Page::default())));
    assert!(given_back.is_none());
    let scene = tree.find(1).unwrap();
    let child = scene.child.as_ref().unwrap();
    assert_eq!(child.id, 2);
    assert!(matches!(child.bt, BranchType::Child));
    assert!(matches!(child.value, Item::Page(_)));
}

#[test]
fn test_add_child_grammar_refused() {
    // A page cannot nest under a group; the node comes back and the
    // tree is unchanged.
    let mut tree = ScenarioTree::new();
    assert!(tree.add_root(leaf(1, Item::Group)).is_none());
    let given_back = tree.add_child(1, leaf(2, Item::Page(Page::default())));
    assert!(given_back.is_some());
    assert!(tree.find(1).unwrap().child.is_none());
    assert!(!tree.contains(2));
}

#[test]
fn test_mv_to_child_and_remove_restores_child_link() {
    // A mat moved under a page and removed again leaves the page's
    // child link as it was before the move.
    let mut tree = scene_tree();
    assert!(tree.add_child(1, leaf(2, Item::Page(Page::default()))).is_none());
    assert!(tree.add_child(2, leaf(3, Item::Mat(Mat::default()))).is_none());
    // A second page with its own mat.
    assert!(tree.add_neighbor(2, leaf(4, Item::Page(Page::default()))).is_none());
    assert!(tree.add_child(4, leaf(5, Item::Mat(Mat::default()))).is_none());
    // Move mat 5 under page 2: it becomes the first child, pushing 3.
    assert!(tree.mv_to_child(2, 5));
    let page2 = tree.find(2).unwrap();
    assert_eq!(page2.child.as_ref().unwrap().id, 5);
    assert_eq!(page2.child.as_ref().unwrap().neighbor.as_ref().unwrap().id, 3);
    // Removing 5 restores page 2's child link to mat 3.
    assert!(tree.remove(5).is_some());
    let page2 = tree.find(2).unwrap();
    assert_eq!(page2.child.as_ref().unwrap().id, 3);
    assert!(page2.child.as_ref().unwrap().neighbor.is_none());
}

#[test]
fn test_mv_to_child_refuses_own_descendant() {
    let mut tree = scene_tree();
    assert!(tree.add_child(1, leaf(2, Item::Page(Page::default()))).is_none());
    assert!(tree.add_child(2, leaf(3, Item::Mat(Mat::default()))).is_none());
    // A page cannot move under the mat inside it, nor under itself.
    assert!(!tree.mv_to_child(3, 2));
    assert!(!tree.mv_to_child(2, 2));
    assert!(tree.contains(2));
    assert!(tree.contains(3));
}

#[test]
fn test_mv_to_neighbor_inserts_after() {
    let mut tree = scene_tree();
    assert!(tree.add_child(1, leaf(2, Item::Page(Page::default()))).is_none());
    assert!(tree.add_child(2, leaf(3, Item::Mat(Mat::default()))).is_none());
    assert!(tree.add_neighbor(3, leaf(4, Item::Mat(Mat::default()))).is_none());
    assert!(tree.add_neighbor(4, leaf(5, Item::Mat(Mat::default()))).is_none());
    // Chain is 3 -> 4 -> 5; move 5 right after 3.
    assert!(tree.mv_to_neighbor(3, 5));
    let m3 = tree.find(3).unwrap();
    assert_eq!(m3.neighbor.as_ref().unwrap().id, 5);
    assert_eq!(m3.neighbor.as_ref().unwrap().neighbor.as_ref().unwrap().id, 4);
}

#[test]
fn test_mv_to_parent_inserts_above() {
    let mut tree = scene_tree();
    assert!(tree.add_child(1, leaf(2, Item::Page(Page::default()))).is_none());
    assert!(tree.add_child(2, leaf(3, Item::Mat(Mat::default()))).is_none());
    assert!(tree.add_neighbor(3, leaf(4, Item::Mat(Mat::default()))).is_none());
    // Move mat 4 into mat 3's position: 4 takes the child slot of the
    // page and 3 is demoted to its neighbor.
    assert!(tree.mv_to_parent(3, 4));
    let page = tree.find(2).unwrap();
    let first = page.child.as_ref().unwrap();
    assert_eq!(first.id, 4);
    assert!(matches!(first.bt, BranchType::Child));
    assert_eq!(first.neighbor.as_ref().unwrap().id, 3);
    assert!(matches!(first.neighbor.as_ref().unwrap().bt, BranchType::Neighbor));
}

#[test]
fn test_remove_root_promotes_neighbor() {
    let mut tree = scene_tree();
    assert!(tree.add_neighbor(1, leaf(2, Item::Scene(Scene::default()))).is_none());
    let det = tree.remove(1);
    assert!(det.is_some());
    let det = det.unwrap();
    assert_eq!(det.id, 1);
    assert!(det.neighbor.is_none());
    let root = tree.root.as_ref().unwrap();
    assert_eq!(root.id, 2);
    assert!(matches!(root.bt, BranchType::Child));
}

#[test]
fn test_belong_searches() {
    let tree = isv2::sample::build_sample_tree();
    // Mat 111 sits in page 11 inside scene 1.
    assert_eq!(tree.get_belong_scene(111), Some(1));
    assert_eq!(tree.get_belong_page(111), Some(11));
    assert_eq!(tree.get_belong_group(111), None);
    // A scene belongs to itself.
    assert_eq!(tree.get_belong_scene(2), Some(2));
    // Pmat 22 is its own click unit.
    assert_eq!(tree.get_belong_page(22), Some(22));
}

#[test]
fn test_search_def_label_scene_family() {
    // Scene 3 references "slabel1"; the definition lives on scene 1.
    let tree = isv2::sample::build_sample_tree();
    assert_eq!(tree.search_def_label(3), Some(1));
    // Mat 122 references "mlabel21", defined by the page-sized mat 21
    // in the other scene: mats and page-sized mats share one family.
    assert_eq!(tree.search_def_label(122), Some(21));
    // A label defined nowhere resolves to nothing.
    assert_eq!(tree.search_def_label(22), None);
    // A definition is not itself a reference.
    assert_eq!(tree.search_def_label(111), None);
}

#[test]
fn test_mv_to_child_of_own_first_child_not_restored() {
    // The remove-after-move inverse needs the moved node to start
    // outside the target's child slot: moving the first child onto its
    // own parent and removing it leaves the old second child in place.
    let mut tree = scene_tree();
    assert!(tree.add_child(1, leaf(2, Item::Page(Page::default()))).is_none());
    assert!(tree.add_child(2, leaf(3, Item::Mat(Mat::default()))).is_none());
    assert!(tree.add_neighbor(3, leaf(4, Item::Mat(Mat::default()))).is_none());
    // Mat 3 is already page 2's first child.
    assert!(tree.mv_to_child(2, 3));
    assert!(tree.remove(3).is_some());
    let page = tree.find(2).unwrap();
    assert_eq!(page.child.as_ref().unwrap().id, 4);
}

#[test]
fn test_check_wf() {
    // The sample document is well formed; the laws' assumptions hold
    // of it.
    assert!(isv2::sample::build_sample_tree().check_wf());
    let mut tree = scene_tree();
    assert!(tree.add_child(1, leaf(2, Item::Page(Page::default()))).is_none());
    assert!(tree.check_wf());
    // A duplicated id breaks well-formedness.
    assert!(tree.add_child(2, leaf(1, Item::Mat(Mat::default()))).is_none());
    assert!(!tree.check_wf());
    // So does a branch role inconsistent with the link reaching it.
    let mut bent = scene_tree();
    assert!(bent.add_child(1, leaf(2, Item::Page(Page::default()))).is_none());
    match bent.root.as_mut().unwrap().child.as_mut() {
        Some(c) => c.bt = BranchType::Neighbor,
        None => unreachable!(),
    }
    assert!(!bent.check_wf());
}
