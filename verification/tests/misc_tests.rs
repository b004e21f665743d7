use isv2::drawing_util::CursorState;
use isv2::drawing_util::gesture_update_rect;
use isv2::operation_history::Operation;
use isv2::prefs::valid_export_dir_name;
use isv2::scenario_node::BranchType;
use isv2::scenario_node::Item;
use isv2::scenario_node::LabelType;
use isv2::scenario_node::Mat;
use isv2::scenario_node::Page;
use isv2::scenario_node::Scene;
use isv2::scenario_node::ScenarioNode;
use isv2::sno_list::SnoList;
use isv2::tree_util::AddDecision;
use isv2::tree_util::decide_add_operation;
use isv2::tree_util::drop_operation;

#[test]
fn test_valid_export_dir_name() {
    assert_eq!(false, valid_export_dir_name(""));
    assert_eq!(true, valid_export_dir_name("a"));
    assert_eq!(false, valid_export_dir_name("."));
    assert_eq!(false, valid_export_dir_name("/"));
    assert_eq!(false, valid_export_dir_name("a/b"));
    assert_eq!(false, valid_export_dir_name(".."));
    assert_eq!(true, valid_export_dir_name("export_dir"));
}

#[test]
fn test_label_type_names() {
    assert_eq!(LabelType::NoLabel.pretty_format(), "None");
    assert_eq!(LabelType::Def.pretty_format(), "Def");
    assert_eq!(LabelType::Ref.pretty_format(), "Ref");
    assert_eq!(LabelType::RefNoRect.pretty_format(), "RefNoRect");
    assert!(matches!(LabelType::from("None"), LabelType::NoLabel));
    assert!(matches!(LabelType::from("Def"), LabelType::Def));
    assert!(matches!(LabelType::from("Ref"), LabelType::Ref));
    assert!(matches!(LabelType::from("RefNoRect"), LabelType::RefNoRect));
    assert!(matches!(LabelType::from("anything else"), LabelType::NoLabel));
}

#[test]
fn test_gesture_update_rect_edges() {
    // Dragging the south-east corner to (30, 25) resizes to the pointer.
    let r = gesture_update_rect(10, 10, 10, 10, 0, 0, 0, 0, 30, 25, CursorState::Se);
    assert_eq!(r, (10, 10, 20, 15));
    // Dragging the north-west corner to (5, 5) moves the origin and
    // grows the rectangle.
    let r = gesture_update_rect(10, 10, 10, 10, 0, 0, 0, 0, 5, 5, CursorState::Nw);
    assert_eq!(r, (5, 5, 15, 15));
    // A pointer crossing the opposite edge leaves that coordinate as is.
    let r = gesture_update_rect(10, 10, 10, 10, 0, 0, 0, 0, 25, 25, CursorState::Nw);
    assert_eq!(r, (10, 10, 10, 10));
    // Grabbing the middle translates by the drag distance.
    let r = gesture_update_rect(10, 10, 10, 10, 3, 4, 10, 10, 8, 9, CursorState::G);
    assert_eq!(r, (15, 15, 10, 10));
    // A grab never pushes the origin to or below zero.
    let r = gesture_update_rect(10, 10, 10, 10, 50, 50, 10, 10, 0, 0, CursorState::G);
    assert_eq!(r, (10, 10, 10, 10));
    // An idle cursor changes nothing.
    let r = gesture_update_rect(1, 2, 3, 4, 0, 0, 0, 0, 100, 100, CursorState::Idle);
    assert_eq!(r, (1, 2, 3, 4));
}

#[test]
fn test_decide_add_operation_table() {
    let group = Item::Group;
    let scene = Item::Scene(Scene::default());
    let page = Item::Page(Page::default());
    let mat = Item::Mat(Mat::default());
    let pmat = Item::Pmat(Mat::default());
    assert_eq!(decide_add_operation(&group, &scene), AddDecision::AddNeighbor);
    assert_eq!(decide_add_operation(&group, &mat), AddDecision::AddNeighborAtScene);
    assert_eq!(decide_add_operation(&scene, &group), AddDecision::AddChild);
    assert_eq!(decide_add_operation(&scene, &page), AddDecision::AddNeighborAtScene);
    assert_eq!(decide_add_operation(&page, &group), AddDecision::Reject);
    assert_eq!(decide_add_operation(&page, &scene), AddDecision::AddChild);
    assert_eq!(decide_add_operation(&page, &pmat), AddDecision::AddNeighbor);
    assert_eq!(decide_add_operation(&page, &mat), AddDecision::AddNeighborAtPage);
    assert_eq!(decide_add_operation(&mat, &page), AddDecision::AddChild);
    assert_eq!(decide_add_operation(&mat, &pmat), AddDecision::Reject);
    assert_eq!(decide_add_operation(&mat, &mat), AddDecision::AddNeighbor);
}

#[test]
fn test_drop_operation_table() {
    // Upper half: insert above, through the parent, the predecessor, or
    // the root position.
    assert!(matches!(
        drop_operation(BranchType::Child, false, false, false),
        Operation::MvToParentChild
    ));
    assert!(matches!(
        drop_operation(BranchType::Child, true, false, false),
        Operation::MvToParent
    ));
    assert!(matches!(
        drop_operation(BranchType::Neighbor, false, false, true),
        Operation::MvToParentNeighbor
    ));
    // Lower half: under the target; label drops nest, expander drops chain.
    assert!(matches!(
        drop_operation(BranchType::Child, false, true, false),
        Operation::MvToDestChild
    ));
    assert!(matches!(
        drop_operation(BranchType::Neighbor, false, true, true),
        Operation::MvToDestNeighbor
    ));
}

#[test]
fn test_summary_str() {
    let mut n = ScenarioNode::new();
    let mut m = Mat::default();
    m.text = String::from("line one\nline two");
    n.set_value(Item::Mat(m));
    assert_eq!(n.summary_str(), "Mat:line oneline two");
    let mut s = Scene::default();
    s.bgimg = Some(String::from("img/a.png"));
    n.set_value(Item::Scene(s));
    assert_eq!(n.summary_str(), "Scene:img/a.png");
    n.set_value(Item::Group);
    assert_eq!(n.summary_str(), "Group:");
    let mut p = Page::default();
    p.name = String::from("page one");
    n.set_value(Item::Page(p));
    assert_eq!(n.summary_str(), "Page:page one");
}

#[test]
fn test_get_mat_pos_dim_with_label() {
    let tree = isv2::sample::build_sample_tree();
    // Mat 121 references mat111's label, so it borrows that rectangle.
    assert_eq!(tree.get_mat_pos_dim_with_label(121), Some((40, 40, 40, 40)));
    // Mat 131 carries no reference and keeps its own rectangle.
    assert_eq!(tree.get_mat_pos_dim_with_label(131), Some((100, 40, 40, 40)));
    // A scene has no mat rectangle, with or without its label.
    assert_eq!(tree.get_mat_pos_dim_with_label(2), None);
}

#[test]
fn test_sno_list_seq_invariant() {
    // A level list keeps each row's stored seq equal to its position
    // through the same plus-or-minus-one shifts the editor runs.
    let mut level = SnoList::new();
    level.insert_at(0, 10);
    level.insert_at(1, 11);
    level.insert_at(2, 12);
    // Insert in the middle: trailing rows shift up.
    level.insert_at(1, 13);
    let rows: Vec<(i32, i32)> = level.items.iter().map(|e| (e.id, e.seq)).collect();
    assert_eq!(rows, vec![(10, 0), (13, 1), (11, 2), (12, 3)]);
    // Remove from the middle: trailing rows shift down.
    let gone = level.remove_at(2);
    assert_eq!((gone.id, gone.seq), (11, 2));
    let rows: Vec<(i32, i32)> = level.items.iter().map(|e| (e.id, e.seq)).collect();
    assert_eq!(rows, vec![(10, 0), (13, 1), (12, 2)]);
    // The raw shift alone matches the original's adjust-seq.
    level.adj_seq(1, 5);
    let rows: Vec<(i32, i32)> = level.items.iter().map(|e| (e.id, e.seq)).collect();
    assert_eq!(rows, vec![(10, 0), (13, 6), (12, 7)]);
}
