use isv2::codec::ScenarioNodeSerde;
use isv2::sample::build_sample_tree;
use isv2::scenario_node::BranchType;
use isv2::scenario_node::HasBranches;
use isv2::scenario_node::Item;
use isv2::scenario_node::Mat;
use isv2::scenario_node::Page;
use isv2::scenario_node::Scene;
use isv2::scenario_node::ScenarioNode;
use isv2::tree_ops::ScenarioTree;

fn leaf(id: i32, value: Item) -> Box<ScenarioNode> {
    Box::new(ScenarioNode { value, bt: BranchType::Child, id, child: None, neighbor: None })
}

fn kind_tag(v: &Item) -> char {
    match v {
        Item::Group => 'G',
        Item::Scene(_) => 'S',
        Item::Page(_) => 'P',
        Item::Mat(_) => 'M',
        Item::Ovimg(_) => 'O',
        Item::Pmat(_) => 'p',
    }
}

/// The preorder fingerprint of a tree: id, kind, role, shape per record.
fn signature(root: &ScenarioNode) -> Vec<(i32, char, BranchType, HasBranches)> {
    ScenarioNodeSerde::from_sn(root)
        .iter()
        .map(|r| (r.id, kind_tag(&r.value), r.bt, r.has_n_and_c))
        .collect()
}

#[test]
fn test_search_labelled_node() {
    // A lone default node references no label.
    let sn_node1 = ScenarioNode::default();
    let tree0 = ScenarioTree { root: Some(Box::new(sn_node1)), next_id: 1000 };
    let result = tree0.search_def_label(0);
    assert!(result.is_none());

    let tree = build_sample_tree();
    // Mat 121 references "mlabel111"; the definition lives on mat111.
    let mlabel111 = tree.search_def_label(121);
    assert!(mlabel111.is_some());
    let found = tree.find(mlabel111.unwrap()).unwrap();
    if let Item::Mat(ref m) = found.value {
        assert_eq!(m.name, "mat111");
    } else {
        assert!(false);
    }

    // Flatten the whole document and rebuild it.
    let sn_sd = ScenarioNodeSerde::from_sn(tree.root.as_ref().unwrap());
    let sn_rev = ScenarioNode::from_serde(sn_sd);
    assert!(sn_rev.is_some());
}

#[test]
fn test_round_trip_sample_tree() {
    // Encoding and decoding reproduces the same preorder sequence of
    // ids, kinds, roles and shapes.
    let tree = build_sample_tree();
    let root = tree.root.as_ref().unwrap();
    let before = signature(root);
    let recs = ScenarioNodeSerde::from_sn(root);
    let rebuilt = ScenarioNode::from_serde(recs).expect("round trip");
    let after = signature(&rebuilt);
    assert_eq!(before, after);
}

#[test]
fn test_encode_scenario_shapes() {
    // Root scene with one page holding two mats: the records carry
    // child-only, child-only, sibling-only, leaf shapes in that order.
    let mut tree = ScenarioTree::new();
    assert!(tree.add_root(leaf(1, Item::Scene(Scene::default()))).is_none());
    assert!(tree.add_child(1, leaf(2, Item::Page(Page::default()))).is_none());
    assert!(tree.add_child(2, leaf(3, Item::Mat(Mat::default()))).is_none());
    assert!(tree.add_neighbor(3, leaf(4, Item::Mat(Mat::default()))).is_none());

    let recs = ScenarioNodeSerde::from_sn(tree.root.as_ref().unwrap());
    assert_eq!(recs.len(), 4);
    assert_eq!(recs[0].id, 1);
    assert!(matches!(recs[0].value, Item::Scene(_)));
    assert!(matches!(recs[0].bt, BranchType::Child));
    assert!(matches!(recs[0].has_n_and_c, HasBranches::Child));
    assert_eq!(recs[1].id, 2);
    assert!(matches!(recs[1].value, Item::Page(_)));
    assert!(matches!(recs[1].bt, BranchType::Child));
    assert!(matches!(recs[1].has_n_and_c, HasBranches::Child));
    assert_eq!(recs[2].id, 3);
    assert!(matches!(recs[2].value, Item::Mat(_)));
    assert!(matches!(recs[2].bt, BranchType::Child));
    assert!(matches!(recs[2].has_n_and_c, HasBranches::Neighbor));
    assert_eq!(recs[3].id, 4);
    assert!(matches!(recs[3].value, Item::Mat(_)));
    assert!(matches!(recs[3].bt, BranchType::Neighbor));
    assert!(matches!(recs[3].has_n_and_c, HasBranches::Leaf));

    // Decoding that sequence reconstructs the same links.
    let rebuilt = ScenarioNode::from_serde(recs).expect("decode");
    assert_eq!(rebuilt.id, 1);
    let p1 = rebuilt.child.as_ref().unwrap();
    assert_eq!(p1.id, 2);
    let m1 = p1.child.as_ref().unwrap();
    assert_eq!(m1.id, 3);
    let m2 = m1.neighbor.as_ref().unwrap();
    assert_eq!(m2.id, 4);
    assert!(m2.child.is_none() && m2.neighbor.is_none());
}

#[test]
fn test_decode_rejects_malformed_records() {
    // A truncated sequence: the root announces a child that never comes.
    let rec = ScenarioNodeSerde {
        value: Item::Group,
        bt: BranchType::Child,
        id: 1,
        has_n_and_c: HasBranches::Child,
    };
    assert!(ScenarioNode::from_serde(vec![rec]).is_none());

    // A sequence that starts in the sibling role has no root.
    let rec = ScenarioNodeSerde {
        value: Item::Group,
        bt: BranchType::Neighbor,
        id: 1,
        has_n_and_c: HasBranches::Leaf,
    };
    assert!(ScenarioNode::from_serde(vec![rec]).is_none());

    // Spare trailing records are rejected, not silently dropped.
    let r1 = ScenarioNodeSerde {
        value: Item::Group,
        bt: BranchType::Child,
        id: 1,
        has_n_and_c: HasBranches::Leaf,
    };
    let r2 = ScenarioNodeSerde {
        value: Item::Group,
        bt: BranchType::Neighbor,
        id: 2,
        has_n_and_c: HasBranches::Leaf,
    };
    assert!(ScenarioNode::from_serde(vec![r1, r2]).is_none());

    // The empty sequence decodes to no tree.
    assert!(ScenarioNode::from_serde(vec![]).is_none());
}

#[test]
fn test_decode_single_leaf() {
    let rec = ScenarioNodeSerde {
        value: Item::Page(Page::default()),
        bt: BranchType::Child,
        id: 7,
        has_n_and_c: HasBranches::Leaf,
    };
    let t = ScenarioNode::from_serde(vec![rec]).expect("leaf decodes");
    assert_eq!(t.id, 7);
    assert!(t.child.is_none());
    assert!(t.neighbor.is_none());
    assert!(matches!(t.value, Item::Page(_)));
}
