//! A small scenario document used by the tests: two labelled scenes of
//! pages and mats, with one label reference resolving across pages and
//! one across scenes.

use vstd::prelude::*;

use crate::scenario_node::BranchType;
use crate::scenario_node::Color;
use crate::scenario_node::Dimension;
use crate::scenario_node::Item;
use crate::scenario_node::LabelType;
use crate::scenario_node::Mat;
use crate::scenario_node::Position;
use crate::scenario_node::Scene;
use crate::scenario_node::ScenarioNode;
use crate::tree_ops::ScenarioTree;

verus! {

fn sample_mat(name: &str, x: i32, y: i32, lbl: Option<String>, lbl_type: LabelType) -> (r: Mat)
    ensures
        r.name@ == name@,
        r.pos == (Position { x, y }),
        r.dim == (Dimension { w: 40i32, h: 40i32 }),
        r.a == 128,
        r.lbl == lbl,
        r.lbl_type == lbl_type,
    {
    let mut m = Mat::default();
    m.name = name.to_owned();
    m.pos = Position { x, y };
    m.dim = Dimension { w: 40, h: 40 };
    m.a = 128;
    m.lbl = lbl;
    m.lbl_type = lbl_type;
    m
}

fn node(id: i32, bt: BranchType, value: Item) -> (r: ScenarioNode)
    ensures
        r == (ScenarioNode { value, bt, id, child: None, neighbor: None }),
{
    ScenarioNode { value, bt, id, child: None, neighbor: None }
}

/// The fixture's shape, node by node: each spec names one node's id,
/// role, kind, label slot and links, and hands the links on to the
/// next.  Together they pin the full child-before-sibling preorder.
pub open spec fn sample_node111_ok(n: ScenarioNode) -> bool {
    &&& n.id == 111
    &&& n.bt == BranchType::Child
    &&& (n.value matches Item::Mat(m) && m.lbl_type == LabelType::Def && (m.lbl matches Some(l)
        && l@ == "mlabel111"@) && m.name@ == "mat111"@)
    &&& n.child is None
    &&& n.neighbor is None
}

pub open spec fn sample_node11_ok(n: ScenarioNode) -> bool {
    &&& n.id == 11
    &&& n.bt == BranchType::Child
    &&& (n.value matches Item::Page(p) && p.name@ == "new_page"@)
    &&& (n.child matches Some(c) && sample_node111_ok(*c))
    &&& (n.neighbor matches Some(x) && sample_node12_ok(*x))
}

pub open spec fn sample_node122_ok(n: ScenarioNode) -> bool {
    &&& n.id == 122
    &&& n.bt == BranchType::Neighbor
    &&& (n.value matches Item::Mat(m) && m.lbl_type == LabelType::Ref && (m.lbl matches Some(l)
        && l@ == "mlabel21"@) && m.name@ == "mat122"@)
    &&& n.child is None
    &&& n.neighbor is None
}

pub open spec fn sample_node121_ok(n: ScenarioNode) -> bool {
    &&& n.id == 121
    &&& n.bt == BranchType::Child
    &&& (n.value matches Item::Mat(m) && m.lbl_type == LabelType::Ref && (m.lbl matches Some(l)
        && l@ == "mlabel111"@) && m.name@ == "mat121"@)
    &&& n.child is None
    &&& (n.neighbor matches Some(x) && sample_node122_ok(*x))
}

pub open spec fn sample_node12_ok(n: ScenarioNode) -> bool {
    &&& n.id == 12
    &&& n.bt == BranchType::Neighbor
    &&& (n.value matches Item::Page(p) && p.name@ == "new_page"@)
    &&& (n.child matches Some(c) && sample_node121_ok(*c))
    &&& (n.neighbor matches Some(x) && sample_node13_ok(*x))
}

pub open spec fn sample_node131_ok(n: ScenarioNode) -> bool {
    &&& n.id == 131
    &&& n.bt == BranchType::Child
    &&& (n.value matches Item::Mat(m) && m.lbl_type == LabelType::NoLabel && m.lbl is None
        && m.name@ == "mat131"@)
    &&& n.child is None
    &&& n.neighbor is None
}

pub open spec fn sample_node13_ok(n: ScenarioNode) -> bool {
    &&& n.id == 13
    &&& n.bt == BranchType::Neighbor
    &&& (n.value matches Item::Page(p) && p.name@ == "new_page"@)
    &&& (n.child matches Some(c) && sample_node131_ok(*c))
    &&& n.neighbor is None
}

pub open spec fn sample_node22_ok(n: ScenarioNode) -> bool {
    &&& n.id == 22
    &&& n.bt == BranchType::Neighbor
    &&& (n.value matches Item::Pmat(m) && m.lbl_type == LabelType::Ref && (m.lbl matches Some(l)
        && l@ == "label999"@) && m.name@ == "mat22"@)
    &&& n.child is None
    &&& n.neighbor is None
}

pub open spec fn sample_node21_ok(n: ScenarioNode) -> bool {
    &&& n.id == 21
    &&& n.bt == BranchType::Child
    &&& (n.value matches Item::Pmat(m) && m.lbl_type == LabelType::Def && (m.lbl matches Some(l)
        && l@ == "mlabel21"@) && m.name@ == "mat21"@)
    &&& n.child is None
    &&& (n.neighbor matches Some(x) && sample_node22_ok(*x))
}

pub open spec fn sample_node2_ok(n: ScenarioNode) -> bool {
    &&& n.id == 2
    &&& n.bt == BranchType::Neighbor
    &&& (n.value matches Item::Scene(s) && s.lbl_type == LabelType::NoLabel && s.lbl is None
        && (s.bgimg matches Some(b) && b@ == "img/sample2.png"@))
    &&& (n.child matches Some(c) && sample_node21_ok(*c))
    &&& (n.neighbor matches Some(x) && sample_node3_ok(*x))
}

pub open spec fn sample_node3_ok(n: ScenarioNode) -> bool {
    &&& n.id == 3
    &&& n.bt == BranchType::Neighbor
    &&& (n.value matches Item::Scene(s) && s.lbl_type == LabelType::Ref && (s.lbl matches Some(l)
        && l@ == "slabel1"@) && (s.bgimg matches Some(b) && b@ == "img/sample2.png"@))
    &&& n.child is None
    &&& n.neighbor is None
}

pub open spec fn sample_node1_ok(n: ScenarioNode) -> bool {
    &&& n.id == 1
    &&& n.bt == BranchType::Child
    &&& (n.value matches Item::Scene(s) && s.lbl_type == LabelType::Def && (s.lbl matches Some(l)
        && l@ == "slabel1"@) && (s.bgimg matches Some(b) && b@ == "img/sample.png"@))
    &&& (n.child matches Some(c) && sample_node11_ok(*c))
    &&& (n.neighbor matches Some(x) && sample_node2_ok(*x))
}

/// Two scenes with pages and mats: mat labels `mlabel111` and `mlabel21`
/// are defined once each and referenced from other mats; scene label
/// `slabel1` is defined by the first scene and referenced by the last.
/// The contract pins the full child-before-sibling preorder the fixture
/// builds — every id, kind, role, link shape, label slot and mat name.
pub fn build_sample_tree() -> (r: ScenarioTree)
    ensures
        r.next_id == 1000,
        r.root matches Some(n1) && sample_node1_ok(*n1),
{
    let mut scene1 = Scene::default();
    scene1.bgimg = Some("img/sample.png".to_owned());
    scene1.lbl = Some("slabel1".to_owned());
    scene1.lbl_type = LabelType::Def;
    scene1.crop_en = true;
    scene1.crop.pos.x = 23;
    scene1.crop.pos.y = 11;
    scene1.crop.dim.w = 383;
    scene1.crop.dim.h = 457;
    scene1.bgcol = Color { r: 196, g: 196, b: 196 };

    let mat111 = sample_mat("mat111", 40, 40, Some("mlabel111".to_owned()), LabelType::Def);
    let mat121 = sample_mat("mat121", 40, 100, Some("mlabel111".to_owned()), LabelType::Ref);
    let mat122 = sample_mat("mat122", 40, 160, Some("mlabel21".to_owned()), LabelType::Ref);
    let mat131 = sample_mat("mat131", 100, 40, None, LabelType::NoLabel);

    let node111 = node(111, BranchType::Child, Item::Mat(mat111));

    let mut node11 = ScenarioNode::new();
    node11.id = 11;
    node11.set_child(Box::new(node111));

    let node122 = node(122, BranchType::Neighbor, Item::Mat(mat122));
    let mut node121 = node(121, BranchType::Child, Item::Mat(mat121));
    node121.set_neighbor(Box::new(node122));

    let mut node12 = ScenarioNode::new();
    node12.id = 12;
    node12.bt = BranchType::Neighbor;
    node12.set_child(Box::new(node121));

    let node131 = node(131, BranchType::Child, Item::Mat(mat131));
    let mut node13 = ScenarioNode::new();
    node13.id = 13;
    node13.bt = BranchType::Neighbor;
    node13.set_child(Box::new(node131));

    node12.set_neighbor(Box::new(node13));
    node11.set_neighbor(Box::new(node12));

    let mut node1 = node(1, BranchType::Child, Item::Scene(scene1));
    node1.set_child(Box::new(node11));

    let mut scene2 = Scene::default();
    scene2.bgimg = Some("img/sample2.png".to_owned());
    scene2.crop_en = true;
    scene2.crop.pos.x = 18;
    scene2.crop.pos.y = 35;
    scene2.crop.dim.w = 576;
    scene2.crop.dim.h = 348;
    scene2.bgcol = Color { r: 164, g: 164, b: 164 };

    let mat21 = sample_mat("mat21", 100, 100, Some("mlabel21".to_owned()), LabelType::Def);
    let mat22 = sample_mat("mat22", 100, 160, Some("label999".to_owned()), LabelType::Ref);

    let node22 = node(22, BranchType::Neighbor, Item::Pmat(mat22));
    let mut node21 = node(21, BranchType::Child, Item::Pmat(mat21));
    node21.set_neighbor(Box::new(node22));

    let mut node2 = node(2, BranchType::Neighbor, Item::Scene(scene2));
    node2.set_child(Box::new(node21));

    let mut scene3 = Scene::default();
    scene3.bgimg = Some("img/sample2.png".to_owned());
    scene3.lbl = Some("slabel1".to_owned());
    scene3.lbl_type = LabelType::Ref;
    scene3.bgcol = Color { r: 164, g: 164, b: 164 };
    let node3 = node(3, BranchType::Neighbor, Item::Scene(scene3));

    node2.set_neighbor(Box::new(node3));
    node1.set_neighbor(Box::new(node2));

    proof {
        let n11s = *node1.child.unwrap();
        let n111s = *n11s.child.unwrap();
        assert(sample_node111_ok(n111s));
        let n12s = *n11s.neighbor.unwrap();
        let n121s = *n12s.child.unwrap();
        let n122s = *n121s.neighbor.unwrap();
        assert(sample_node122_ok(n122s));
        assert(sample_node121_ok(n121s));
        let n13s = *n12s.neighbor.unwrap();
        let n131s = *n13s.child.unwrap();
        assert(sample_node131_ok(n131s));
        let n2s = *node1.neighbor.unwrap();
        let n21s = *n2s.child.unwrap();
        let n22s = *n21s.neighbor.unwrap();
        assert(sample_node22_ok(n22s));
        assert(sample_node21_ok(n21s));
        let n3s = *n2s.neighbor.unwrap();
        assert(sample_node3_ok(n3s));
        assert(sample_node2_ok(n2s));
        assert(sample_node13_ok(n13s));
        assert(sample_node12_ok(n12s));
        assert(sample_node11_ok(n11s));
        assert(sample_node1_ok(node1));
    }
    ScenarioTree { root: Some(Box::new(node1)), next_id: 1000 }
}

} // verus!
