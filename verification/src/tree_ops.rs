//! Structural primitives of the scenario tree.
//!
//! The tree is held by ownership: each `child` and `neighbor` link is the
//! only reference to the subtree it points at, so detaching a node hands
//! its whole subtree out as a value and attaching hands it back.  Nodes
//! are addressed by their numeric `id`; where an id occurs more than once
//! the first node in preorder (node, then child subtree, then neighbor
//! subtree) is meant.
//!
//! Every mutation either fully succeeds (the grammar allows the result,
//! all links updated) or fully fails with no change.

use vstd::prelude::*;

use crate::scenario_node::BranchType;
use crate::scenario_node::Item;
use crate::scenario_node::LabelType;
use crate::scenario_node::Scene;
use crate::scenario_node::ScenarioNode;

verus! {

/// Does the subtree in this slot hold a node with this id?
pub open spec fn opt_contains(o: Option<Box<ScenarioNode>>, id: i32) -> bool
    decreases o,
{
    match o {
        None => false,
        Some(t) => node_contains(*t, id),
    }
}

pub open spec fn node_contains(t: ScenarioNode, id: i32) -> bool
    decreases t,
{
    t.id == id || opt_contains(t.child, id) || opt_contains(t.neighbor, id)
}

/// The first node in preorder carrying this id, with its links.
pub open spec fn spec_find(o: Option<Box<ScenarioNode>>, id: i32) -> Option<ScenarioNode>
    decreases o,
{
    match o {
        None => None,
        Some(t) => {
            if t.id == id {
                Some(*t)
            } else if opt_contains(t.child, id) {
                spec_find(t.child, id)
            } else {
                spec_find(t.neighbor, id)
            }
        },
    }
}

/// The same subtree with the branch role of its top node replaced.
pub open spec fn with_bt(o: Option<Box<ScenarioNode>>, bt: BranchType) -> Option<
    Box<ScenarioNode>,
> {
    match o {
        None => None,
        Some(t) => Some(Box::new(ScenarioNode { bt, ..*t })),
    }
}

/// A node as it leaves the tree: its old neighbor stays behind, spliced
/// into the place the node held, so the detached node carries only its
/// own child subtree.
pub open spec fn strip_neighbor(t: ScenarioNode) -> ScenarioNode {
    ScenarioNode { neighbor: None, ..t }
}

/// Splice the first node carrying `id` out of the slot: the node's
/// neighbor (if any) takes its place and inherits its branch role; the
/// node itself leaves with its child subtree.  Result: the remaining
/// slot contents, and the detached node.
pub open spec fn spec_detach(o: Option<Box<ScenarioNode>>, id: i32) -> (Option<
    Box<ScenarioNode>,
>, Option<Box<ScenarioNode>>)
    decreases o,
{
    match o {
        None => (None, None),
        Some(t) => {
            if t.id == id {
                (with_bt(t.neighbor, t.bt), Some(Box::new(strip_neighbor(*t))))
            } else if opt_contains(t.child, id) {
                let (rest, det) = spec_detach(t.child, id);
                (Some(Box::new(ScenarioNode { child: rest, ..*t })), det)
            } else if opt_contains(t.neighbor, id) {
                let (rest, det) = spec_detach(t.neighbor, id);
                (Some(Box::new(ScenarioNode { neighbor: rest, ..*t })), det)
            } else {
                (o, None)
            }
        },
    }
}

/// Make `b` the new first child of the first node carrying `a`: `b` takes
/// the child slot with role `Child`, and the old first child (if any) is
/// demoted to `b`'s neighbor with role `Neighbor`.
pub open spec fn spec_attach_child(
    o: Option<Box<ScenarioNode>>,
    a: i32,
    b: ScenarioNode,
) -> Option<Box<ScenarioNode>>
    decreases o,
{
    match o {
        None => None,
        Some(t) => {
            if t.id == a {
                Some(
                    Box::new(
                        ScenarioNode {
                            child: Some(
                                Box::new(
                                    ScenarioNode {
                                        bt: BranchType::Child,
                                        neighbor: with_bt(t.child, BranchType::Neighbor),
                                        ..b
                                    },
                                ),
                            ),
                            ..*t
                        },
                    ),
                )
            } else if opt_contains(t.child, a) {
                Some(Box::new(ScenarioNode { child: spec_attach_child(t.child, a, b), ..*t }))
            } else {
                Some(Box::new(ScenarioNode { neighbor: spec_attach_child(t.neighbor, a, b), ..*t }))
            }
        },
    }
}

/// Insert `b` right after the first node carrying `a`: `b` takes the
/// neighbor slot with role `Neighbor` and inherits `a`'s old neighbor.
pub open spec fn spec_attach_neighbor(
    o: Option<Box<ScenarioNode>>,
    a: i32,
    b: ScenarioNode,
) -> Option<Box<ScenarioNode>>
    decreases o,
{
    match o {
        None => None,
        Some(t) => {
            if t.id == a {
                Some(
                    Box::new(
                        ScenarioNode {
                            neighbor: Some(
                                Box::new(
                                    ScenarioNode {
                                        bt: BranchType::Neighbor,
                                        neighbor: with_bt(t.neighbor, BranchType::Neighbor),
                                        ..b
                                    },
                                ),
                            ),
                            ..*t
                        },
                    ),
                )
            } else if opt_contains(t.child, a) {
                Some(Box::new(ScenarioNode { child: spec_attach_neighbor(t.child, a, b), ..*t }))
            } else {
                Some(
                    Box::new(ScenarioNode { neighbor: spec_attach_neighbor(t.neighbor, a, b), ..*t }),
                )
            }
        },
    }
}

/// Splice `b` into the exact slot the first node carrying `a` holds:
/// `b` takes over `a`'s branch role, and `a` is demoted to `b`'s
/// neighbor; `a` keeps its child subtree and its old neighbor chain.
pub open spec fn spec_insert_before(
    o: Option<Box<ScenarioNode>>,
    a: i32,
    b: ScenarioNode,
) -> Option<Box<ScenarioNode>>
    decreases o,
{
    match o {
        None => None,
        Some(t) => {
            if t.id == a {
                Some(
                    Box::new(
                        ScenarioNode {
                            value: b.value,
                            bt: t.bt,
                            id: b.id,
                            child: b.child,
                            neighbor: Some(Box::new(ScenarioNode { bt: BranchType::Neighbor, ..*t })),
                        },
                    ),
                )
            } else if opt_contains(t.child, a) {
                Some(Box::new(ScenarioNode { child: spec_insert_before(t.child, a, b), ..*t }))
            } else {
                Some(
                    Box::new(ScenarioNode { neighbor: spec_insert_before(t.neighbor, a, b), ..*t }),
                )
            }
        },
    }
}

/// The slot the first node carrying `id` is reached through: the id of
/// the owning node and which of its links points here, or `None` as the
/// owner for the root position.
pub open spec fn tree_slot_of(o: Option<Box<ScenarioNode>>, id: i32) -> Option<
    (Option<i32>, BranchType),
> {
    match o {
        None => None,
        Some(t) => {
            if t.id == id {
                Some((None, BranchType::Child))
            } else {
                node_slot_of(*t, id)
            }
        },
    }
}

pub open spec fn node_slot_of(t: ScenarioNode, id: i32) -> Option<(Option<i32>, BranchType)>
    decreases t,
{
    if opt_contains(t.child, id) {
        match t.child {
            Some(c) => {
                if c.id == id {
                    Some((Some(t.id), BranchType::Child))
                } else {
                    node_slot_of(*c, id)
                }
            },
            None => None,
        }
    } else if opt_contains(t.neighbor, id) {
        match t.neighbor {
            Some(n) => {
                if n.id == id {
                    Some((Some(t.id), BranchType::Neighbor))
                } else {
                    node_slot_of(*n, id)
                }
            },
            None => None,
        }
    } else {
        None
    }
}

/// Replacing the top branch role moves no node in or out of a slot.
pub proof fn lemma_with_bt_contains(o: Option<Box<ScenarioNode>>, bt: BranchType, x: i32)
    ensures
        opt_contains(with_bt(o, bt), x) == opt_contains(o, x),
{
    match o {
        None => {},
        Some(t) => {
            assert(opt_contains(with_bt(o, bt), x) == node_contains(
                ScenarioNode { bt, ..*t },
                x,
            ));
        },
    }
}

/// What detaching hands out is the found node, less its old neighbor.
pub proof fn lemma_find_detach(o: Option<Box<ScenarioNode>>, id: i32)
    requires
        opt_contains(o, id),
    ensures
        spec_find(o, id) is Some,
        spec_detach(o, id).1 == Some(Box::new(strip_neighbor(spec_find(o, id).unwrap()))),
    decreases o,
{
    match o {
        None => {},
        Some(t) => {
            if t.id == id {
            } else if opt_contains(t.child, id) {
                lemma_find_detach(t.child, id);
            } else {
                lemma_find_detach(t.neighbor, id);
            }
        },
    }
}

/// A node outside the detached subtree stays in the tree.
pub proof fn lemma_detach_keeps(o: Option<Box<ScenarioNode>>, id: i32, x: i32)
    requires
        opt_contains(o, id),
        opt_contains(o, x),
        x != id,
        !opt_contains(spec_find(o, id).unwrap().child, x),
    ensures
        opt_contains(spec_detach(o, id).0, x),
    decreases o,
{
    match o {
        None => {},
        Some(t) => {
            if t.id == id {
                lemma_with_bt_contains(t.neighbor, t.bt, x);
            } else if opt_contains(t.child, id) {
                if node_contains(*t, x) {
                    let (rest, det) = spec_detach(t.child, id);
                    if t.id == x {
                    } else if opt_contains(t.child, x) {
                        lemma_detach_keeps(t.child, id, x);
                    } else {
                    }
                }
            } else if opt_contains(t.neighbor, id) {
                if t.id == x {
                } else if opt_contains(t.neighbor, x) {
                    lemma_detach_keeps(t.neighbor, id, x);
                } else {
                }
            } else {
            }
        },
    }
}

/// A missing id is found nowhere.
pub proof fn lemma_find_none(o: Option<Box<ScenarioNode>>, id: i32)
    requires
        !opt_contains(o, id),
    ensures
        spec_find(o, id) is None,
    decreases o,
{
    match o {
        None => {},
        Some(t) => {
            lemma_find_none(t.neighbor, id);
        },
    }
}

/// Every node in the tree sits in some slot.
pub proof fn lemma_slot_exists(o: Option<Box<ScenarioNode>>, id: i32)
    requires
        opt_contains(o, id),
    ensures
        tree_slot_of(o, id) is Some,
{
    match o {
        None => {},
        Some(t) => {
            if t.id != id {
                lemma_node_slot_exists(*t, id);
            }
        },
    }
}

proof fn lemma_node_slot_exists(t: ScenarioNode, id: i32)
    requires
        node_contains(t, id),
        t.id != id,
    ensures
        node_slot_of(t, id) is Some,
    decreases t,
{
    if opt_contains(t.child, id) {
        match t.child {
            Some(c) => {
                if c.id != id {
                    lemma_node_slot_exists(*c, id);
                }
            },
            None => {},
        }
    } else if opt_contains(t.neighbor, id) {
        match t.neighbor {
            Some(n) => {
                if n.id != id {
                    lemma_node_slot_exists(*n, id);
                }
            },
            None => {},
        }
    }
}

/// Only nodes in the tree have slots.
pub proof fn lemma_slot_in_tree(o: Option<Box<ScenarioNode>>, id: i32)
    requires
        tree_slot_of(o, id) is Some,
    ensures
        opt_contains(o, id),
{
    match o {
        None => {},
        Some(t) => {
            if t.id != id {
                lemma_node_slot_in_tree(*t, id);
            }
        },
    }
}

proof fn lemma_node_slot_in_tree(t: ScenarioNode, id: i32)
    requires
        node_slot_of(t, id) is Some,
    ensures
        node_contains(t, id),
    decreases t,
{
}

/// The owner a slot names is itself in the tree.
pub proof fn lemma_slot_owner_contained(o: Option<Box<ScenarioNode>>, id: i32)
    requires
        tree_slot_of(o, id) matches Some((Some(p), _)),
    ensures
        opt_contains(o, tree_slot_of(o, id).unwrap().0.unwrap()),
{
    match o {
        None => {},
        Some(t) => {
            if t.id != id {
                lemma_node_slot_owner(*t, id);
            }
        },
    }
}

proof fn lemma_node_slot_owner(t: ScenarioNode, id: i32)
    requires
        node_slot_of(t, id) matches Some((Some(p), _)),
    ensures
        node_contains(t, node_slot_of(t, id).unwrap().0.unwrap()),
    decreases t,
{
    if opt_contains(t.child, id) {
        match t.child {
            Some(c) => {
                if c.id != id {
                    lemma_node_slot_owner(*c, id);
                }
            },
            None => {},
        }
    } else if opt_contains(t.neighbor, id) {
        match t.neighbor {
            Some(n) => {
                if n.id != id {
                    lemma_node_slot_owner(*n, id);
                }
            },
            None => {},
        }
    }
}

fn opt_contains_x(o: &Option<Box<ScenarioNode>>, id: i32) -> (r: bool)
    ensures
        r == opt_contains(*o, id),
    decreases *o,
{
    match o {
        None => false,
        Some(t) => t.id == id || opt_contains_x(&t.child, id) || opt_contains_x(&t.neighbor, id),
    }
}

/// A shared view of the first node in preorder carrying `id`.
fn find_ref<'a>(o: &'a Option<Box<ScenarioNode>>, id: i32) -> (r: Option<&'a ScenarioNode>)
    ensures
        match r {
            Some(n) => opt_contains(*o, id) && spec_find(*o, id) == Some(*n),
            None => !opt_contains(*o, id),
        },
    decreases *o,
{
    match o {
        None => None,
        Some(t) => {
            if t.id == id {
                Some(&**t)
            } else if opt_contains_x(&t.child, id) {
                find_ref(&t.child, id)
            } else {
                find_ref(&t.neighbor, id)
            }
        },
    }
}

fn with_bt_x(o: Option<Box<ScenarioNode>>, bt: BranchType) -> (r: Option<Box<ScenarioNode>>)
    ensures
        r == with_bt(o, bt),
{
    match o {
        None => None,
        Some(mut t) => {
            t.bt = bt;
            Some(t)
        },
    }
}

/// Splice the first node carrying `id` out of the slot; see `spec_detach`.
fn detach_in(slot: &mut Option<Box<ScenarioNode>>, id: i32) -> (det: Option<Box<ScenarioNode>>)
    ensures
        (*final(slot), det) == spec_detach(*old(slot), id),
    decreases *old(slot),
{
    match slot.take() {
        None => None,
        Some(mut t) => {
            if t.id == id {
                let nb = t.neighbor.take();
                *slot = with_bt_x(nb, t.bt);
                Some(t)
            } else if opt_contains_x(&t.child, id) {
                let det = detach_in(&mut t.child, id);
                *slot = Some(t);
                det
            } else if opt_contains_x(&t.neighbor, id) {
                let det = detach_in(&mut t.neighbor, id);
                *slot = Some(t);
                det
            } else {
                *slot = Some(t);
                None
            }
        },
    }
}

/// Attach `b` as the new first child of the first node carrying `a`;
/// see `spec_attach_child`.
fn attach_child_in(slot: &mut Option<Box<ScenarioNode>>, a: i32, b: Box<ScenarioNode>)
    requires
        opt_contains(*old(slot), a),
    ensures
        *final(slot) == spec_attach_child(*old(slot), a, *b),
    decreases *old(slot),
{
    match slot.take() {
        None => {
            proof {
                assert(false);
            }
        },
        Some(mut t) => {
            if t.id == a {
                let old_child = t.child.take();
                let mut bb = b;
                bb.bt = BranchType::Child;
                bb.neighbor = with_bt_x(old_child, BranchType::Neighbor);
                t.child = Some(bb);
                *slot = Some(t);
            } else if opt_contains_x(&t.child, a) {
                attach_child_in(&mut t.child, a, b);
                *slot = Some(t);
            } else {
                attach_child_in(&mut t.neighbor, a, b);
                *slot = Some(t);
            }
        },
    }
}

/// Insert `b` right after the first node carrying `a`;
/// see `spec_attach_neighbor`.
fn attach_neighbor_in(slot: &mut Option<Box<ScenarioNode>>, a: i32, b: Box<ScenarioNode>)
    requires
        opt_contains(*old(slot), a),
    ensures
        *final(slot) == spec_attach_neighbor(*old(slot), a, *b),
    decreases *old(slot),
{
    match slot.take() {
        None => {
            proof {
                assert(false);
            }
        },
        Some(mut t) => {
            if t.id == a {
                let old_neighbor = t.neighbor.take();
                let mut bb = b;
                bb.bt = BranchType::Neighbor;
                bb.neighbor = with_bt_x(old_neighbor, BranchType::Neighbor);
                t.neighbor = Some(bb);
                *slot = Some(t);
            } else if opt_contains_x(&t.child, a) {
                attach_neighbor_in(&mut t.child, a, b);
                *slot = Some(t);
            } else {
                attach_neighbor_in(&mut t.neighbor, a, b);
                *slot = Some(t);
            }
        },
    }
}

/// Splice `b` into the slot of the first node carrying `a`, demoting that
/// node to `b`'s neighbor; see `spec_insert_before`.
fn insert_before_in(slot: &mut Option<Box<ScenarioNode>>, a: i32, b: Box<ScenarioNode>)
    requires
        opt_contains(*old(slot), a),
    ensures
        *final(slot) == spec_insert_before(*old(slot), a, *b),
    decreases *old(slot),
{
    match slot.take() {
        None => {
            proof {
                assert(false);
            }
        },
        Some(mut t) => {
            if t.id == a {
                let mut bb = b;
                bb.bt = t.bt;
                t.bt = BranchType::Neighbor;
                bb.neighbor = Some(t);
                *slot = Some(bb);
            } else if opt_contains_x(&t.child, a) {
                insert_before_in(&mut t.child, a, b);
                *slot = Some(t);
            } else {
                insert_before_in(&mut t.neighbor, a, b);
                *slot = Some(t);
            }
        },
    }
}

fn slot_of_x(o: &Option<Box<ScenarioNode>>, id: i32) -> (r: Option<(Option<i32>, BranchType)>)
    ensures
        r == tree_slot_of(*o, id),
{
    match o {
        None => None,
        Some(t) => {
            if t.id == id {
                Some((None, BranchType::Child))
            } else {
                node_slot_of_x(&**t, id)
            }
        },
    }
}

fn node_slot_of_x(t: &ScenarioNode, id: i32) -> (r: Option<(Option<i32>, BranchType)>)
    ensures
        r == node_slot_of(*t, id),
    decreases *t,
{
    if opt_contains_x(&t.child, id) {
        match &t.child {
            Some(c) => {
                if c.id == id {
                    Some((Some(t.id), BranchType::Child))
                } else {
                    node_slot_of_x(&**c, id)
                }
            },
            None => None,
        }
    } else if opt_contains_x(&t.neighbor, id) {
        match &t.neighbor {
            Some(n) => {
                if n.id == id {
                    Some((Some(t.id), BranchType::Neighbor))
                } else {
                    node_slot_of_x(&**n, id)
                }
            },
            None => None,
        }
    } else {
        None
    }
}

/// Does the grammar allow a node holding `v` above the first child of
/// the node carrying `a`?  Attaching under `a` demotes that child to
/// the new node's next sibling, so the pair must chain.
pub open spec fn attach_child_demote_ok(o: Option<Box<ScenarioNode>>, a: i32, v: Item) -> bool {
    match spec_find(o, a) {
        None => true,
        Some(an) => match an.child {
            Some(c) => ScenarioNode::can_be_neighbor_spec(v, c.value),
            None => true,
        },
    }
}

/// Does the grammar allow a node holding `v` before the next sibling of
/// the node carrying `a`?
pub open spec fn attach_neighbor_demote_ok(o: Option<Box<ScenarioNode>>, a: i32, v: Item) -> bool {
    match spec_find(o, a) {
        None => true,
        Some(an) => match an.neighbor {
            Some(n) => ScenarioNode::can_be_neighbor_spec(v, n.value),
            None => true,
        },
    }
}

/// Does the grammar survive the splice `b`'s departure performs?  The
/// node's old neighbor takes over its slot, so the slot's owner must
/// accept it through the same link; at the root position anything may
/// stand.
pub open spec fn splice_src_ok(o: Option<Box<ScenarioNode>>, b: i32) -> bool {
    match spec_find(o, b) {
        None => true,
        Some(bn) => match bn.neighbor {
            None => true,
            Some(n) => match tree_slot_of(o, b) {
                Some((Some(p), BranchType::Child)) => ScenarioNode::can_be_child_spec(
                    spec_find(o, p).unwrap().value,
                    n.value,
                ),
                Some((Some(p), BranchType::Neighbor)) => ScenarioNode::can_be_neighbor_spec(
                    spec_find(o, p).unwrap().value,
                    n.value,
                ),
                _ => true,
            },
        },
    }
}

/// The sibling pair a child move creates below `a`: the first child `a`
/// keeps once `b` is out of the tree must be able to follow `b`.
pub open spec fn mv_child_demote_ok(o: Option<Box<ScenarioNode>>, a: i32, b: i32) -> bool {
    match spec_find(o, a) {
        None => true,
        Some(an) => match an.child {
            None => true,
            Some(c) => {
                let bv = spec_find(o, b).unwrap().value;
                if c.id == b {
                    match spec_find(o, b).unwrap().neighbor {
                        Some(n) => ScenarioNode::can_be_neighbor_spec(bv, n.value),
                        None => true,
                    }
                } else {
                    ScenarioNode::can_be_neighbor_spec(bv, c.value)
                }
            },
        },
    }
}

/// The sibling pair a sibling move creates after `a`: the next sibling
/// `a` keeps once `b` is out of the tree must be able to follow `b`.
pub open spec fn mv_neighbor_demote_ok(o: Option<Box<ScenarioNode>>, a: i32, b: i32) -> bool {
    match spec_find(o, a) {
        None => true,
        Some(an) => match an.neighbor {
            None => true,
            Some(c) => {
                let bv = spec_find(o, b).unwrap().value;
                if c.id == b {
                    match spec_find(o, b).unwrap().neighbor {
                        Some(n) => ScenarioNode::can_be_neighbor_spec(bv, n.value),
                        None => true,
                    }
                } else {
                    ScenarioNode::can_be_neighbor_spec(bv, c.value)
                }
            },
        },
    }
}

fn splice_src_x(o: &Option<Box<ScenarioNode>>, b: i32) -> (r: bool)
    ensures
        r == splice_src_ok(*o, b),
{
    match find_ref(o, b) {
        None => true,
        Some(bn) => match &bn.neighbor {
            None => true,
            Some(n) => match slot_of_x(o, b) {
                Some((Some(p), bt)) => match find_ref(o, p) {
                    Some(pn) => match bt {
                        BranchType::Child => ScenarioNode::can_be_child(&pn.value, &n.value),
                        BranchType::Neighbor => ScenarioNode::can_be_neighbor(&pn.value, &n.value),
                    },
                    None => {
                        proof {
                            lemma_slot_owner_contained(*o, b);
                            assert(false);
                        }
                        false
                    },
                },
                _ => true,
            },
        },
    }
}

fn mv_child_demote_x(o: &Option<Box<ScenarioNode>>, a: i32, b: i32) -> (r: bool)
    requires
        opt_contains(*o, b),
    ensures
        r == mv_child_demote_ok(*o, a, b),
{
    let bn = match find_ref(o, b) {
        Some(bn) => bn,
        None => {
            proof {
                assert(false);
            }
            return true;
        },
    };
    match find_ref(o, a) {
        None => {
            proof {
                lemma_find_none(*o, a);
            }
            true
        },
        Some(an) => match &an.child {
            None => true,
            Some(c) => {
                if c.id == b {
                    match &bn.neighbor {
                        Some(n) => ScenarioNode::can_be_neighbor(&bn.value, &n.value),
                        None => true,
                    }
                } else {
                    ScenarioNode::can_be_neighbor(&bn.value, &c.value)
                }
            },
        },
    }
}

fn mv_neighbor_demote_x(o: &Option<Box<ScenarioNode>>, a: i32, b: i32) -> (r: bool)
    requires
        opt_contains(*o, b),
    ensures
        r == mv_neighbor_demote_ok(*o, a, b),
{
    let bn = match find_ref(o, b) {
        Some(bn) => bn,
        None => {
            proof {
                assert(false);
            }
            return true;
        },
    };
    match find_ref(o, a) {
        None => {
            proof {
                lemma_find_none(*o, a);
            }
            true
        },
        Some(an) => match &an.neighbor {
            None => true,
            Some(c) => {
                if c.id == b {
                    match &bn.neighbor {
                        Some(n) => ScenarioNode::can_be_neighbor(&bn.value, &n.value),
                        None => true,
                    }
                } else {
                    ScenarioNode::can_be_neighbor(&bn.value, &c.value)
                }
            },
        },
    }
}

/// When may `b` become the new first child of `a`?  Both nodes must be
/// in the tree, `a` must lie outside the subtree that leaves with `b`,
/// and the grammar must survive everywhere the move touches: the new
/// parent/child pair, the demoted old first child behind `b`, and the
/// splice `b` leaves at its source.
pub open spec fn mv_child_ok(o: Option<Box<ScenarioNode>>, a: i32, b: i32) -> bool {
    &&& opt_contains(o, a)
    &&& opt_contains(o, b)
    &&& a != b
    &&& !opt_contains(spec_find(o, b).unwrap().child, a)
    &&& ScenarioNode::can_be_child_spec(
        spec_find(o, a).unwrap().value,
        spec_find(o, b).unwrap().value,
    )
    &&& mv_child_demote_ok(o, a, b)
    &&& splice_src_ok(o, b)
}

/// The tree after `b` moved to be `a`'s first child.
pub open spec fn spec_mv_child(o: Option<Box<ScenarioNode>>, a: i32, b: i32) -> Option<
    Box<ScenarioNode>,
> {
    let (rest, det) = spec_detach(o, b);
    spec_attach_child(rest, a, *det.unwrap())
}

/// When may `b` become `a`'s next sibling?  As for a child move, the
/// grammar must survive everywhere the move touches.
pub open spec fn mv_neighbor_ok(o: Option<Box<ScenarioNode>>, a: i32, b: i32) -> bool {
    &&& opt_contains(o, a)
    &&& opt_contains(o, b)
    &&& a != b
    &&& !opt_contains(spec_find(o, b).unwrap().child, a)
    &&& ScenarioNode::can_be_neighbor_spec(
        spec_find(o, a).unwrap().value,
        spec_find(o, b).unwrap().value,
    )
    &&& mv_neighbor_demote_ok(o, a, b)
    &&& splice_src_ok(o, b)
}

/// The tree after `b` moved to be `a`'s next sibling.
pub open spec fn spec_mv_neighbor(o: Option<Box<ScenarioNode>>, a: i32, b: i32) -> Option<
    Box<ScenarioNode>,
> {
    let (rest, det) = spec_detach(o, b);
    spec_attach_neighbor(rest, a, *det.unwrap())
}

/// The slot `a` sits in once `b` has been detached: if `b` owned `a`
/// through its neighbor link, `a` has been promoted into `b`'s old slot;
/// everywhere else `a`'s slot is untouched.
pub open spec fn effective_slot(o: Option<Box<ScenarioNode>>, a: i32, b: i32) -> Option<
    (Option<i32>, BranchType),
> {
    match tree_slot_of(o, a) {
        Some((Some(p), bt)) => {
            if p == b {
                tree_slot_of(o, b)
            } else {
                Some((Some(p), bt))
            }
        },
        s => s,
    }
}

/// Does the grammar allow a node holding `v` in the slot `a` will leave
/// behind?  At the root position anything is allowed.
pub open spec fn slot_edge_ok(
    o: Option<Box<ScenarioNode>>,
    slot: Option<(Option<i32>, BranchType)>,
    v: Item,
) -> bool {
    match slot {
        Some((None, _)) => true,
        Some((Some(p), BranchType::Child)) => ScenarioNode::can_be_child_spec(
            spec_find(o, p).unwrap().value,
            v,
        ),
        Some((Some(p), BranchType::Neighbor)) => ScenarioNode::can_be_neighbor_spec(
            spec_find(o, p).unwrap().value,
            v,
        ),
        None => false,
    }
}

/// When may `b` take over `a`'s position, demoting `a` to `b`'s next
/// sibling?  `b` must fit the slot `a` occupies (judged against the slot
/// as it stands once `b` is out), and `a` must be able to follow `b` as
/// its sibling.
pub open spec fn mv_parent_ok(o: Option<Box<ScenarioNode>>, a: i32, b: i32) -> bool {
    &&& opt_contains(o, a)
    &&& opt_contains(o, b)
    &&& a != b
    &&& !opt_contains(spec_find(o, b).unwrap().child, a)
    &&& ScenarioNode::can_be_neighbor_spec(
        spec_find(o, b).unwrap().value,
        spec_find(o, a).unwrap().value,
    )
    &&& slot_edge_ok(o, effective_slot(o, a, b), spec_find(o, b).unwrap().value)
    &&& splice_src_ok(o, b)
}

/// The tree after `b` took over `a`'s position.
pub open spec fn spec_mv_parent(o: Option<Box<ScenarioNode>>, a: i32, b: i32) -> Option<
    Box<ScenarioNode>,
> {
    let (rest, det) = spec_detach(o, b);
    spec_insert_before(rest, a, *det.unwrap())
}

/// No id occurs twice in the slot: a node's id is absent from both its
/// subtrees, and the two subtrees share no id.
pub open spec fn opt_uniq(o: Option<Box<ScenarioNode>>) -> bool
    decreases o,
{
    match o {
        None => true,
        Some(t) => node_uniq(*t),
    }
}

pub open spec fn node_uniq(t: ScenarioNode) -> bool
    decreases t,
{
    &&& !opt_contains(t.child, t.id)
    &&& !opt_contains(t.neighbor, t.id)
    &&& forall|x: i32| !(opt_contains(t.child, x) && #[trigger] opt_contains(t.neighbor, x))
    &&& opt_uniq(t.child)
    &&& opt_uniq(t.neighbor)
}

/// The found node carries the id it was looked up by.
pub proof fn lemma_find_id(o: Option<Box<ScenarioNode>>, x: i32)
    requires
        opt_contains(o, x),
    ensures
        spec_find(o, x) is Some,
        spec_find(o, x).unwrap().id == x,
    decreases o,
{
    match o {
        None => {},
        Some(t) => {
            if t.id == x {
            } else if opt_contains(t.child, x) {
                lemma_find_id(t.child, x);
            } else {
                lemma_find_id(t.neighbor, x);
            }
        },
    }
}

/// Detaching adds no node: whatever the rest holds, the slot held.
pub proof fn lemma_detach_subset(o: Option<Box<ScenarioNode>>, id: i32, x: i32)
    requires
        opt_contains(spec_detach(o, id).0, x),
    ensures
        opt_contains(o, x),
    decreases o,
{
    match o {
        None => {},
        Some(t) => {
            if t.id == id {
                lemma_with_bt_contains(t.neighbor, t.bt, x);
            } else if opt_contains(t.child, id) {
                if opt_contains(spec_detach(t.child, id).0, x) {
                    lemma_detach_subset(t.child, id, x);
                }
            } else if opt_contains(t.neighbor, id) {
                if opt_contains(spec_detach(t.neighbor, id).0, x) {
                    lemma_detach_subset(t.neighbor, id, x);
                }
            } else {
            }
        },
    }
}

/// In a tree of distinct ids, detaching a node leaves no node of that
/// id behind.
pub proof fn lemma_detach_removes(o: Option<Box<ScenarioNode>>, b: i32)
    requires
        opt_uniq(o),
        opt_contains(o, b),
    ensures
        !opt_contains(spec_detach(o, b).0, b),
    decreases o,
{
    match o {
        None => {},
        Some(t) => {
            if t.id == b {
                assert(!opt_contains(t.neighbor, b));
                lemma_with_bt_contains(t.neighbor, t.bt, b);
            } else if opt_contains(t.child, b) {
                lemma_detach_removes(t.child, b);
                assert(!opt_contains(t.neighbor, b));
                assert(!node_contains(
                    ScenarioNode { child: spec_detach(t.child, b).0, ..*t },
                    b,
                ));
            } else if opt_contains(t.neighbor, b) {
                lemma_detach_removes(t.neighbor, b);
                assert(!node_contains(
                    ScenarioNode { neighbor: spec_detach(t.neighbor, b).0, ..*t },
                    b,
                ));
            } else {
            }
        },
    }
}

/// What attaching under `a` makes reachable: the old contents and the
/// new node, nothing else.
pub proof fn lemma_attach_contains(
    o: Option<Box<ScenarioNode>>,
    a: i32,
    b: ScenarioNode,
    x: i32,
)
    requires
        opt_contains(o, a),
        b.neighbor is None,
    ensures
        opt_contains(spec_attach_child(o, a, b), x) == (opt_contains(o, x) || b.id == x
            || opt_contains(b.child, x)),
    decreases o,
{
    match o {
        None => {},
        Some(t) => {
            if t.id == a {
                reveal_with_fuel(opt_contains, 3);
                reveal_with_fuel(node_contains, 3);
                let bp = ScenarioNode {
                    bt: BranchType::Child,
                    neighbor: with_bt(t.child, BranchType::Neighbor),
                    ..b
                };
                assert(spec_attach_child(o, a, b) == Some(
                    Box::new(ScenarioNode { child: Some(Box::new(bp)), ..*t }),
                ));
                lemma_with_bt_contains(t.child, BranchType::Neighbor, x);
                assert(node_contains(bp, x) == (b.id == x || opt_contains(b.child, x)
                    || opt_contains(t.child, x)));
                assert(opt_contains(spec_attach_child(o, a, b), x) == (t.id == x
                    || node_contains(bp, x) || opt_contains(t.neighbor, x)));
            } else if opt_contains(t.child, a) {
                lemma_attach_contains(t.child, a, b, x);
                assert(opt_contains(spec_attach_child(o, a, b), x) == (t.id == x
                    || opt_contains(spec_attach_child(t.child, a, b), x) || opt_contains(
                    t.neighbor,
                    x,
                )));
            } else {
                assert(opt_contains(t.neighbor, a));
                lemma_attach_contains(t.neighbor, a, b, x);
                assert(opt_contains(spec_attach_child(o, a, b), x) == (t.id == x
                    || opt_contains(t.child, x) || opt_contains(
                    spec_attach_child(t.neighbor, a, b),
                    x,
                )));
            }
        },
    }
}

/// Replacing the top branch role changes what `spec_find` sees only at
/// the very top.
pub proof fn lemma_with_bt_find(o: Option<Box<ScenarioNode>>, bt: BranchType, x: i32)
    ensures
        match o {
            None => spec_find(with_bt(o, bt), x) is None,
            Some(t) => {
                if t.id == x {
                    spec_find(with_bt(o, bt), x) == Some(ScenarioNode { bt, ..*t })
                } else {
                    spec_find(with_bt(o, bt), x) == spec_find(o, x)
                }
            },
        },
{
    match o {
        None => {},
        Some(t) => {
            lemma_with_bt_contains(o, bt, x);
            assert(opt_contains(with_bt(o, bt), x) == opt_contains(o, x));
            if t.id != x {
                lemma_with_bt_contains(t.child, bt, x);
            }
        },
    }
}

/// A node whose child subtree the detached node did not sit in keeps
/// its child link across the detach.
pub proof fn lemma_detach_find_child(o: Option<Box<ScenarioNode>>, b: i32, a: i32)
    requires
        opt_contains(o, a),
        opt_contains(o, b),
        a != b,
        !opt_contains(spec_find(o, a).unwrap().child, b),
        !opt_contains(spec_find(o, b).unwrap().child, a),
    ensures
        opt_contains(spec_detach(o, b).0, a),
        spec_find(spec_detach(o, b).0, a).unwrap().child == spec_find(o, a).unwrap().child,
    decreases o,
{
    lemma_find_detach(o, b);
    lemma_detach_keeps(o, b, a);
    match o {
        None => {},
        Some(t) => {
            if t.id == b {
                lemma_with_bt_find(t.neighbor, t.bt, a);
            } else if opt_contains(t.child, b) {
                if t.id == a {
                    assert(false);
                } else if opt_contains(t.child, a) {
                    lemma_detach_find_child(t.child, b, a);
                } else {
                    if opt_contains(spec_detach(t.child, b).0, a) {
                        lemma_detach_subset(t.child, b, a);
                    }
                }
            } else if opt_contains(t.neighbor, b) {
                if t.id == a {
                } else if opt_contains(t.child, a) {
                } else {
                    lemma_detach_find_child(t.neighbor, b, a);
                }
            } else {
            }
        },
    }
}

/// Every node found in a role-consistent tree has a role-consistent
/// child link.
pub proof fn lemma_find_roles(o: Option<Box<ScenarioNode>>, e: BranchType, x: i32)
    requires
        crate::codec::opt_roles_ok(o, e),
        opt_contains(o, x),
    ensures
        match spec_find(o, x).unwrap().child {
            Some(c) => c.bt == BranchType::Child,
            None => true,
        },
    decreases o,
{
    match o {
        None => {},
        Some(t) => {
            assert(crate::codec::node_roles_ok(*t, e));
            if t.id == x {
                match t.child {
                    Some(c) => {
                        assert(crate::codec::opt_roles_ok(t.child, BranchType::Child));
                        assert(crate::codec::node_roles_ok(*c, BranchType::Child));
                    },
                    None => {},
                }
            } else if opt_contains(t.child, x) {
                lemma_find_roles(t.child, BranchType::Child, x);
            } else {
                lemma_find_roles(t.neighbor, BranchType::Neighbor, x);
            }
        },
    }
}

/// Every node found in a grammatical tree has grammatical links.
pub proof fn lemma_find_grammar(o: Option<Box<ScenarioNode>>, x: i32)
    requires
        opt_grammar_ok(o),
        opt_contains(o, x),
    ensures
        node_grammar_ok(spec_find(o, x).unwrap()),
    decreases o,
{
    match o {
        None => {},
        Some(t) => {
            if t.id == x {
            } else if opt_contains(t.child, x) {
                lemma_find_grammar(t.child, x);
            } else {
                lemma_find_grammar(t.neighbor, x);
            }
        },
    }
}

/// Detaching from a grammatical tree whose splice is legal leaves a
/// grammatical tree behind, and the detached node leaves grammatical.
pub proof fn lemma_detach_grammar(o: Option<Box<ScenarioNode>>, b: i32)
    requires
        opt_grammar_ok(o),
        opt_uniq(o),
        opt_contains(o, b),
        splice_src_ok(o, b),
    ensures
        opt_grammar_ok(spec_detach(o, b).0),
        node_grammar_ok(*spec_detach(o, b).1.unwrap()),
    decreases o,
{
    reveal_with_fuel(opt_contains, 3);
    reveal_with_fuel(node_contains, 3);
    reveal_with_fuel(node_grammar_ok, 3);
    reveal_with_fuel(spec_detach, 3);
    let t = *o.unwrap();
    assert(node_grammar_ok(t));
    lemma_find_detach(o, b);
    if t.id == b {
        assert(node_grammar_ok(strip_neighbor(t)));
        match t.neighbor {
            None => {},
            Some(n) => {
                assert(node_grammar_ok(ScenarioNode { bt: t.bt, ..*n }));
            },
        }
    } else if opt_contains(t.child, b) {
        let c = *t.child.unwrap();
        let (rest_c, det) = spec_detach(t.child, b);
        if c.id == b {
            assert(tree_slot_of(o, b) == Some((Some(t.id), BranchType::Child)));
            assert(spec_find(o, t.id) == Some(t));
            assert(node_grammar_ok(strip_neighbor(c)));
            match c.neighbor {
                None => {
                    assert(node_grammar_ok(ScenarioNode { child: None, ..t }));
                },
                Some(cn) => {
                    assert(ScenarioNode::can_be_child_spec(t.value, cn.value));
                    assert(node_grammar_ok(ScenarioNode { bt: BranchType::Child, ..*cn }));
                    assert(node_grammar_ok(
                        ScenarioNode {
                            child: Some(Box::new(ScenarioNode { bt: BranchType::Child, ..*cn })),
                            ..t
                        },
                    ));
                },
            }
        } else {
            lemma_slot_exists(t.child, b);
            lemma_node_slot_owner_some(c, b);
            assert(tree_slot_of(o, b) == tree_slot_of(t.child, b));
            let p = tree_slot_of(t.child, b).unwrap().0.unwrap();
            lemma_slot_owner_contained(t.child, b);
            assert(opt_contains(t.child, p));
            assert(p != t.id);
            assert(spec_find(o, p) == spec_find(t.child, p));
            assert(splice_src_ok(t.child, b)) by {
                assert(spec_find(o, b) == spec_find(t.child, b));
            }
            lemma_detach_grammar(t.child, b);
            assert(node_grammar_ok(ScenarioNode { child: rest_c, ..t })) by {
                match rest_c {
                    Some(rc) => {
                        assert(rc.id == c.id && rc.value == c.value);
                    },
                    None => {
                        assert(false);
                    },
                }
            }
        }
    } else {
        let n = *t.neighbor.unwrap();
        let (rest_n, det) = spec_detach(t.neighbor, b);
        if n.id == b {
            assert(tree_slot_of(o, b) == Some((Some(t.id), BranchType::Neighbor)));
            assert(spec_find(o, t.id) == Some(t));
            assert(node_grammar_ok(strip_neighbor(n)));
            match n.neighbor {
                None => {
                    assert(node_grammar_ok(ScenarioNode { neighbor: None, ..t }));
                },
                Some(nn) => {
                    assert(ScenarioNode::can_be_neighbor_spec(t.value, nn.value));
                    assert(node_grammar_ok(ScenarioNode { bt: BranchType::Neighbor, ..*nn }));
                    assert(node_grammar_ok(
                        ScenarioNode {
                            neighbor: Some(
                                Box::new(ScenarioNode { bt: BranchType::Neighbor, ..*nn }),
                            ),
                            ..t
                        },
                    ));
                },
            }
        } else {
            lemma_slot_exists(t.neighbor, b);
            lemma_node_slot_owner_some(n, b);
            assert(tree_slot_of(o, b) == tree_slot_of(t.neighbor, b));
            let p = tree_slot_of(t.neighbor, b).unwrap().0.unwrap();
            lemma_slot_owner_contained(t.neighbor, b);
            assert(opt_contains(t.neighbor, p));
            assert(p != t.id);
            assert(!opt_contains(t.child, p));
            assert(spec_find(o, p) == spec_find(t.neighbor, p));
            assert(splice_src_ok(t.neighbor, b)) by {
                assert(spec_find(o, b) == spec_find(t.neighbor, b));
            }
            lemma_detach_grammar(t.neighbor, b);
            assert(node_grammar_ok(ScenarioNode { neighbor: rest_n, ..t })) by {
                match rest_n {
                    Some(rn) => {
                        assert(rn.id == n.id && rn.value == n.value);
                    },
                    None => {
                        assert(false);
                    },
                }
            }
        }
    }
}

/// What holds of a tree a node is about to move back into: if the tree
/// it leaves behind is grammatical, the splice its departure performs
/// is legal; and a demote pair that is legal against the tree left
/// behind is legal against the tree it still stands in.
pub proof fn lemma_detach_back(o2: Option<Box<ScenarioNode>>, b: i32, p: i32)
    requires
        opt_uniq(o2),
        opt_contains(o2, b),
    ensures
        ({
            let (rest, det) = spec_detach(o2, b);
            let d = *det.unwrap();
            &&& (opt_grammar_ok(rest) ==> splice_src_ok(o2, b))
            &&& (opt_contains(rest, p) && attach_child_demote_ok(rest, p, d.value)
                ==> mv_child_demote_ok(o2, p, b))
            &&& (opt_contains(rest, p) && attach_neighbor_demote_ok(rest, p, d.value)
                ==> mv_neighbor_demote_ok(o2, p, b))
        }),
    decreases o2,
{
    reveal_with_fuel(opt_contains, 3);
    reveal_with_fuel(node_contains, 3);
    reveal_with_fuel(node_grammar_ok, 3);
    reveal_with_fuel(spec_detach, 3);
    let t = *o2.unwrap();
    lemma_find_detach(o2, b);
    lemma_detach_removes(o2, b);
    let (rest, det) = spec_detach(o2, b);
    let d = *det.unwrap();
    if t.id == b {
        assert(tree_slot_of(o2, b) == Some((None::<i32>, BranchType::Child)));
        if opt_contains(rest, p) {
            lemma_with_bt_contains(t.neighbor, t.bt, p);
            assert(opt_contains(t.neighbor, p));
            assert(p != t.id);
            assert(!opt_contains(t.child, p));
            assert(spec_find(o2, p) == spec_find(t.neighbor, p));
            match t.neighbor {
                None => {},
                Some(n) => {
                    lemma_with_bt_find(t.neighbor, t.bt, p);
                    if n.id == p {
                        assert(spec_find(rest, p) == Some(ScenarioNode { bt: t.bt, ..*n }));
                    } else {
                        assert(spec_find(rest, p) == spec_find(t.neighbor, p));
                    }
                },
            }
            let pn2 = spec_find(o2, p).unwrap();
            let pnr = spec_find(rest, p).unwrap();
            assert(pn2.child == pnr.child && pn2.neighbor == pnr.neighbor);
            assert(match pn2.child {
                Some(c2) => c2.id != b,
                None => true,
            }) by {
                if pn2.child matches Some(c2) && c2.id == b {
                    assert(node_contains(pn2, b));
                    lemma_find_member(t.neighbor, p, b);
                    assert(opt_contains(t.neighbor, b));
                }
            }
            assert(match pn2.neighbor {
                Some(c2) => c2.id != b,
                None => true,
            }) by {
                if pn2.neighbor matches Some(c2) && c2.id == b {
                    assert(node_contains(pn2, b));
                    lemma_find_member(t.neighbor, p, b);
                    assert(opt_contains(t.neighbor, b));
                }
            }
        }
    } else if opt_contains(t.child, b) {
        let c = *t.child.unwrap();
        let (rest_c, det_c) = spec_detach(t.child, b);
        assert(rest == Some(Box::new(ScenarioNode { child: rest_c, ..t })));
        lemma_detach_removes(t.child, b);
        // the splice conjunct
        if opt_grammar_ok(rest) {
            assert(node_grammar_ok(ScenarioNode { child: rest_c, ..t }));
            if c.id == b {
                assert(tree_slot_of(o2, b) == Some((Some(t.id), BranchType::Child)));
                assert(spec_find(o2, t.id) == Some(t));
                assert(spec_find(o2, b) == Some(c));
                match c.neighbor {
                    None => {},
                    Some(cn) => {
                        assert(rest_c == Some(Box::new(ScenarioNode { bt: c.bt, ..*cn })));
                        assert(ScenarioNode::can_be_child_spec(t.value, cn.value));
                    },
                }
            } else {
                lemma_slot_exists(t.child, b);
                lemma_node_slot_owner_some(c, b);
                assert(tree_slot_of(o2, b) == tree_slot_of(t.child, b));
                let q = tree_slot_of(t.child, b).unwrap().0.unwrap();
                lemma_slot_owner_contained(t.child, b);
                assert(opt_contains(t.child, q));
                assert(q != t.id);
                assert(spec_find(o2, q) == spec_find(t.child, q));
                assert(spec_find(o2, b) == spec_find(t.child, b));
                lemma_detach_back(t.child, b, p);
                assert(opt_grammar_ok(rest_c));
                assert(splice_src_ok(t.child, b));
            }
        }
        // the demote conjuncts
        if opt_contains(rest, p) {
            if p == t.id {
                assert(spec_find(o2, p) == Some(t));
                assert(spec_find(rest, p) == Some(ScenarioNode { child: rest_c, ..t }));
                if c.id == b {
                    assert(spec_find(o2, b) == Some(c));
                    match c.neighbor {
                        None => {
                            assert(rest_c is None);
                        },
                        Some(cn) => {
                            assert(rest_c == Some(Box::new(ScenarioNode { bt: c.bt, ..*cn })));
                        },
                    }
                } else {
                    match rest_c {
                        Some(rc) => {
                            assert(rc.id == c.id && rc.value == c.value);
                            assert(c.id != b);
                        },
                        None => {
                            assert(false);
                        },
                    }
                }
            } else if opt_contains(rest_c, p) {
                lemma_detach_subset(t.child, b, p);
                lemma_detach_back(t.child, b, p);
                assert(spec_find(o2, p) == spec_find(t.child, p));
                assert(spec_find(rest, p) == spec_find(rest_c, p));
                assert(spec_find(o2, b) == spec_find(t.child, b));
            } else {
                assert(opt_contains(t.neighbor, p));
                assert(spec_find(o2, p) == spec_find(t.neighbor, p));
                assert(spec_find(rest, p) == spec_find(t.neighbor, p));
                let pn2 = spec_find(o2, p).unwrap();
                assert(match pn2.child {
                    Some(c2) => c2.id != b,
                    None => true,
                }) by {
                    if pn2.child matches Some(c2) && c2.id == b {
                        assert(node_contains(pn2, b));
                        lemma_find_member(t.neighbor, p, b);
                        assert(opt_contains(t.neighbor, b));
                    }
                }
                assert(match pn2.neighbor {
                    Some(c2) => c2.id != b,
                    None => true,
                }) by {
                    if pn2.neighbor matches Some(c2) && c2.id == b {
                        assert(node_contains(pn2, b));
                        lemma_find_member(t.neighbor, p, b);
                        assert(opt_contains(t.neighbor, b));
                    }
                }
            }
        }
    } else {
        let n = *t.neighbor.unwrap();
        let (rest_n, det_n) = spec_detach(t.neighbor, b);
        assert(rest == Some(Box::new(ScenarioNode { neighbor: rest_n, ..t })));
        lemma_detach_removes(t.neighbor, b);
        if opt_grammar_ok(rest) {
            assert(node_grammar_ok(ScenarioNode { neighbor: rest_n, ..t }));
            if n.id == b {
                assert(tree_slot_of(o2, b) == Some((Some(t.id), BranchType::Neighbor)));
                assert(spec_find(o2, t.id) == Some(t));
                assert(spec_find(o2, b) == Some(n));
                match n.neighbor {
                    None => {},
                    Some(nn) => {
                        assert(rest_n == Some(Box::new(ScenarioNode { bt: n.bt, ..*nn })));
                        assert(ScenarioNode::can_be_neighbor_spec(t.value, nn.value));
                    },
                }
            } else {
                lemma_slot_exists(t.neighbor, b);
                lemma_node_slot_owner_some(n, b);
                assert(tree_slot_of(o2, b) == tree_slot_of(t.neighbor, b));
                let q = tree_slot_of(t.neighbor, b).unwrap().0.unwrap();
                lemma_slot_owner_contained(t.neighbor, b);
                assert(opt_contains(t.neighbor, q));
                assert(q != t.id);
                assert(!opt_contains(t.child, q));
                assert(spec_find(o2, q) == spec_find(t.neighbor, q));
                assert(spec_find(o2, b) == spec_find(t.neighbor, b));
                lemma_detach_back(t.neighbor, b, p);
                assert(opt_grammar_ok(rest_n));
                assert(splice_src_ok(t.neighbor, b));
            }
        }
        if opt_contains(rest, p) {
            if p == t.id {
                assert(spec_find(o2, p) == Some(t));
                assert(spec_find(rest, p) == Some(ScenarioNode { neighbor: rest_n, ..t }));
                if n.id == b {
                    assert(spec_find(o2, b) == Some(n));
                    match n.neighbor {
                        None => {
                            assert(rest_n is None);
                        },
                        Some(nn) => {
                            assert(rest_n == Some(Box::new(ScenarioNode { bt: n.bt, ..*nn })));
                        },
                    }
                } else {
                    match rest_n {
                        Some(rn) => {
                            assert(rn.id == n.id && rn.value == n.value);
                            assert(n.id != b);
                        },
                        None => {
                            assert(false);
                        },
                    }
                }
            } else if opt_contains(t.child, p) {
                assert(spec_find(o2, p) == spec_find(t.child, p));
                assert(spec_find(rest, p) == spec_find(t.child, p));
                let pn2 = spec_find(o2, p).unwrap();
                assert(match pn2.child {
                    Some(c2) => c2.id != b,
                    None => true,
                }) by {
                    if pn2.child matches Some(c2) && c2.id == b {
                        assert(node_contains(pn2, b));
                        lemma_find_member(t.child, p, b);
                        assert(opt_contains(t.child, b));
                    }
                }
                assert(match pn2.neighbor {
                    Some(c2) => c2.id != b,
                    None => true,
                }) by {
                    if pn2.neighbor matches Some(c2) && c2.id == b {
                        assert(node_contains(pn2, b));
                        lemma_find_member(t.child, p, b);
                        assert(opt_contains(t.child, b));
                    }
                }
            } else {
                assert(opt_contains(rest_n, p));
                lemma_detach_subset(t.neighbor, b, p);
                lemma_detach_back(t.neighbor, b, p);
                assert(spec_find(o2, p) == spec_find(t.neighbor, p));
                assert(spec_find(rest, p) == spec_find(rest_n, p));
                assert(spec_find(o2, b) == spec_find(t.neighbor, b));
            }
        }
    }
}

/// What carries over into the tree a node leaves behind: items stay
/// where the search finds them, and a demote pair legal against the old
/// tree is legal against the remainder.
pub proof fn lemma_detach_fwd(o: Option<Box<ScenarioNode>>, b: i32, x: i32)
    requires
        opt_uniq(o),
        opt_contains(o, b),
    ensures
        ({
            let (rest, det) = spec_detach(o, b);
            let d = *det.unwrap();
            &&& (opt_contains(rest, x) ==> spec_find(rest, x).unwrap().value == spec_find(
                o,
                x,
            ).unwrap().value)
            &&& (opt_contains(rest, x) && mv_child_demote_ok(o, x, b)
                ==> attach_child_demote_ok(rest, x, d.value))
            &&& (opt_contains(rest, x) && mv_neighbor_demote_ok(o, x, b)
                ==> attach_neighbor_demote_ok(rest, x, d.value))
        }),
    decreases o,
{
    reveal_with_fuel(opt_contains, 3);
    reveal_with_fuel(node_contains, 3);
    reveal_with_fuel(spec_detach, 3);
    let t = *o.unwrap();
    lemma_find_detach(o, b);
    lemma_detach_removes(o, b);
    let (rest, det) = spec_detach(o, b);
    let d = *det.unwrap();
    if !opt_contains(rest, x) {
        return ;
    }
    if t.id == b {
        lemma_with_bt_contains(t.neighbor, t.bt, x);
        assert(opt_contains(t.neighbor, x));
        assert(x != t.id);
        assert(!opt_contains(t.child, x));
        assert(spec_find(o, x) == spec_find(t.neighbor, x));
        match t.neighbor {
            None => {},
            Some(n) => {
                lemma_with_bt_find(t.neighbor, t.bt, x);
            },
        }
        let xn = spec_find(o, x).unwrap();
        assert(spec_find(rest, x).unwrap().child == xn.child && spec_find(
            rest,
            x,
        ).unwrap().neighbor == xn.neighbor);
        assert(match xn.child {
            Some(c2) => c2.id != b,
            None => true,
        }) by {
            if xn.child matches Some(c2) && c2.id == b {
                assert(node_contains(xn, b));
                lemma_find_member(t.neighbor, x, b);
            }
        }
        assert(match xn.neighbor {
            Some(c2) => c2.id != b,
            None => true,
        }) by {
            if xn.neighbor matches Some(c2) && c2.id == b {
                assert(node_contains(xn, b));
                lemma_find_member(t.neighbor, x, b);
            }
        }
    } else if opt_contains(t.child, b) {
        let c = *t.child.unwrap();
        let (rest_c, det_c) = spec_detach(t.child, b);
        assert(rest == Some(Box::new(ScenarioNode { child: rest_c, ..t })));
        lemma_detach_removes(t.child, b);
        if x == t.id {
            assert(spec_find(o, x) == Some(t));
            assert(spec_find(rest, x) == Some(ScenarioNode { child: rest_c, ..t }));
            if c.id == b {
                assert(spec_find(o, b) == Some(c));
                match c.neighbor {
                    None => {
                        assert(rest_c is None);
                    },
                    Some(cn) => {
                        assert(rest_c == Some(Box::new(ScenarioNode { bt: c.bt, ..*cn })));
                    },
                }
            } else {
                match rest_c {
                    Some(rc) => {
                        assert(rc.id == c.id && rc.value == c.value);
                        assert(c.id != b);
                    },
                    None => {
                        assert(false);
                    },
                }
            }
            assert(match t.neighbor {
                Some(c2) => c2.id != b,
                None => true,
            }) by {
                if t.neighbor matches Some(c2) && c2.id == b {
                    assert(opt_contains(t.neighbor, b));
                }
            }
        } else if opt_contains(rest_c, x) {
            lemma_detach_subset(t.child, b, x);
            lemma_detach_fwd(t.child, b, x);
            assert(spec_find(o, x) == spec_find(t.child, x));
            assert(spec_find(rest, x) == spec_find(rest_c, x));
            assert(spec_find(o, b) == spec_find(t.child, b));
        } else {
            assert(opt_contains(t.neighbor, x));
            assert(spec_find(o, x) == spec_find(t.neighbor, x));
            assert(spec_find(rest, x) == spec_find(t.neighbor, x));
            let xn = spec_find(o, x).unwrap();
            assert(match xn.child {
                Some(c2) => c2.id != b,
                None => true,
            }) by {
                if xn.child matches Some(c2) && c2.id == b {
                    assert(node_contains(xn, b));
                    lemma_find_member(t.neighbor, x, b);
                    assert(opt_contains(t.neighbor, b));
                }
            }
            assert(match xn.neighbor {
                Some(c2) => c2.id != b,
                None => true,
            }) by {
                if xn.neighbor matches Some(c2) && c2.id == b {
                    assert(node_contains(xn, b));
                    lemma_find_member(t.neighbor, x, b);
                    assert(opt_contains(t.neighbor, b));
                }
            }
        }
    } else {
        let n = *t.neighbor.unwrap();
        let (rest_n, det_n) = spec_detach(t.neighbor, b);
        assert(rest == Some(Box::new(ScenarioNode { neighbor: rest_n, ..t })));
        lemma_detach_removes(t.neighbor, b);
        if x == t.id {
            assert(spec_find(o, x) == Some(t));
            assert(spec_find(rest, x) == Some(ScenarioNode { neighbor: rest_n, ..t }));
            if n.id == b {
                assert(spec_find(o, b) == Some(n));
                match n.neighbor {
                    None => {
                        assert(rest_n is None);
                    },
                    Some(nn) => {
                        assert(rest_n == Some(Box::new(ScenarioNode { bt: n.bt, ..*nn })));
                    },
                }
            } else {
                match rest_n {
                    Some(rn) => {
                        assert(rn.id == n.id && rn.value == n.value);
                        assert(n.id != b);
                    },
                    None => {
                        assert(false);
                    },
                }
            }
            assert(match t.child {
                Some(c2) => c2.id != b,
                None => true,
            }) by {
                if t.child matches Some(c2) && c2.id == b {
                    assert(opt_contains(t.child, b));
                }
            }
        } else if opt_contains(t.child, x) {
            assert(spec_find(o, x) == spec_find(t.child, x));
            assert(spec_find(rest, x) == spec_find(t.child, x));
            let xn = spec_find(o, x).unwrap();
            assert(match xn.child {
                Some(c2) => c2.id != b,
                None => true,
            }) by {
                if xn.child matches Some(c2) && c2.id == b {
                    assert(node_contains(xn, b));
                    lemma_find_member(t.child, x, b);
                    assert(opt_contains(t.child, b));
                }
            }
            assert(match xn.neighbor {
                Some(c2) => c2.id != b,
                None => true,
            }) by {
                if xn.neighbor matches Some(c2) && c2.id == b {
                    assert(node_contains(xn, b));
                    lemma_find_member(t.child, x, b);
                    assert(opt_contains(t.child, b));
                }
            }
        } else {
            assert(opt_contains(rest_n, x));
            lemma_detach_subset(t.neighbor, b, x);
            lemma_detach_fwd(t.neighbor, b, x);
            assert(spec_find(o, x) == spec_find(t.neighbor, x));
            assert(spec_find(rest, x) == spec_find(rest_n, x));
            assert(spec_find(o, b) == spec_find(t.neighbor, b));
        }
    }
}

/// Attaching a grammatical node under a legal parent, above a sibling
/// it may precede, keeps the tree grammatical.
pub proof fn lemma_attach_child_grammar(o: Option<Box<ScenarioNode>>, a: i32, d: ScenarioNode)
    requires
        opt_grammar_ok(o),
        opt_contains(o, a),
        node_grammar_ok(d),
        d.neighbor is None,
        ScenarioNode::can_be_child_spec(spec_find(o, a).unwrap().value, d.value),
        attach_child_demote_ok(o, a, d.value),
    ensures
        opt_grammar_ok(spec_attach_child(o, a, d)),
    decreases o,
{
    reveal_with_fuel(node_grammar_ok, 3);
    let t = *o.unwrap();
    assert(node_grammar_ok(t));
    if t.id == a {
        assert(spec_find(o, a) == Some(t));
        let dp = ScenarioNode {
            bt: BranchType::Child,
            neighbor: with_bt(t.child, BranchType::Neighbor),
            ..d
        };
        assert(node_grammar_ok(dp)) by {
            match t.child {
                Some(c) => {
                    assert(node_grammar_ok(ScenarioNode { bt: BranchType::Neighbor, ..*c }));
                },
                None => {},
            }
        }
        assert(node_grammar_ok(ScenarioNode { child: Some(Box::new(dp)), ..t }));
    } else if opt_contains(t.child, a) {
        assert(spec_find(o, a) == spec_find(t.child, a));
        lemma_attach_child_grammar(t.child, a, d);
        let c2 = spec_attach_child(t.child, a, d);
        assert(node_grammar_ok(ScenarioNode { child: c2, ..t })) by {
            let c = *t.child.unwrap();
            assert(c2 is Some);
            assert(c2.unwrap().value == c.value);
        }
    } else {
        assert(opt_contains(t.neighbor, a));
        assert(spec_find(o, a) == spec_find(t.neighbor, a));
        lemma_attach_child_grammar(t.neighbor, a, d);
        let n2 = spec_attach_child(t.neighbor, a, d);
        assert(node_grammar_ok(ScenarioNode { neighbor: n2, ..t })) by {
            let n = *t.neighbor.unwrap();
            assert(n2 is Some);
            assert(n2.unwrap().value == n.value);
        }
    }
}

/// Attaching a grammatical node behind a sibling it may follow, above
/// one it may precede, keeps the tree grammatical.
pub proof fn lemma_attach_neighbor_grammar(o: Option<Box<ScenarioNode>>, a: i32, d: ScenarioNode)
    requires
        opt_grammar_ok(o),
        opt_contains(o, a),
        node_grammar_ok(d),
        d.neighbor is None,
        ScenarioNode::can_be_neighbor_spec(spec_find(o, a).unwrap().value, d.value),
        attach_neighbor_demote_ok(o, a, d.value),
    ensures
        opt_grammar_ok(spec_attach_neighbor(o, a, d)),
    decreases o,
{
    reveal_with_fuel(node_grammar_ok, 3);
    let t = *o.unwrap();
    assert(node_grammar_ok(t));
    if t.id == a {
        assert(spec_find(o, a) == Some(t));
        let dp = ScenarioNode {
            bt: BranchType::Neighbor,
            neighbor: with_bt(t.neighbor, BranchType::Neighbor),
            ..d
        };
        assert(node_grammar_ok(dp)) by {
            match t.neighbor {
                Some(n) => {
                    assert(node_grammar_ok(ScenarioNode { bt: BranchType::Neighbor, ..*n }));
                },
                None => {},
            }
        }
        assert(node_grammar_ok(ScenarioNode { neighbor: Some(Box::new(dp)), ..t }));
    } else if opt_contains(t.child, a) {
        assert(spec_find(o, a) == spec_find(t.child, a));
        lemma_attach_neighbor_grammar(t.child, a, d);
        let c2 = spec_attach_neighbor(t.child, a, d);
        assert(node_grammar_ok(ScenarioNode { child: c2, ..t })) by {
            let c = *t.child.unwrap();
            assert(c2 is Some);
            assert(c2.unwrap().value == c.value);
        }
    } else {
        assert(opt_contains(t.neighbor, a));
        assert(spec_find(o, a) == spec_find(t.neighbor, a));
        lemma_attach_neighbor_grammar(t.neighbor, a, d);
        let n2 = spec_attach_neighbor(t.neighbor, a, d);
        assert(node_grammar_ok(ScenarioNode { neighbor: n2, ..t })) by {
            let n = *t.neighbor.unwrap();
            assert(n2 is Some);
            assert(n2.unwrap().value == n.value);
        }
    }
}

/// The grammar bookkeeping invariant: a child or sibling move on a
/// grammatical tree of distinct ids leaves every link a pair the
/// grammar allows — the preconditions refuse any move that would break
/// one, at the destination or at the splice it leaves behind.
pub proof fn lemma_mv_preserves_grammar(o: Option<Box<ScenarioNode>>, a: i32, b: i32)
    requires
        opt_uniq(o),
        opt_grammar_ok(o),
    ensures
        mv_child_ok(o, a, b) ==> opt_grammar_ok(spec_mv_child(o, a, b)),
        mv_neighbor_ok(o, a, b) ==> opt_grammar_ok(spec_mv_neighbor(o, a, b)),
{
    if mv_child_ok(o, a, b) || mv_neighbor_ok(o, a, b) {
        lemma_find_detach(o, b);
        lemma_find_id(o, b);
        lemma_detach_keeps(o, b, a);
        lemma_detach_removes(o, b);
        lemma_detach_grammar(o, b);
        lemma_detach_fwd(o, b, a);
        let (rest, det) = spec_detach(o, b);
        let d = *det.unwrap();
        if mv_child_ok(o, a, b) {
            lemma_attach_child_grammar(rest, a, d);
        }
        if mv_neighbor_ok(o, a, b) {
            lemma_attach_neighbor_grammar(rest, a, d);
        }
    }
}

/// Detaching a freshly attached child undoes the attach exactly: the
/// tree comes back, and the node leaves in the `Child` role with no
/// neighbor.
pub proof fn lemma_attach_child_detach(o: Option<Box<ScenarioNode>>, a: i32, nb: ScenarioNode)
    requires
        opt_contains(o, a),
        !opt_contains(o, nb.id),
        nb.id != a,
        match spec_find(o, a).unwrap().child {
            Some(c) => c.bt == BranchType::Child,
            None => true,
        },
    ensures
        spec_detach(spec_attach_child(o, a, nb), nb.id) == (
            o,
            Some(Box::new(ScenarioNode { bt: BranchType::Child, neighbor: None, ..nb })),
        ),
    decreases o,
{
    match o {
        None => {},
        Some(t) => {
            reveal_with_fuel(opt_contains, 3);
            reveal_with_fuel(node_contains, 3);
            reveal_with_fuel(spec_detach, 3);
            if t.id == a {
                let nbp = ScenarioNode {
                    bt: BranchType::Child,
                    neighbor: with_bt(t.child, BranchType::Neighbor),
                    ..nb
                };
                let t2 = ScenarioNode { child: Some(Box::new(nbp)), ..*t };
                let o2 = spec_attach_child(o, a, nb);
                assert(o2 == Some(Box::new(t2)));
                assert(t2.id != nb.id);
                assert(node_contains(nbp, nb.id));
                assert(opt_contains(t2.child, nb.id));
                assert(spec_detach(t2.child, nb.id) == (
                    with_bt(nbp.neighbor, BranchType::Child),
                    Some(Box::new(strip_neighbor(nbp))),
                ));
                assert(with_bt(with_bt(t.child, BranchType::Neighbor), BranchType::Child)
                    == t.child) by {
                    match t.child {
                        Some(c) => {
                            assert(c.bt == BranchType::Child);
                        },
                        None => {},
                    }
                }
                assert(spec_detach(o2, nb.id) == (
                    Some(Box::new(ScenarioNode { child: t.child, ..t2 })),
                    Some(Box::new(strip_neighbor(nbp))),
                ));
                assert(ScenarioNode { child: t.child, ..t2 } == *t);
                assert(strip_neighbor(nbp) == (ScenarioNode {
                    bt: BranchType::Child,
                    neighbor: None,
                    ..nb
                }));
            } else if opt_contains(t.child, a) {
                lemma_attach_child_ignores_neighbor(t.child, a, nb);
                lemma_attach_contains(
                    t.child,
                    a,
                    ScenarioNode { neighbor: None, ..nb },
                    nb.id,
                );
                lemma_attach_child_detach(t.child, a, nb);
                let o2 = spec_attach_child(o, a, nb);
                assert(o2 == Some(
                    Box::new(ScenarioNode { child: spec_attach_child(t.child, a, nb), ..*t }),
                ));
                assert(opt_contains(spec_attach_child(t.child, a, nb), nb.id));
                assert(!opt_contains(t.child, nb.id));
                assert(spec_detach(o2, nb.id) == (
                    Some(Box::new(ScenarioNode { child: t.child, ..*t })),
                    Some(Box::new(ScenarioNode { bt: BranchType::Child, neighbor: None, ..nb })),
                ));
                assert(Some(Box::new(ScenarioNode { child: t.child, ..*t })) == o);
            } else {
                assert(opt_contains(t.neighbor, a));
                lemma_attach_child_ignores_neighbor(t.neighbor, a, nb);
                lemma_attach_contains(
                    t.neighbor,
                    a,
                    ScenarioNode { neighbor: None, ..nb },
                    nb.id,
                );
                lemma_attach_child_detach(t.neighbor, a, nb);
                let o2 = spec_attach_child(o, a, nb);
                assert(o2 == Some(
                    Box::new(ScenarioNode { neighbor: spec_attach_child(t.neighbor, a, nb), ..*t }),
                ));
                assert(opt_contains(spec_attach_child(t.neighbor, a, nb), nb.id));
                assert(!opt_contains(t.child, nb.id));
                assert(spec_detach(o2, nb.id) == (
                    Some(Box::new(ScenarioNode { neighbor: t.neighbor, ..*t })),
                    Some(Box::new(ScenarioNode { bt: BranchType::Child, neighbor: None, ..nb })),
                ));
                assert(Some(Box::new(ScenarioNode { neighbor: t.neighbor, ..*t })) == o);
            }
        },
    }
}

/// Attaching as a child overwrites the node's neighbor link, so what
/// that link held beforehand makes no difference.
pub proof fn lemma_attach_child_ignores_neighbor(
    o: Option<Box<ScenarioNode>>,
    a: i32,
    nb: ScenarioNode,
)
    ensures
        spec_attach_child(o, a, ScenarioNode { neighbor: None, ..nb }) == spec_attach_child(
            o,
            a,
            nb,
        ),
    decreases o,
{
    match o {
        None => {},
        Some(t) => {
            if t.id == a {
            } else if opt_contains(t.child, a) {
                lemma_attach_child_ignores_neighbor(t.child, a, nb);
            } else {
                lemma_attach_child_ignores_neighbor(t.neighbor, a, nb);
            }
        },
    }
}

/// Every node found in a role-consistent tree has a role-consistent
/// neighbor link.
pub proof fn lemma_find_roles_neighbor(o: Option<Box<ScenarioNode>>, e: BranchType, x: i32)
    requires
        crate::codec::opt_roles_ok(o, e),
        opt_contains(o, x),
    ensures
        match spec_find(o, x).unwrap().neighbor {
            Some(n) => n.bt == BranchType::Neighbor,
            None => true,
        },
    decreases o,
{
    match o {
        None => {},
        Some(t) => {
            assert(crate::codec::node_roles_ok(*t, e));
            if t.id == x {
                match t.neighbor {
                    Some(n) => {
                        assert(crate::codec::opt_roles_ok(t.neighbor, BranchType::Neighbor));
                        assert(crate::codec::node_roles_ok(*n, BranchType::Neighbor));
                    },
                    None => {},
                }
            } else if opt_contains(t.child, x) {
                lemma_find_roles_neighbor(t.child, BranchType::Child, x);
            } else {
                lemma_find_roles_neighbor(t.neighbor, BranchType::Neighbor, x);
            }
        },
    }
}

/// Attaching as a sibling overwrites the node's neighbor link, so what
/// that link held beforehand makes no difference.
pub proof fn lemma_attach_neighbor_ignores_neighbor(
    o: Option<Box<ScenarioNode>>,
    a: i32,
    nb: ScenarioNode,
)
    ensures
        spec_attach_neighbor(o, a, ScenarioNode { neighbor: None, ..nb }) == spec_attach_neighbor(
            o,
            a,
            nb,
        ),
    decreases o,
{
    match o {
        None => {},
        Some(t) => {
            if t.id == a {
            } else if opt_contains(t.child, a) {
                lemma_attach_neighbor_ignores_neighbor(t.child, a, nb);
            } else {
                lemma_attach_neighbor_ignores_neighbor(t.neighbor, a, nb);
            }
        },
    }
}

/// What attaching after `a` makes reachable: the old contents and the
/// new node, nothing else.
pub proof fn lemma_attach_neighbor_contains(
    o: Option<Box<ScenarioNode>>,
    a: i32,
    b: ScenarioNode,
    x: i32,
)
    requires
        opt_contains(o, a),
        b.neighbor is None,
    ensures
        opt_contains(spec_attach_neighbor(o, a, b), x) == (opt_contains(o, x) || b.id == x
            || opt_contains(b.child, x)),
    decreases o,
{
    match o {
        None => {},
        Some(t) => {
            if t.id == a {
                reveal_with_fuel(opt_contains, 3);
                reveal_with_fuel(node_contains, 3);
                let bp = ScenarioNode {
                    bt: BranchType::Neighbor,
                    neighbor: with_bt(t.neighbor, BranchType::Neighbor),
                    ..b
                };
                assert(spec_attach_neighbor(o, a, b) == Some(
                    Box::new(ScenarioNode { neighbor: Some(Box::new(bp)), ..*t }),
                ));
                lemma_with_bt_contains(t.neighbor, BranchType::Neighbor, x);
                assert(node_contains(bp, x) == (b.id == x || opt_contains(b.child, x)
                    || opt_contains(t.neighbor, x)));
                assert(opt_contains(spec_attach_neighbor(o, a, b), x) == (t.id == x
                    || opt_contains(t.child, x) || node_contains(bp, x)));
            } else if opt_contains(t.child, a) {
                lemma_attach_neighbor_contains(t.child, a, b, x);
                assert(opt_contains(spec_attach_neighbor(o, a, b), x) == (t.id == x
                    || opt_contains(spec_attach_neighbor(t.child, a, b), x) || opt_contains(
                    t.neighbor,
                    x,
                )));
            } else {
                assert(opt_contains(t.neighbor, a));
                lemma_attach_neighbor_contains(t.neighbor, a, b, x);
                assert(opt_contains(spec_attach_neighbor(o, a, b), x) == (t.id == x
                    || opt_contains(t.child, x) || opt_contains(
                    spec_attach_neighbor(t.neighbor, a, b),
                    x,
                )));
            }
        },
    }
}

/// Detaching a freshly attached sibling undoes the attach exactly: the
/// tree comes back, and the node leaves in the `Neighbor` role with no
/// neighbor.
pub proof fn lemma_attach_neighbor_detach(o: Option<Box<ScenarioNode>>, a: i32, nb: ScenarioNode)
    requires
        opt_contains(o, a),
        !opt_contains(o, nb.id),
        nb.id != a,
        match spec_find(o, a).unwrap().neighbor {
            Some(n) => n.bt == BranchType::Neighbor,
            None => true,
        },
    ensures
        spec_detach(spec_attach_neighbor(o, a, nb), nb.id) == (
            o,
            Some(Box::new(ScenarioNode { bt: BranchType::Neighbor, neighbor: None, ..nb })),
        ),
    decreases o,
{
    match o {
        None => {},
        Some(t) => {
            reveal_with_fuel(opt_contains, 3);
            reveal_with_fuel(node_contains, 3);
            reveal_with_fuel(spec_detach, 3);
            if t.id == a {
                let nbp = ScenarioNode {
                    bt: BranchType::Neighbor,
                    neighbor: with_bt(t.neighbor, BranchType::Neighbor),
                    ..nb
                };
                let t2 = ScenarioNode { neighbor: Some(Box::new(nbp)), ..*t };
                let o2 = spec_attach_neighbor(o, a, nb);
                assert(o2 == Some(Box::new(t2)));
                assert(t2.id != nb.id);
                assert(node_contains(nbp, nb.id));
                assert(opt_contains(t2.neighbor, nb.id));
                assert(!opt_contains(t2.child, nb.id));
                assert(spec_detach(t2.neighbor, nb.id) == (
                    with_bt(nbp.neighbor, BranchType::Neighbor),
                    Some(Box::new(strip_neighbor(nbp))),
                ));
                assert(with_bt(with_bt(t.neighbor, BranchType::Neighbor), BranchType::Neighbor)
                    == t.neighbor) by {
                    match t.neighbor {
                        Some(n) => {
                            assert(n.bt == BranchType::Neighbor);
                        },
                        None => {},
                    }
                }
                assert(spec_detach(o2, nb.id) == (
                    Some(Box::new(ScenarioNode { neighbor: t.neighbor, ..t2 })),
                    Some(Box::new(strip_neighbor(nbp))),
                ));
                assert(ScenarioNode { neighbor: t.neighbor, ..t2 } == *t);
                assert(strip_neighbor(nbp) == (ScenarioNode {
                    bt: BranchType::Neighbor,
                    neighbor: None,
                    ..nb
                }));
            } else if opt_contains(t.child, a) {
                lemma_attach_neighbor_ignores_neighbor(t.child, a, nb);
                lemma_attach_neighbor_contains(
                    t.child,
                    a,
                    ScenarioNode { neighbor: None, ..nb },
                    nb.id,
                );
                lemma_attach_neighbor_detach(t.child, a, nb);
                let o2 = spec_attach_neighbor(o, a, nb);
                assert(o2 == Some(
                    Box::new(ScenarioNode { child: spec_attach_neighbor(t.child, a, nb), ..*t }),
                ));
                assert(opt_contains(spec_attach_neighbor(t.child, a, nb), nb.id));
                assert(spec_detach(o2, nb.id) == (
                    Some(Box::new(ScenarioNode { child: t.child, ..*t })),
                    Some(
                        Box::new(ScenarioNode { bt: BranchType::Neighbor, neighbor: None, ..nb }),
                    ),
                ));
                assert(Some(Box::new(ScenarioNode { child: t.child, ..*t })) == o);
            } else {
                assert(opt_contains(t.neighbor, a));
                lemma_attach_neighbor_ignores_neighbor(t.neighbor, a, nb);
                lemma_attach_neighbor_contains(
                    t.neighbor,
                    a,
                    ScenarioNode { neighbor: None, ..nb },
                    nb.id,
                );
                lemma_attach_neighbor_detach(t.neighbor, a, nb);
                let o2 = spec_attach_neighbor(o, a, nb);
                assert(o2 == Some(
                    Box::new(
                        ScenarioNode { neighbor: spec_attach_neighbor(t.neighbor, a, nb), ..*t },
                    ),
                ));
                assert(opt_contains(spec_attach_neighbor(t.neighbor, a, nb), nb.id));
                assert(!opt_contains(t.child, nb.id));
                assert(spec_detach(o2, nb.id) == (
                    Some(Box::new(ScenarioNode { neighbor: t.neighbor, ..*t })),
                    Some(
                        Box::new(ScenarioNode { bt: BranchType::Neighbor, neighbor: None, ..nb }),
                    ),
                ));
                assert(Some(Box::new(ScenarioNode { neighbor: t.neighbor, ..*t })) == o);
            }
        },
    }
}

proof fn lemma_node_slot_owner_some(t: ScenarioNode, b: i32)
    requires
        node_slot_of(t, b) is Some,
    ensures
        node_slot_of(t, b).unwrap().0 is Some,
    decreases t,
{
    if opt_contains(t.child, b) {
        match t.child {
            Some(c) => {
                if c.id != b {
                    lemma_node_slot_owner_some(*c, b);
                }
            },
            None => {},
        }
    } else if opt_contains(t.neighbor, b) {
        match t.neighbor {
            Some(n) => {
                if n.id != b {
                    lemma_node_slot_owner_some(*n, b);
                }
            },
            None => {},
        }
    }
}

/// Inverse law for removal: in a well-formed tree (distinct ids,
/// consistent branch roles, grammar respected on every link), splicing
/// a node out and re-attaching it at its recorded slot restores the
/// tree exactly.  `e` is the branch role the top of the slot is reached
/// through; a `Neighbor`-role suffix can only have inner nodes removed.
pub proof fn lemma_detach_attach_at(o: Option<Box<ScenarioNode>>, b: i32, e: BranchType)
    requires
        opt_uniq(o),
        crate::codec::opt_roles_ok(o, e),
        opt_grammar_ok(o),
        opt_contains(o, b),
        e == BranchType::Child || (o matches Some(t) && t.id != b),
    ensures
        ({
            let (rest, det) = spec_detach(o, b);
            let slot = tree_slot_of(o, b).unwrap();
            spec_attach_at(rest, slot.0, slot.1, *det.unwrap()) == Some(o)
        }),
    decreases o,
{
    reveal_with_fuel(opt_contains, 3);
    reveal_with_fuel(node_contains, 3);
    reveal_with_fuel(spec_detach, 3);
    let t = *o.unwrap();
    assert(crate::codec::node_roles_ok(t, e));
    assert(node_grammar_ok(t));
    assert(node_uniq(t));
    if t.id == b {
        assert(e == BranchType::Child);
        assert(t.bt == BranchType::Child);
        let d = strip_neighbor(t);
        assert(spec_detach(o, b).1 == Some(Box::new(d)));
        match t.neighbor {
            None => {
                assert(spec_detach(o, b).0 is None);
                assert((ScenarioNode { bt: BranchType::Child, ..d }) == t);
            },
            Some(n) => {
                assert(crate::codec::node_roles_ok(*n, BranchType::Neighbor));
                assert(n.bt == BranchType::Neighbor);
                let rt = ScenarioNode { bt: BranchType::Child, ..*n };
                let rest = spec_detach(o, b).0;
                assert(rest == Some(Box::new(rt)));
                assert(ScenarioNode::can_be_neighbor_spec(d.value, rt.value));
                assert(spec_insert_before(rest, rt.id, d) == Some(
                    Box::new(
                        ScenarioNode {
                            value: d.value,
                            bt: BranchType::Child,
                            id: d.id,
                            child: d.child,
                            neighbor: Some(
                                Box::new(ScenarioNode { bt: BranchType::Neighbor, ..rt }),
                            ),
                        },
                    ),
                ));
                assert((ScenarioNode { bt: BranchType::Neighbor, ..rt }) == *n);
                assert(spec_insert_before(rest, rt.id, d) == o);
            },
        }
    } else if opt_contains(t.child, b) {
        let c = *t.child.unwrap();
        assert(crate::codec::node_roles_ok(c, BranchType::Child));
        assert(node_grammar_ok(c));
        let (rest_c, det) = spec_detach(t.child, b);
        let rest = spec_detach(o, b).0;
        assert(rest == Some(Box::new(ScenarioNode { child: rest_c, ..t })));
        assert(spec_detach(o, b).1 == det);
        if c.id == b {
            let d = strip_neighbor(c);
            assert(det == Some(Box::new(d)));
            assert(tree_slot_of(o, b) == Some((Some(t.id), BranchType::Child)));
            assert(rest_c == with_bt(c.neighbor, BranchType::Child));
            assert(opt_contains(rest, t.id));
            assert(spec_find(rest, t.id) == Some(ScenarioNode { child: rest_c, ..t }));
            assert(ScenarioNode::can_be_child_spec(t.value, d.value));
            assert(spec_attach_child(rest, t.id, d) == Some(
                Box::new(
                    ScenarioNode {
                        child: Some(
                            Box::new(
                                ScenarioNode {
                                    bt: BranchType::Child,
                                    neighbor: with_bt(rest_c, BranchType::Neighbor),
                                    ..d
                                },
                            ),
                        ),
                        ..t
                    },
                ),
            ));
            assert(with_bt(with_bt(c.neighbor, BranchType::Child), BranchType::Neighbor)
                == c.neighbor) by {
                match c.neighbor {
                    Some(cn) => {
                        assert(crate::codec::node_roles_ok(*cn, BranchType::Neighbor));
                    },
                    None => {},
                }
            }
            assert((ScenarioNode {
                bt: BranchType::Child,
                neighbor: c.neighbor,
                ..d
            }) == c);
            assert(attach_child_demote_ok(rest, t.id, d.value)) by {
                match c.neighbor {
                    Some(cn) => {
                        assert(ScenarioNode::can_be_neighbor_spec(c.value, cn.value));
                    },
                    None => {},
                }
            }
            assert(spec_attach_child(rest, t.id, d) == o);
        } else {
            lemma_slot_exists(t.child, b);
            lemma_node_slot_owner_some(c, b);
            assert(tree_slot_of(o, b) == tree_slot_of(t.child, b));
            let slot = tree_slot_of(t.child, b).unwrap();
            let p = slot.0.unwrap();
            let bt = slot.1;
            lemma_detach_attach_at(t.child, b, BranchType::Child);
            let d = *det.unwrap();
            assert(spec_attach_at(rest_c, Some(p), bt, d) == Some(t.child));
            match bt {
                BranchType::Child => {
                    assert(opt_contains(rest_c, p) && ScenarioNode::can_be_child_spec(
                        spec_find(rest_c, p).unwrap().value,
                        d.value,
                    ));
                    assert(spec_attach_child(rest_c, p, d) == t.child);
                    lemma_detach_subset(t.child, b, p);
                    assert(p != t.id);
                    assert(spec_find(rest, p) == spec_find(rest_c, p));
                    assert(spec_attach_child(rest, p, d) == Some(
                        Box::new(ScenarioNode { child: spec_attach_child(rest_c, p, d), ..t }),
                    ));
                    assert(spec_attach_child(rest, p, d) == o);
                },
                BranchType::Neighbor => {
                    assert(opt_contains(rest_c, p) && ScenarioNode::can_be_neighbor_spec(
                        spec_find(rest_c, p).unwrap().value,
                        d.value,
                    ));
                    assert(spec_attach_neighbor(rest_c, p, d) == t.child);
                    lemma_detach_subset(t.child, b, p);
                    assert(p != t.id);
                    assert(spec_find(rest, p) == spec_find(rest_c, p));
                    assert(spec_attach_neighbor(rest, p, d) == Some(
                        Box::new(ScenarioNode { child: spec_attach_neighbor(rest_c, p, d), ..t }),
                    ));
                    assert(spec_attach_neighbor(rest, p, d) == o);
                },
            }
        }
    } else {
        assert(opt_contains(t.neighbor, b));
        let n = *t.neighbor.unwrap();
        assert(crate::codec::node_roles_ok(n, BranchType::Neighbor));
        assert(node_grammar_ok(n));
        assert(n.bt == BranchType::Neighbor);
        let (rest_n, det) = spec_detach(t.neighbor, b);
        let rest = spec_detach(o, b).0;
        assert(rest == Some(Box::new(ScenarioNode { neighbor: rest_n, ..t })));
        assert(spec_detach(o, b).1 == det);
        if n.id == b {
            let d = strip_neighbor(n);
            assert(det == Some(Box::new(d)));
            assert(tree_slot_of(o, b) == Some((Some(t.id), BranchType::Neighbor)));
            assert(rest_n == with_bt(n.neighbor, BranchType::Neighbor));
            assert(opt_contains(rest, t.id));
            assert(spec_find(rest, t.id) == Some(ScenarioNode { neighbor: rest_n, ..t }));
            assert(ScenarioNode::can_be_neighbor_spec(t.value, d.value));
            assert(spec_attach_neighbor(rest, t.id, d) == Some(
                Box::new(
                    ScenarioNode {
                        neighbor: Some(
                            Box::new(
                                ScenarioNode {
                                    bt: BranchType::Neighbor,
                                    neighbor: with_bt(rest_n, BranchType::Neighbor),
                                    ..d
                                },
                            ),
                        ),
                        ..t
                    },
                ),
            ));
            assert(with_bt(with_bt(n.neighbor, BranchType::Neighbor), BranchType::Neighbor)
                == n.neighbor) by {
                match n.neighbor {
                    Some(nn) => {
                        assert(crate::codec::node_roles_ok(*nn, BranchType::Neighbor));
                    },
                    None => {},
                }
            }
            assert((ScenarioNode {
                bt: BranchType::Neighbor,
                neighbor: n.neighbor,
                ..d
            }) == n);
            assert(attach_neighbor_demote_ok(rest, t.id, d.value)) by {
                match n.neighbor {
                    Some(nn) => {
                        assert(ScenarioNode::can_be_neighbor_spec(n.value, nn.value));
                    },
                    None => {},
                }
            }
            assert(spec_attach_neighbor(rest, t.id, d) == o);
        } else {
            lemma_slot_exists(t.neighbor, b);
            lemma_node_slot_owner_some(n, b);
            assert(tree_slot_of(o, b) == tree_slot_of(t.neighbor, b));
            let slot = tree_slot_of(t.neighbor, b).unwrap();
            let p = slot.0.unwrap();
            let bt = slot.1;
            lemma_detach_attach_at(t.neighbor, b, BranchType::Neighbor);
            let d = *det.unwrap();
            assert(spec_attach_at(rest_n, Some(p), bt, d) == Some(t.neighbor));
            match bt {
                BranchType::Child => {
                    assert(opt_contains(rest_n, p) && ScenarioNode::can_be_child_spec(
                        spec_find(rest_n, p).unwrap().value,
                        d.value,
                    ));
                    assert(spec_attach_child(rest_n, p, d) == t.neighbor);
                    lemma_detach_subset(t.neighbor, b, p);
                    assert(p != t.id);
                    assert(!opt_contains(t.child, p));
                    assert(spec_find(rest, p) == spec_find(rest_n, p));
                    assert(spec_attach_child(rest, p, d) == Some(
                        Box::new(
                            ScenarioNode { neighbor: spec_attach_child(rest_n, p, d), ..t },
                        ),
                    ));
                    assert(spec_attach_child(rest, p, d) == o);
                },
                BranchType::Neighbor => {
                    assert(opt_contains(rest_n, p) && ScenarioNode::can_be_neighbor_spec(
                        spec_find(rest_n, p).unwrap().value,
                        d.value,
                    ));
                    assert(spec_attach_neighbor(rest_n, p, d) == t.neighbor);
                    lemma_detach_subset(t.neighbor, b, p);
                    assert(p != t.id);
                    assert(!opt_contains(t.child, p));
                    assert(spec_find(rest, p) == spec_find(rest_n, p));
                    assert(spec_attach_neighbor(rest, p, d) == Some(
                        Box::new(
                            ScenarioNode { neighbor: spec_attach_neighbor(rest_n, p, d), ..t },
                        ),
                    ));
                    assert(spec_attach_neighbor(rest, p, d) == o);
                },
            }
        }
    }
}

/// Detaching splits the ids: no id reachable in the rest is the
/// detached node's or inside its subtree.
pub proof fn lemma_detach_disjoint(o: Option<Box<ScenarioNode>>, b: i32, x: i32)
    requires
        opt_uniq(o),
        opt_contains(o, b),
        opt_contains(spec_detach(o, b).0, x),
    ensures
        x != b,
        !opt_contains(spec_detach(o, b).1.unwrap().child, x),
    decreases o,
{
    reveal_with_fuel(opt_contains, 3);
    reveal_with_fuel(node_contains, 3);
    let t = *o.unwrap();
    lemma_detach_removes(o, b);
    if t.id == b {
        lemma_with_bt_contains(t.neighbor, t.bt, x);
        assert(opt_contains(t.neighbor, x));
        assert(!(opt_contains(t.child, x) && opt_contains(t.neighbor, x)));
    } else if opt_contains(t.child, b) {
        let (rest_c, det) = spec_detach(t.child, b);
        assert(spec_detach(o, b).0 == Some(Box::new(ScenarioNode { child: rest_c, ..t })));
        lemma_find_detach(t.child, b);
        if x == t.id {
            if opt_contains(det.unwrap().child, x) {
                lemma_find_sub_contains(t.child, b, x);
                assert(opt_contains(t.child, t.id));
                assert(false);
            }
        } else if opt_contains(rest_c, x) {
            lemma_detach_disjoint(t.child, b, x);
        } else {
            assert(opt_contains(t.neighbor, x));
            if opt_contains(det.unwrap().child, x) {
                lemma_find_sub_contains(t.child, b, x);
                assert(!(opt_contains(t.child, x) && opt_contains(t.neighbor, x)));
                assert(false);
            }
        }
    } else {
        let (rest_n, det) = spec_detach(t.neighbor, b);
        assert(spec_detach(o, b).0 == Some(Box::new(ScenarioNode { neighbor: rest_n, ..t })));
        lemma_find_detach(t.neighbor, b);
        if x == t.id {
            if opt_contains(det.unwrap().child, x) {
                lemma_find_sub_contains(t.neighbor, b, x);
                assert(opt_contains(t.neighbor, t.id));
                assert(false);
            }
        } else if opt_contains(t.child, x) {
            if opt_contains(det.unwrap().child, x) {
                lemma_find_sub_contains(t.neighbor, b, x);
                assert(!(opt_contains(t.child, x) && opt_contains(t.neighbor, x)));
                assert(false);
            }
        } else {
            lemma_detach_disjoint(t.neighbor, b, x);
        }
    }
}

/// What the found node reaches, the slot reaches.
pub proof fn lemma_find_member(o: Option<Box<ScenarioNode>>, p: i32, x: i32)
    requires
        opt_contains(o, p),
        node_contains(spec_find(o, p).unwrap(), x),
    ensures
        opt_contains(o, x),
    decreases o,
{
    let t = *o.unwrap();
    if t.id == p {
    } else if opt_contains(t.child, p) {
        lemma_find_member(t.child, p, x);
    } else {
        lemma_find_member(t.neighbor, p, x);
    }
}

/// What the found node's subtree reaches, the slot reaches.
proof fn lemma_find_sub_contains(o: Option<Box<ScenarioNode>>, b: i32, x: i32)
    requires
        opt_contains(o, b),
        opt_contains(spec_find(o, b).unwrap().child, x),
    ensures
        opt_contains(o, x),
    decreases o,
{
    let t = *o.unwrap();
    if t.id == b {
    } else if opt_contains(t.child, b) {
        lemma_find_sub_contains(t.child, b, x);
    } else {
        lemma_find_sub_contains(t.neighbor, b, x);
    }
}

/// Detaching keeps the branch roles consistent: the promoted neighbor
/// inherits exactly the role the removed node held.
pub proof fn lemma_detach_roles(o: Option<Box<ScenarioNode>>, b: i32, e: BranchType)
    requires
        crate::codec::opt_roles_ok(o, e),
        opt_contains(o, b),
    ensures
        crate::codec::opt_roles_ok(spec_detach(o, b).0, e),
    decreases o,
{
    let t = *o.unwrap();
    assert(crate::codec::node_roles_ok(t, e));
    if t.id == b {
        match t.neighbor {
            None => {},
            Some(n) => {
                assert(crate::codec::node_roles_ok(*n, BranchType::Neighbor));
                assert(crate::codec::node_roles_ok(
                    ScenarioNode { bt: t.bt, ..*n },
                    e,
                ));
            },
        }
    } else if opt_contains(t.child, b) {
        lemma_detach_roles(t.child, b, BranchType::Child);
        assert(crate::codec::node_roles_ok(
            ScenarioNode { child: spec_detach(t.child, b).0, ..t },
            e,
        ));
    } else if opt_contains(t.neighbor, b) {
        lemma_detach_roles(t.neighbor, b, BranchType::Neighbor);
        assert(crate::codec::node_roles_ok(
            ScenarioNode { neighbor: spec_detach(t.neighbor, b).0, ..t },
            e,
        ));
    }
}

/// What detaching hands out is role-consistent inside: the node leaves
/// with its own role, a `Child`-role child chain, and no neighbor.
pub proof fn lemma_detach_det_roles(o: Option<Box<ScenarioNode>>, b: i32, e: BranchType)
    requires
        crate::codec::opt_roles_ok(o, e),
        opt_contains(o, b),
    ensures
        ({
            let d = *spec_detach(o, b).1.unwrap();
            crate::codec::node_roles_ok(d, d.bt) && d.neighbor is None
        }),
    decreases o,
{
    let t = *o.unwrap();
    assert(crate::codec::node_roles_ok(t, e));
    if t.id == b {
        assert(crate::codec::node_roles_ok(strip_neighbor(t), t.bt));
    } else if opt_contains(t.child, b) {
        lemma_detach_det_roles(t.child, b, BranchType::Child);
    } else {
        lemma_detach_det_roles(t.neighbor, b, BranchType::Neighbor);
    }
}

/// Attaching a node with a role-consistent child chain keeps the whole
/// tree's branch roles consistent.
pub proof fn lemma_attach_child_roles(
    o: Option<Box<ScenarioNode>>,
    a: i32,
    d: ScenarioNode,
    e: BranchType,
)
    requires
        crate::codec::opt_roles_ok(o, e),
        opt_contains(o, a),
        crate::codec::opt_roles_ok(d.child, BranchType::Child),
    ensures
        crate::codec::opt_roles_ok(spec_attach_child(o, a, d), e),
    decreases o,
{
    let t = *o.unwrap();
    assert(crate::codec::node_roles_ok(t, e));
    if t.id == a {
        let dp = ScenarioNode {
            bt: BranchType::Child,
            neighbor: with_bt(t.child, BranchType::Neighbor),
            ..d
        };
        assert(crate::codec::opt_roles_ok(dp.neighbor, BranchType::Neighbor)) by {
            match t.child {
                Some(c) => {
                    assert(crate::codec::node_roles_ok(*c, BranchType::Child));
                    assert(crate::codec::node_roles_ok(
                        ScenarioNode { bt: BranchType::Neighbor, ..*c },
                        BranchType::Neighbor,
                    ));
                },
                None => {},
            }
        }
        assert(crate::codec::node_roles_ok(dp, BranchType::Child));
        assert(crate::codec::node_roles_ok(
            ScenarioNode { child: Some(Box::new(dp)), ..t },
            e,
        ));
    } else if opt_contains(t.child, a) {
        lemma_attach_child_roles(t.child, a, d, BranchType::Child);
        assert(crate::codec::node_roles_ok(
            ScenarioNode { child: spec_attach_child(t.child, a, d), ..t },
            e,
        ));
    } else {
        assert(opt_contains(t.neighbor, a));
        lemma_attach_child_roles(t.neighbor, a, d, BranchType::Neighbor);
        assert(crate::codec::node_roles_ok(
            ScenarioNode { neighbor: spec_attach_child(t.neighbor, a, d), ..t },
            e,
        ));
    }
}

/// Attaching a sibling with a role-consistent child chain keeps the
/// whole tree's branch roles consistent.
pub proof fn lemma_attach_neighbor_roles(
    o: Option<Box<ScenarioNode>>,
    a: i32,
    d: ScenarioNode,
    e: BranchType,
)
    requires
        crate::codec::opt_roles_ok(o, e),
        opt_contains(o, a),
        crate::codec::opt_roles_ok(d.child, BranchType::Child),
    ensures
        crate::codec::opt_roles_ok(spec_attach_neighbor(o, a, d), e),
    decreases o,
{
    let t = *o.unwrap();
    assert(crate::codec::node_roles_ok(t, e));
    if t.id == a {
        let dp = ScenarioNode {
            bt: BranchType::Neighbor,
            neighbor: with_bt(t.neighbor, BranchType::Neighbor),
            ..d
        };
        assert(crate::codec::opt_roles_ok(dp.neighbor, BranchType::Neighbor)) by {
            match t.neighbor {
                Some(n) => {
                    assert(crate::codec::node_roles_ok(*n, BranchType::Neighbor));
                    assert(crate::codec::node_roles_ok(
                        ScenarioNode { bt: BranchType::Neighbor, ..*n },
                        BranchType::Neighbor,
                    ));
                },
                None => {},
            }
        }
        assert(crate::codec::node_roles_ok(dp, BranchType::Neighbor));
        assert(crate::codec::node_roles_ok(
            ScenarioNode { neighbor: Some(Box::new(dp)), ..t },
            e,
        ));
    } else if opt_contains(t.child, a) {
        lemma_attach_neighbor_roles(t.child, a, d, BranchType::Child);
        assert(crate::codec::node_roles_ok(
            ScenarioNode { child: spec_attach_neighbor(t.child, a, d), ..t },
            e,
        ));
    } else {
        assert(opt_contains(t.neighbor, a));
        lemma_attach_neighbor_roles(t.neighbor, a, d, BranchType::Neighbor);
        assert(crate::codec::node_roles_ok(
            ScenarioNode { neighbor: spec_attach_neighbor(t.neighbor, a, d), ..t },
            e,
        ));
    }
}

/// Splicing in above with a role-consistent child chain keeps the
/// whole tree's branch roles consistent.
pub proof fn lemma_insert_before_roles(
    o: Option<Box<ScenarioNode>>,
    a: i32,
    d: ScenarioNode,
    e: BranchType,
)
    requires
        crate::codec::opt_roles_ok(o, e),
        opt_contains(o, a),
        crate::codec::opt_roles_ok(d.child, BranchType::Child),
    ensures
        crate::codec::opt_roles_ok(spec_insert_before(o, a, d), e),
    decreases o,
{
    let t = *o.unwrap();
    assert(crate::codec::node_roles_ok(t, e));
    if t.id == a {
        let demoted = ScenarioNode { bt: BranchType::Neighbor, ..t };
        assert(crate::codec::node_roles_ok(demoted, BranchType::Neighbor));
        let inserted = ScenarioNode {
            value: d.value,
            bt: t.bt,
            id: d.id,
            child: d.child,
            neighbor: Some(Box::new(demoted)),
        };
        assert(crate::codec::node_roles_ok(inserted, e));
    } else if opt_contains(t.child, a) {
        lemma_insert_before_roles(t.child, a, d, BranchType::Child);
        assert(crate::codec::node_roles_ok(
            ScenarioNode { child: spec_insert_before(t.child, a, d), ..t },
            e,
        ));
    } else {
        assert(opt_contains(t.neighbor, a));
        lemma_insert_before_roles(t.neighbor, a, d, BranchType::Neighbor);
        assert(crate::codec::node_roles_ok(
            ScenarioNode { neighbor: spec_insert_before(t.neighbor, a, d), ..t },
            e,
        ));
    }
}

fn roles_x(o: &Option<Box<ScenarioNode>>, e: BranchType) -> (r: bool)
    ensures
        r == crate::codec::opt_roles_ok(*o, e),
    decreases *o,
{
    match o {
        None => true,
        Some(t) => {
            let bt_ok = match (&t.bt, &e) {
                (BranchType::Child, BranchType::Child) => true,
                (BranchType::Neighbor, BranchType::Neighbor) => true,
                _ => false,
            };
            bt_ok && roles_x(&t.child, BranchType::Child) && roles_x(
                &t.neighbor,
                BranchType::Neighbor,
            )
        },
    }
}

fn grammar_x(o: &Option<Box<ScenarioNode>>) -> (r: bool)
    ensures
        r == opt_grammar_ok(*o),
    decreases *o,
{
    match o {
        None => true,
        Some(t) => {
            let child_ok = match &t.child {
                Some(c) => ScenarioNode::can_be_child(&t.value, &c.value),
                None => true,
            };
            let neighbor_ok = match &t.neighbor {
                Some(n) => ScenarioNode::can_be_neighbor(&t.value, &n.value),
                None => true,
            };
            child_ok && neighbor_ok && grammar_x(&t.child) && grammar_x(&t.neighbor)
        },
    }
}

/// Does any id of `sub` occur in `other`?
fn shares_id(sub: &Option<Box<ScenarioNode>>, other: &Option<Box<ScenarioNode>>) -> (r: bool)
    ensures
        r == exists|x: i32| opt_contains(*sub, x) && #[trigger] opt_contains(*other, x),
    decreases *sub,
{
    match sub {
        None => false,
        Some(t) => {
            if opt_contains_x(other, t.id) {
                proof {
                    assert(opt_contains(*sub, t.id));
                }
                true
            } else if shares_id(&t.child, other) {
                proof {
                    let x = choose|x: i32|
                        opt_contains(t.child, x) && #[trigger] opt_contains(*other, x);
                    assert(opt_contains(*sub, x));
                }
                true
            } else if shares_id(&t.neighbor, other) {
                proof {
                    let x = choose|x: i32|
                        opt_contains(t.neighbor, x) && #[trigger] opt_contains(*other, x);
                    assert(opt_contains(*sub, x));
                }
                true
            } else {
                proof {
                    assert forall|x: i32|
                        !(opt_contains(*sub, x) && #[trigger] opt_contains(*other, x)) by {
                        if opt_contains(*sub, x) && opt_contains(*other, x) {
                            assert(t.id == x || opt_contains(t.child, x) || opt_contains(
                                t.neighbor,
                                x,
                            ));
                        }
                    }
                }
                false
            }
        },
    }
}

fn uniq_x(o: &Option<Box<ScenarioNode>>) -> (r: bool)
    ensures
        r == opt_uniq(*o),
    decreases *o,
{
    match o {
        None => true,
        Some(t) => {
            let r = !opt_contains_x(&t.child, t.id) && !opt_contains_x(&t.neighbor, t.id)
                && !shares_id(&t.child, &t.neighbor) && uniq_x(&t.child) && uniq_x(&t.neighbor);
            proof {
                if !(exists|x: i32|
                    opt_contains(t.child, x) && #[trigger] opt_contains(t.neighbor, x)) {
                    assert forall|x: i32|
                        !(opt_contains(t.child, x) && #[trigger] opt_contains(t.neighbor, x)) by {
                    }
                }
            }
            r
        },
    }
}

/// Changing a top branch role moves no id.
proof fn lemma_with_bt_uniq(o: Option<Box<ScenarioNode>>, bt: BranchType)
    ensures
        opt_uniq(with_bt(o, bt)) == opt_uniq(o),
{
    match o {
        None => {},
        Some(t) => {
            assert(node_uniq(ScenarioNode { bt, ..*t }) == node_uniq(*t));
        },
    }
}

/// Detaching keeps the ids distinct on both sides of the split.
pub proof fn lemma_detach_uniq(o: Option<Box<ScenarioNode>>, b: i32)
    requires
        opt_uniq(o),
        opt_contains(o, b),
    ensures
        opt_uniq(spec_detach(o, b).0),
        node_uniq(*spec_detach(o, b).1.unwrap()),
    decreases o,
{
    let t = *o.unwrap();
    if t.id == b {
        lemma_with_bt_uniq(t.neighbor, t.bt);
        assert(node_uniq(strip_neighbor(t)));
    } else if opt_contains(t.child, b) {
        lemma_detach_uniq(t.child, b);
        let rest_c = spec_detach(t.child, b).0;
        assert forall|x: i32| opt_contains(rest_c, x) implies opt_contains(t.child, x) by {
            lemma_detach_subset(t.child, b, x);
        }
        assert(node_uniq(ScenarioNode { child: rest_c, ..t }));
    } else {
        lemma_detach_uniq(t.neighbor, b);
        let rest_n = spec_detach(t.neighbor, b).0;
        assert forall|x: i32| opt_contains(rest_n, x) implies opt_contains(t.neighbor, x) by {
            lemma_detach_subset(t.neighbor, b, x);
        }
        assert(node_uniq(ScenarioNode { neighbor: rest_n, ..t }));
    }
}

/// Attaching a node whose ids are fresh keeps the ids distinct.
pub proof fn lemma_attach_child_uniq(o: Option<Box<ScenarioNode>>, a: i32, d: ScenarioNode)
    requires
        opt_uniq(o),
        opt_contains(o, a),
        opt_uniq(d.child),
        !opt_contains(d.child, d.id),
        d.neighbor is None,
        forall|x: i32| opt_contains(o, x) ==> !(d.id == x || #[trigger] opt_contains(d.child, x)),
    ensures
        opt_uniq(spec_attach_child(o, a, d)),
    decreases o,
{
    reveal_with_fuel(opt_contains, 3);
    reveal_with_fuel(node_contains, 3);
    let t = *o.unwrap();
    if t.id == a {
        let dp = ScenarioNode {
            bt: BranchType::Child,
            neighbor: with_bt(t.child, BranchType::Neighbor),
            ..d
        };
        lemma_with_bt_uniq(t.child, BranchType::Neighbor);
        assert(!opt_contains(o, d.id)) by {
            if opt_contains(o, d.id) {
                assert(!(d.id == d.id || opt_contains(d.child, d.id)));
            }
        }
        lemma_with_bt_contains(t.child, BranchType::Neighbor, d.id);
        assert(!opt_contains(dp.neighbor, dp.id));
        assert forall|x: i32| !(opt_contains(dp.child, x) && #[trigger] opt_contains(
            dp.neighbor,
            x,
        )) by {
            if opt_contains(dp.neighbor, x) {
                lemma_with_bt_contains(t.child, BranchType::Neighbor, x);
                assert(opt_contains(o, x));
                assert(!(d.id == x || opt_contains(d.child, x)));
            }
        }
        assert(node_uniq(dp));
        let t2 = ScenarioNode { child: Some(Box::new(dp)), ..t };
        assert(!node_contains(dp, t.id)) by {
            assert(opt_contains(o, t.id));
            assert(!(d.id == t.id || opt_contains(d.child, t.id)));
            lemma_with_bt_contains(t.child, BranchType::Neighbor, t.id);
        }
        assert forall|x: i32| !(opt_contains(t2.child, x) && #[trigger] opt_contains(
            t2.neighbor,
            x,
        )) by {
            if opt_contains(t2.neighbor, x) {
                assert(opt_contains(o, x));
                assert(!(d.id == x || opt_contains(d.child, x)));
                lemma_with_bt_contains(t.child, BranchType::Neighbor, x);
                assert(!(opt_contains(t.child, x) && opt_contains(t.neighbor, x)));
            }
        }
        assert(node_uniq(t2));
    } else if opt_contains(t.child, a) {
        lemma_attach_child_uniq(t.child, a, d);
        let c2 = spec_attach_child(t.child, a, d);
        assert forall|x: i32| opt_contains(c2, x) implies (opt_contains(t.child, x) || d.id == x
            || opt_contains(d.child, x)) by {
            lemma_attach_contains(t.child, a, d, x);
        }
        assert(!opt_contains(c2, t.id));
        assert forall|x: i32| opt_contains(c2, x) implies !opt_contains(t.neighbor, x) by {
            lemma_attach_contains(t.child, a, d, x);
        }
        assert(node_uniq(ScenarioNode { child: c2, ..t }));
    } else {
        assert(opt_contains(t.neighbor, a));
        lemma_attach_child_uniq(t.neighbor, a, d);
        let n2 = spec_attach_child(t.neighbor, a, d);
        assert forall|x: i32| opt_contains(n2, x) implies (opt_contains(t.neighbor, x) || d.id == x
            || opt_contains(d.child, x)) by {
            lemma_attach_contains(t.neighbor, a, d, x);
        }
        assert(!opt_contains(n2, t.id));
        assert forall|x: i32| opt_contains(t.child, x) implies !opt_contains(n2, x) by {
            lemma_attach_contains(t.neighbor, a, d, x);
        }
        assert(node_uniq(ScenarioNode { neighbor: n2, ..t }));
    }
}

/// Attaching a sibling whose ids are fresh keeps the ids distinct.
pub proof fn lemma_attach_neighbor_uniq(o: Option<Box<ScenarioNode>>, a: i32, d: ScenarioNode)
    requires
        opt_uniq(o),
        opt_contains(o, a),
        opt_uniq(d.child),
        !opt_contains(d.child, d.id),
        d.neighbor is None,
        forall|x: i32| opt_contains(o, x) ==> !(d.id == x || #[trigger] opt_contains(d.child, x)),
    ensures
        opt_uniq(spec_attach_neighbor(o, a, d)),
    decreases o,
{
    reveal_with_fuel(opt_contains, 3);
    reveal_with_fuel(node_contains, 3);
    let t = *o.unwrap();
    if t.id == a {
        let dp = ScenarioNode {
            bt: BranchType::Neighbor,
            neighbor: with_bt(t.neighbor, BranchType::Neighbor),
            ..d
        };
        lemma_with_bt_uniq(t.neighbor, BranchType::Neighbor);
        assert(!opt_contains(o, d.id)) by {
            if opt_contains(o, d.id) {
                assert(!(d.id == d.id || opt_contains(d.child, d.id)));
            }
        }
        lemma_with_bt_contains(t.neighbor, BranchType::Neighbor, d.id);
        assert(!opt_contains(dp.neighbor, dp.id));
        assert forall|x: i32| !(opt_contains(dp.child, x) && #[trigger] opt_contains(
            dp.neighbor,
            x,
        )) by {
            if opt_contains(dp.neighbor, x) {
                lemma_with_bt_contains(t.neighbor, BranchType::Neighbor, x);
                assert(opt_contains(o, x));
                assert(!(d.id == x || opt_contains(d.child, x)));
            }
        }
        assert(node_uniq(dp));
        let t2 = ScenarioNode { neighbor: Some(Box::new(dp)), ..t };
        assert(!node_contains(dp, t.id)) by {
            assert(opt_contains(o, t.id));
            assert(!(d.id == t.id || opt_contains(d.child, t.id)));
            lemma_with_bt_contains(t.neighbor, BranchType::Neighbor, t.id);
        }
        assert forall|x: i32| !(opt_contains(t2.child, x) && #[trigger] opt_contains(
            t2.neighbor,
            x,
        )) by {
            if opt_contains(t2.child, x) {
                assert(opt_contains(o, x));
                assert(!(d.id == x || opt_contains(d.child, x)));
                lemma_with_bt_contains(t.neighbor, BranchType::Neighbor, x);
                assert(!(opt_contains(t.child, x) && opt_contains(t.neighbor, x)));
            }
        }
        assert(node_uniq(t2));
    } else if opt_contains(t.child, a) {
        lemma_attach_neighbor_uniq(t.child, a, d);
        let c2 = spec_attach_neighbor(t.child, a, d);
        assert forall|x: i32| opt_contains(c2, x) implies (opt_contains(t.child, x) || d.id == x
            || opt_contains(d.child, x)) by {
            lemma_attach_neighbor_contains(t.child, a, d, x);
        }
        assert(!opt_contains(c2, t.id));
        assert forall|x: i32| opt_contains(c2, x) implies !opt_contains(t.neighbor, x) by {
            lemma_attach_neighbor_contains(t.child, a, d, x);
        }
        assert(node_uniq(ScenarioNode { child: c2, ..t }));
    } else {
        assert(opt_contains(t.neighbor, a));
        lemma_attach_neighbor_uniq(t.neighbor, a, d);
        let n2 = spec_attach_neighbor(t.neighbor, a, d);
        assert forall|x: i32| opt_contains(n2, x) implies (opt_contains(t.neighbor, x) || d.id == x
            || opt_contains(d.child, x)) by {
            lemma_attach_neighbor_contains(t.neighbor, a, d, x);
        }
        assert(!opt_contains(n2, t.id));
        assert forall|x: i32| opt_contains(t.child, x) implies !opt_contains(n2, x) by {
            lemma_attach_neighbor_contains(t.neighbor, a, d, x);
        }
        assert(node_uniq(ScenarioNode { neighbor: n2, ..t }));
    }
}

/// Splicing in above with fresh ids keeps the ids distinct.
pub proof fn lemma_insert_before_uniq(o: Option<Box<ScenarioNode>>, a: i32, d: ScenarioNode)
    requires
        opt_uniq(o),
        opt_contains(o, a),
        opt_uniq(d.child),
        !opt_contains(d.child, d.id),
        forall|x: i32| opt_contains(o, x) ==> !(d.id == x || #[trigger] opt_contains(d.child, x)),
    ensures
        opt_uniq(spec_insert_before(o, a, d)),
    decreases o,
{
    reveal_with_fuel(opt_contains, 3);
    reveal_with_fuel(node_contains, 3);
    let t = *o.unwrap();
    if t.id == a {
        let demoted = ScenarioNode { bt: BranchType::Neighbor, ..t };
        assert(node_uniq(demoted) == node_uniq(t));
        let inserted = ScenarioNode {
            value: d.value,
            bt: t.bt,
            id: d.id,
            child: d.child,
            neighbor: Some(Box::new(demoted)),
        };
        assert(node_contains(demoted, t.id));
        assert(!node_contains(demoted, d.id)) by {
            assert(node_contains(t, d.id) == node_contains(demoted, d.id));
        }
        assert forall|x: i32| opt_contains(d.child, x) implies !node_contains(demoted, x) by {
            assert(node_contains(t, x) == node_contains(demoted, x));
        }
        assert(node_uniq(inserted));
    } else if opt_contains(t.child, a) {
        lemma_insert_before_uniq(t.child, a, d);
        let c2 = spec_insert_before(t.child, a, d);
        assert forall|x: i32| opt_contains(c2, x) implies (opt_contains(t.child, x) || d.id == x
            || opt_contains(d.child, x)) by {
            lemma_insert_before_contains(t.child, a, d, x);
        }
        assert(!opt_contains(c2, t.id));
        assert forall|x: i32| opt_contains(c2, x) implies !opt_contains(t.neighbor, x) by {
            lemma_insert_before_contains(t.child, a, d, x);
        }
        assert(node_uniq(ScenarioNode { child: c2, ..t }));
    } else {
        assert(opt_contains(t.neighbor, a));
        lemma_insert_before_uniq(t.neighbor, a, d);
        let n2 = spec_insert_before(t.neighbor, a, d);
        assert forall|x: i32| opt_contains(n2, x) implies (opt_contains(t.neighbor, x) || d.id == x
            || opt_contains(d.child, x)) by {
            lemma_insert_before_contains(t.neighbor, a, d, x);
        }
        assert(!opt_contains(n2, t.id));
        assert forall|x: i32| opt_contains(t.child, x) implies !opt_contains(n2, x) by {
            lemma_insert_before_contains(t.neighbor, a, d, x);
        }
        assert(node_uniq(ScenarioNode { neighbor: n2, ..t }));
    }
}

/// The identity bookkeeping invariant: every structural move keeps the
/// node ids distinct — the moved subtree carries exactly the ids it
/// took out.
pub proof fn lemma_mv_preserves_uniq(o: Option<Box<ScenarioNode>>, a: i32, b: i32)
    requires
        opt_uniq(o),
    ensures
        mv_child_ok(o, a, b) ==> opt_uniq(spec_mv_child(o, a, b)),
        mv_neighbor_ok(o, a, b) ==> opt_uniq(spec_mv_neighbor(o, a, b)),
        mv_parent_ok(o, a, b) ==> opt_uniq(spec_mv_parent(o, a, b)),
{
    if mv_child_ok(o, a, b) || mv_neighbor_ok(o, a, b) || mv_parent_ok(o, a, b) {
        lemma_find_detach(o, b);
        lemma_find_id(o, b);
        lemma_detach_keeps(o, b, a);
        lemma_detach_uniq(o, b);
        let (rest, det) = spec_detach(o, b);
        let d = *det.unwrap();
        assert forall|x: i32| opt_contains(rest, x) implies !(d.id == x || #[trigger] opt_contains(
            d.child,
            x,
        )) by {
            lemma_detach_disjoint(o, b, x);
        }
        if mv_child_ok(o, a, b) {
            lemma_attach_child_uniq(rest, a, d);
        }
        if mv_neighbor_ok(o, a, b) {
            lemma_attach_neighbor_uniq(rest, a, d);
        }
        if mv_parent_ok(o, a, b) {
            lemma_insert_before_uniq(rest, a, d);
        }
    }
}

/// The branch-role bookkeeping invariant: every structural move keeps
/// the roles consistent — each primitive's splices and promotions
/// restore the rule that child links carry `Child`, neighbor links
/// `Neighbor`, and the root `Child`.
pub proof fn lemma_mv_preserves_roles(o: Option<Box<ScenarioNode>>, a: i32, b: i32)
    requires
        crate::codec::opt_roles_ok(o, BranchType::Child),
    ensures
        mv_child_ok(o, a, b) ==> crate::codec::opt_roles_ok(
            spec_mv_child(o, a, b),
            BranchType::Child,
        ),
        mv_neighbor_ok(o, a, b) ==> crate::codec::opt_roles_ok(
            spec_mv_neighbor(o, a, b),
            BranchType::Child,
        ),
        mv_parent_ok(o, a, b) ==> crate::codec::opt_roles_ok(
            spec_mv_parent(o, a, b),
            BranchType::Child,
        ),
{
    if mv_child_ok(o, a, b) || mv_neighbor_ok(o, a, b) || mv_parent_ok(o, a, b) {
        lemma_find_detach(o, b);
        lemma_detach_keeps(o, b, a);
        lemma_detach_roles(o, b, BranchType::Child);
        lemma_detach_det_roles(o, b, BranchType::Child);
        let (rest, det) = spec_detach(o, b);
        let d = *det.unwrap();
        assert(crate::codec::opt_roles_ok(d.child, BranchType::Child));
        if mv_child_ok(o, a, b) {
            lemma_attach_child_roles(rest, a, d, BranchType::Child);
        }
        if mv_neighbor_ok(o, a, b) {
            lemma_attach_neighbor_roles(rest, a, d, BranchType::Child);
        }
        if mv_parent_ok(o, a, b) {
            lemma_insert_before_roles(rest, a, d, BranchType::Child);
        }
    }
}

/// Attaching as a child reads only the node's item, id and child
/// subtree; two nodes agreeing on those attach identically.
pub proof fn lemma_attach_child_same(
    o: Option<Box<ScenarioNode>>,
    a: i32,
    b1: ScenarioNode,
    b2: ScenarioNode,
)
    requires
        b1.value == b2.value,
        b1.id == b2.id,
        b1.child == b2.child,
    ensures
        spec_attach_child(o, a, b1) == spec_attach_child(o, a, b2),
    decreases o,
{
    match o {
        None => {},
        Some(t) => {
            if t.id == a {
                assert((ScenarioNode {
                    bt: BranchType::Child,
                    neighbor: with_bt(t.child, BranchType::Neighbor),
                    ..b1
                }) == (ScenarioNode {
                    bt: BranchType::Child,
                    neighbor: with_bt(t.child, BranchType::Neighbor),
                    ..b2
                }));
            } else if opt_contains(t.child, a) {
                lemma_attach_child_same(t.child, a, b1, b2);
            } else {
                lemma_attach_child_same(t.neighbor, a, b1, b2);
            }
        },
    }
}

/// Attaching as a sibling reads only the node's item, id and child
/// subtree.
pub proof fn lemma_attach_neighbor_same(
    o: Option<Box<ScenarioNode>>,
    a: i32,
    b1: ScenarioNode,
    b2: ScenarioNode,
)
    requires
        b1.value == b2.value,
        b1.id == b2.id,
        b1.child == b2.child,
    ensures
        spec_attach_neighbor(o, a, b1) == spec_attach_neighbor(o, a, b2),
    decreases o,
{
    match o {
        None => {},
        Some(t) => {
            if t.id == a {
                assert((ScenarioNode {
                    bt: BranchType::Neighbor,
                    neighbor: with_bt(t.neighbor, BranchType::Neighbor),
                    ..b1
                }) == (ScenarioNode {
                    bt: BranchType::Neighbor,
                    neighbor: with_bt(t.neighbor, BranchType::Neighbor),
                    ..b2
                }));
            } else if opt_contains(t.child, a) {
                lemma_attach_neighbor_same(t.child, a, b1, b2);
            } else {
                lemma_attach_neighbor_same(t.neighbor, a, b1, b2);
            }
        },
    }
}

/// Where a freshly attached child is found: at its own id, carrying its
/// child subtree, in the `Child` role, followed by the demoted old
/// first child.
pub proof fn lemma_attach_child_find_new(o: Option<Box<ScenarioNode>>, a: i32, d: ScenarioNode)
    requires
        opt_contains(o, a),
        !opt_contains(o, d.id),
    ensures
        opt_contains(spec_attach_child(o, a, d), d.id),
        spec_find(spec_attach_child(o, a, d), d.id) == Some(
            ScenarioNode {
                bt: BranchType::Child,
                neighbor: with_bt(spec_find(o, a).unwrap().child, BranchType::Neighbor),
                ..d
            },
        ),
    decreases o,
{
    reveal_with_fuel(opt_contains, 3);
    reveal_with_fuel(node_contains, 3);
    let t = *o.unwrap();
    lemma_attach_contains(o, a, ScenarioNode { neighbor: None, ..d }, d.id);
    lemma_attach_child_ignores_neighbor(o, a, d);
    if t.id == a {
        let dp = ScenarioNode {
            bt: BranchType::Child,
            neighbor: with_bt(t.child, BranchType::Neighbor),
            ..d
        };
        let o2 = spec_attach_child(o, a, d);
        assert(o2 == Some(Box::new(ScenarioNode { child: Some(Box::new(dp)), ..t })));
        assert(t.id != d.id);
        assert(node_contains(dp, d.id));
        assert(spec_find(o2, d.id) == spec_find(Some(Box::new(dp)), d.id));
    } else if opt_contains(t.child, a) {
        lemma_attach_child_find_new(t.child, a, d);
        lemma_attach_contains(t.child, a, ScenarioNode { neighbor: None, ..d }, d.id);
        lemma_attach_child_ignores_neighbor(t.child, a, d);
        let o2 = spec_attach_child(o, a, d);
        assert(o2 == Some(
            Box::new(ScenarioNode { child: spec_attach_child(t.child, a, d), ..t }),
        ));
        assert(t.id != d.id);
        assert(opt_contains(spec_attach_child(t.child, a, d), d.id));
    } else {
        assert(opt_contains(t.neighbor, a));
        lemma_attach_child_find_new(t.neighbor, a, d);
        lemma_attach_contains(t.neighbor, a, ScenarioNode { neighbor: None, ..d }, d.id);
        lemma_attach_child_ignores_neighbor(t.neighbor, a, d);
        let o2 = spec_attach_child(o, a, d);
        assert(o2 == Some(
            Box::new(ScenarioNode { neighbor: spec_attach_child(t.neighbor, a, d), ..t }),
        ));
        assert(t.id != d.id);
        assert(!opt_contains(t.child, d.id));
        assert(opt_contains(spec_attach_child(t.neighbor, a, d), d.id));
    }
}

/// Attaching a fresh node leaves every other node's item where the
/// search finds it.
pub proof fn lemma_attach_child_find_other(
    o: Option<Box<ScenarioNode>>,
    a: i32,
    d: ScenarioNode,
    x: i32,
)
    requires
        opt_contains(o, a),
        !opt_contains(o, d.id),
        opt_contains(o, x),
        x != d.id,
        !opt_contains(d.child, x),
    ensures
        opt_contains(spec_attach_child(o, a, d), x),
        spec_find(spec_attach_child(o, a, d), x).unwrap().value == spec_find(o, x).unwrap().value,
    decreases o,
{
    reveal_with_fuel(opt_contains, 3);
    reveal_with_fuel(node_contains, 3);
    let t = *o.unwrap();
    lemma_attach_contains(o, a, ScenarioNode { neighbor: None, ..d }, x);
    lemma_attach_child_ignores_neighbor(o, a, d);
    if t.id == a {
        let dp = ScenarioNode {
            bt: BranchType::Child,
            neighbor: with_bt(t.child, BranchType::Neighbor),
            ..d
        };
        let o2 = spec_attach_child(o, a, d);
        assert(o2 == Some(Box::new(ScenarioNode { child: Some(Box::new(dp)), ..t })));
        if x == t.id {
        } else if opt_contains(t.child, x) {
            lemma_with_bt_contains(t.child, BranchType::Neighbor, x);
            lemma_with_bt_find(t.child, BranchType::Neighbor, x);
            assert(node_contains(dp, x));
            assert(spec_find(o2, x) == spec_find(Some(Box::new(dp)), x));
            assert(spec_find(Some(Box::new(dp)), x) == spec_find(
                with_bt(t.child, BranchType::Neighbor),
                x,
            ));
            assert(spec_find(o2, x).unwrap().value == spec_find(t.child, x).unwrap().value);
        } else {
            assert(opt_contains(t.neighbor, x));
            lemma_with_bt_contains(t.child, BranchType::Neighbor, x);
            assert(!node_contains(dp, x));
            assert(spec_find(o2, x) == spec_find(t.neighbor, x));
        }
    } else if opt_contains(t.child, a) {
        lemma_attach_contains(t.child, a, ScenarioNode { neighbor: None, ..d }, x);
        lemma_attach_child_ignores_neighbor(t.child, a, d);
        let o2 = spec_attach_child(o, a, d);
        assert(o2 == Some(
            Box::new(ScenarioNode { child: spec_attach_child(t.child, a, d), ..t }),
        ));
        if x == t.id {
        } else if opt_contains(t.child, x) {
            lemma_attach_child_find_other(t.child, a, d, x);
        } else {
            assert(opt_contains(t.neighbor, x));
            assert(!opt_contains(spec_attach_child(t.child, a, d), x));
            assert(spec_find(o2, x) == spec_find(t.neighbor, x));
        }
    } else {
        assert(opt_contains(t.neighbor, a));
        lemma_attach_contains(t.neighbor, a, ScenarioNode { neighbor: None, ..d }, x);
        lemma_attach_child_ignores_neighbor(t.neighbor, a, d);
        let o2 = spec_attach_child(o, a, d);
        assert(o2 == Some(
            Box::new(ScenarioNode { neighbor: spec_attach_child(t.neighbor, a, d), ..t }),
        ));
        if x == t.id {
        } else if opt_contains(t.child, x) {
        } else {
            lemma_attach_child_find_other(t.neighbor, a, d, x);
        }
    }
}

/// Where a freshly attached sibling is found: at its own id, carrying
/// its child subtree, in the `Neighbor` role.
pub proof fn lemma_attach_neighbor_find_new(o: Option<Box<ScenarioNode>>, a: i32, d: ScenarioNode)
    requires
        opt_contains(o, a),
        !opt_contains(o, d.id),
    ensures
        opt_contains(spec_attach_neighbor(o, a, d), d.id),
        spec_find(spec_attach_neighbor(o, a, d), d.id) == Some(
            ScenarioNode {
                bt: BranchType::Neighbor,
                neighbor: with_bt(spec_find(o, a).unwrap().neighbor, BranchType::Neighbor),
                ..d
            },
        ),
    decreases o,
{
    reveal_with_fuel(opt_contains, 3);
    reveal_with_fuel(node_contains, 3);
    let t = *o.unwrap();
    lemma_attach_neighbor_contains(o, a, ScenarioNode { neighbor: None, ..d }, d.id);
    lemma_attach_neighbor_ignores_neighbor(o, a, d);
    if t.id == a {
        let dp = ScenarioNode {
            bt: BranchType::Neighbor,
            neighbor: with_bt(t.neighbor, BranchType::Neighbor),
            ..d
        };
        let o2 = spec_attach_neighbor(o, a, d);
        assert(o2 == Some(Box::new(ScenarioNode { neighbor: Some(Box::new(dp)), ..t })));
        assert(t.id != d.id);
        assert(!opt_contains(t.child, d.id));
        assert(node_contains(dp, d.id));
        assert(spec_find(o2, d.id) == spec_find(Some(Box::new(dp)), d.id));
    } else if opt_contains(t.child, a) {
        lemma_attach_neighbor_find_new(t.child, a, d);
        lemma_attach_neighbor_contains(t.child, a, ScenarioNode { neighbor: None, ..d }, d.id);
        lemma_attach_neighbor_ignores_neighbor(t.child, a, d);
        let o2 = spec_attach_neighbor(o, a, d);
        assert(o2 == Some(
            Box::new(ScenarioNode { child: spec_attach_neighbor(t.child, a, d), ..t }),
        ));
        assert(t.id != d.id);
        assert(opt_contains(spec_attach_neighbor(t.child, a, d), d.id));
    } else {
        assert(opt_contains(t.neighbor, a));
        lemma_attach_neighbor_find_new(t.neighbor, a, d);
        lemma_attach_neighbor_contains(t.neighbor, a, ScenarioNode { neighbor: None, ..d }, d.id);
        lemma_attach_neighbor_ignores_neighbor(t.neighbor, a, d);
        let o2 = spec_attach_neighbor(o, a, d);
        assert(o2 == Some(
            Box::new(ScenarioNode { neighbor: spec_attach_neighbor(t.neighbor, a, d), ..t }),
        ));
        assert(t.id != d.id);
        assert(!opt_contains(t.child, d.id));
        assert(opt_contains(spec_attach_neighbor(t.neighbor, a, d), d.id));
    }
}

/// Attaching a fresh sibling leaves every other node's item where the
/// search finds it.
pub proof fn lemma_attach_neighbor_find_other(
    o: Option<Box<ScenarioNode>>,
    a: i32,
    d: ScenarioNode,
    x: i32,
)
    requires
        opt_contains(o, a),
        !opt_contains(o, d.id),
        opt_contains(o, x),
        x != d.id,
        !opt_contains(d.child, x),
    ensures
        opt_contains(spec_attach_neighbor(o, a, d), x),
        spec_find(spec_attach_neighbor(o, a, d), x).unwrap().value == spec_find(
            o,
            x,
        ).unwrap().value,
    decreases o,
{
    reveal_with_fuel(opt_contains, 3);
    reveal_with_fuel(node_contains, 3);
    let t = *o.unwrap();
    lemma_attach_neighbor_contains(o, a, ScenarioNode { neighbor: None, ..d }, x);
    lemma_attach_neighbor_ignores_neighbor(o, a, d);
    if t.id == a {
        let dp = ScenarioNode {
            bt: BranchType::Neighbor,
            neighbor: with_bt(t.neighbor, BranchType::Neighbor),
            ..d
        };
        let o2 = spec_attach_neighbor(o, a, d);
        assert(o2 == Some(Box::new(ScenarioNode { neighbor: Some(Box::new(dp)), ..t })));
        if x == t.id {
        } else if opt_contains(t.child, x) {
        } else {
            assert(opt_contains(t.neighbor, x));
            lemma_with_bt_contains(t.neighbor, BranchType::Neighbor, x);
            lemma_with_bt_find(t.neighbor, BranchType::Neighbor, x);
            assert(node_contains(dp, x));
            assert(spec_find(o2, x) == spec_find(Some(Box::new(dp)), x));
            assert(spec_find(Some(Box::new(dp)), x) == spec_find(
                with_bt(t.neighbor, BranchType::Neighbor),
                x,
            ));
            assert(spec_find(o2, x).unwrap().value == spec_find(t.neighbor, x).unwrap().value);
        }
    } else if opt_contains(t.child, a) {
        lemma_attach_neighbor_contains(t.child, a, ScenarioNode { neighbor: None, ..d }, x);
        lemma_attach_neighbor_ignores_neighbor(t.child, a, d);
        let o2 = spec_attach_neighbor(o, a, d);
        assert(o2 == Some(
            Box::new(ScenarioNode { child: spec_attach_neighbor(t.child, a, d), ..t }),
        ));
        if x == t.id {
        } else if opt_contains(t.child, x) {
            lemma_attach_neighbor_find_other(t.child, a, d, x);
        } else {
            assert(opt_contains(t.neighbor, x));
            assert(!opt_contains(spec_attach_neighbor(t.child, a, d), x));
            assert(spec_find(o2, x) == spec_find(t.neighbor, x));
        }
    } else {
        assert(opt_contains(t.neighbor, a));
        lemma_attach_neighbor_contains(t.neighbor, a, ScenarioNode { neighbor: None, ..d }, x);
        lemma_attach_neighbor_ignores_neighbor(t.neighbor, a, d);
        let o2 = spec_attach_neighbor(o, a, d);
        assert(o2 == Some(
            Box::new(ScenarioNode { neighbor: spec_attach_neighbor(t.neighbor, a, d), ..t }),
        ));
        if x == t.id {
        } else if opt_contains(t.child, x) {
        } else {
            lemma_attach_neighbor_find_other(t.neighbor, a, d, x);
        }
    }
}

/// What splicing `b` in above `a` makes reachable: the old contents
/// and the new node, nothing else.
pub proof fn lemma_insert_before_contains(
    o: Option<Box<ScenarioNode>>,
    a: i32,
    b: ScenarioNode,
    x: i32,
)
    requires
        opt_contains(o, a),
    ensures
        opt_contains(spec_insert_before(o, a, b), x) == (opt_contains(o, x) || b.id == x
            || opt_contains(b.child, x)),
    decreases o,
{
    reveal_with_fuel(opt_contains, 3);
    reveal_with_fuel(node_contains, 3);
    let t = *o.unwrap();
    if t.id == a {
        let o2 = spec_insert_before(o, a, b);
        assert(o2 == Some(
            Box::new(
                ScenarioNode {
                    value: b.value,
                    bt: t.bt,
                    id: b.id,
                    child: b.child,
                    neighbor: Some(Box::new(ScenarioNode { bt: BranchType::Neighbor, ..t })),
                },
            ),
        ));
        assert(node_contains(ScenarioNode { bt: BranchType::Neighbor, ..t }, x) == node_contains(
            t,
            x,
        ));
    } else if opt_contains(t.child, a) {
        lemma_insert_before_contains(t.child, a, b, x);
        assert(opt_contains(spec_insert_before(o, a, b), x) == (t.id == x || opt_contains(
            spec_insert_before(t.child, a, b),
            x,
        ) || opt_contains(t.neighbor, x)));
    } else {
        assert(opt_contains(t.neighbor, a));
        lemma_insert_before_contains(t.neighbor, a, b, x);
        assert(opt_contains(spec_insert_before(o, a, b), x) == (t.id == x || opt_contains(
            t.child,
            x,
        ) || opt_contains(spec_insert_before(t.neighbor, a, b), x)));
    }
}

/// Detaching a freshly spliced-in node undoes the splice exactly: the
/// demoted node is promoted back into its old slot with its old role,
/// and the node leaves carrying the role of the slot it sat in.
pub proof fn lemma_insert_before_detach(o: Option<Box<ScenarioNode>>, a: i32, nb: ScenarioNode)
    requires
        opt_contains(o, a),
        !opt_contains(o, nb.id),
        nb.id != a,
    ensures
        spec_detach(spec_insert_before(o, a, nb), nb.id) == (
            o,
            Some(
                Box::new(
                    ScenarioNode {
                        bt: spec_find(o, a).unwrap().bt,
                        neighbor: None,
                        ..nb
                    },
                ),
            ),
        ),
    decreases o,
{
    reveal_with_fuel(opt_contains, 3);
    reveal_with_fuel(node_contains, 3);
    reveal_with_fuel(spec_detach, 3);
    let t = *o.unwrap();
    if t.id == a {
        let demoted = ScenarioNode { bt: BranchType::Neighbor, ..t };
        let inserted = ScenarioNode {
            value: nb.value,
            bt: t.bt,
            id: nb.id,
            child: nb.child,
            neighbor: Some(Box::new(demoted)),
        };
        let o2 = spec_insert_before(o, a, nb);
        assert(o2 == Some(Box::new(inserted)));
        assert(spec_detach(o2, nb.id) == (
            with_bt(Some(Box::new(demoted)), t.bt),
            Some(Box::new(strip_neighbor(inserted))),
        ));
        assert((ScenarioNode { bt: t.bt, ..demoted }) == t);
        assert(strip_neighbor(inserted) == (ScenarioNode { bt: t.bt, neighbor: None, ..nb }));
    } else if opt_contains(t.child, a) {
        lemma_insert_before_contains(t.child, a, nb, nb.id);
        lemma_insert_before_detach(t.child, a, nb);
        let o2 = spec_insert_before(o, a, nb);
        assert(o2 == Some(
            Box::new(ScenarioNode { child: spec_insert_before(t.child, a, nb), ..t }),
        ));
        assert(t.id != nb.id);
        assert(opt_contains(spec_insert_before(t.child, a, nb), nb.id));
        assert(spec_detach(o2, nb.id) == (
            Some(Box::new(ScenarioNode { child: t.child, ..t })),
            Some(
                Box::new(
                    ScenarioNode {
                        bt: spec_find(t.child, a).unwrap().bt,
                        neighbor: None,
                        ..nb
                    },
                ),
            ),
        ));
        assert(Some(Box::new(ScenarioNode { child: t.child, ..t })) == o);
    } else {
        assert(opt_contains(t.neighbor, a));
        lemma_insert_before_contains(t.neighbor, a, nb, nb.id);
        lemma_insert_before_detach(t.neighbor, a, nb);
        let o2 = spec_insert_before(o, a, nb);
        assert(o2 == Some(
            Box::new(ScenarioNode { neighbor: spec_insert_before(t.neighbor, a, nb), ..t }),
        ));
        assert(t.id != nb.id);
        assert(!opt_contains(t.child, nb.id));
        assert(opt_contains(spec_insert_before(t.neighbor, a, nb), nb.id));
        assert(spec_detach(o2, nb.id) == (
            Some(Box::new(ScenarioNode { neighbor: t.neighbor, ..t })),
            Some(
                Box::new(
                    ScenarioNode {
                        bt: spec_find(t.neighbor, a).unwrap().bt,
                        neighbor: None,
                        ..nb
                    },
                ),
            ),
        ));
        assert(Some(Box::new(ScenarioNode { neighbor: t.neighbor, ..t })) == o);
    }
}

/// Where a freshly spliced-in node is found: at its own id, carrying
/// its child subtree, in the role of the slot it took over.
pub proof fn lemma_insert_before_find_new(o: Option<Box<ScenarioNode>>, a: i32, d: ScenarioNode)
    requires
        opt_contains(o, a),
        !opt_contains(o, d.id),
    ensures
        opt_contains(spec_insert_before(o, a, d), d.id),
        ({
            let found = spec_find(spec_insert_before(o, a, d), d.id).unwrap();
            found.value == d.value && found.id == d.id && found.child == d.child
        }),
    decreases o,
{
    reveal_with_fuel(opt_contains, 3);
    reveal_with_fuel(node_contains, 3);
    let t = *o.unwrap();
    lemma_insert_before_contains(o, a, d, d.id);
    if t.id == a {
        let demoted = ScenarioNode { bt: BranchType::Neighbor, ..t };
        let inserted = ScenarioNode {
            value: d.value,
            bt: t.bt,
            id: d.id,
            child: d.child,
            neighbor: Some(Box::new(demoted)),
        };
        assert(spec_insert_before(o, a, d) == Some(Box::new(inserted)));
    } else if opt_contains(t.child, a) {
        lemma_insert_before_find_new(t.child, a, d);
        lemma_insert_before_contains(t.child, a, d, d.id);
        let o2 = spec_insert_before(o, a, d);
        assert(o2 == Some(
            Box::new(ScenarioNode { child: spec_insert_before(t.child, a, d), ..t }),
        ));
        assert(t.id != d.id);
        assert(opt_contains(spec_insert_before(t.child, a, d), d.id));
    } else {
        assert(opt_contains(t.neighbor, a));
        lemma_insert_before_find_new(t.neighbor, a, d);
        lemma_insert_before_contains(t.neighbor, a, d, d.id);
        let o2 = spec_insert_before(o, a, d);
        assert(o2 == Some(
            Box::new(ScenarioNode { neighbor: spec_insert_before(t.neighbor, a, d), ..t }),
        ));
        assert(t.id != d.id);
        assert(!opt_contains(t.child, d.id));
        assert(opt_contains(spec_insert_before(t.neighbor, a, d), d.id));
    }
}

/// Splicing in a fresh node leaves every other node's item where the
/// search finds it.
pub proof fn lemma_insert_before_find_other(
    o: Option<Box<ScenarioNode>>,
    a: i32,
    d: ScenarioNode,
    x: i32,
)
    requires
        opt_contains(o, a),
        !opt_contains(o, d.id),
        opt_contains(o, x),
        x != d.id,
        !opt_contains(d.child, x),
    ensures
        opt_contains(spec_insert_before(o, a, d), x),
        spec_find(spec_insert_before(o, a, d), x).unwrap().value == spec_find(
            o,
            x,
        ).unwrap().value,
    decreases o,
{
    reveal_with_fuel(opt_contains, 3);
    reveal_with_fuel(node_contains, 3);
    let t = *o.unwrap();
    lemma_insert_before_contains(o, a, d, x);
    if t.id == a {
        let demoted = ScenarioNode { bt: BranchType::Neighbor, ..t };
        let inserted = ScenarioNode {
            value: d.value,
            bt: t.bt,
            id: d.id,
            child: d.child,
            neighbor: Some(Box::new(demoted)),
        };
        let o2 = spec_insert_before(o, a, d);
        assert(o2 == Some(Box::new(inserted)));
        assert(node_contains(t, x));
        assert(node_contains(demoted, x));
        assert(spec_find(o2, x) == spec_find(Some(Box::new(demoted)), x));
        if t.id == x {
            assert(spec_find(o, x) == Some(t));
            assert(spec_find(Some(Box::new(demoted)), x) == Some(demoted));
        } else if opt_contains(t.child, x) {
            assert(spec_find(Some(Box::new(demoted)), x) == spec_find(t.child, x));
            assert(spec_find(o, x) == spec_find(t.child, x));
        } else {
            assert(spec_find(Some(Box::new(demoted)), x) == spec_find(t.neighbor, x));
            assert(spec_find(o, x) == spec_find(t.neighbor, x));
        }
    } else if opt_contains(t.child, a) {
        lemma_insert_before_contains(t.child, a, d, x);
        let o2 = spec_insert_before(o, a, d);
        assert(o2 == Some(
            Box::new(ScenarioNode { child: spec_insert_before(t.child, a, d), ..t }),
        ));
        if x == t.id {
        } else if opt_contains(t.child, x) {
            lemma_insert_before_find_other(t.child, a, d, x);
        } else {
            assert(opt_contains(t.neighbor, x));
            assert(!opt_contains(spec_insert_before(t.child, a, d), x));
            assert(spec_find(o2, x) == spec_find(t.neighbor, x));
        }
    } else {
        assert(opt_contains(t.neighbor, a));
        lemma_insert_before_contains(t.neighbor, a, d, x);
        let o2 = spec_insert_before(o, a, d);
        assert(o2 == Some(
            Box::new(ScenarioNode { neighbor: spec_insert_before(t.neighbor, a, d), ..t }),
        ));
        if x == t.id {
        } else if opt_contains(t.child, x) {
        } else {
            lemma_insert_before_find_other(t.neighbor, a, d, x);
        }
    }
}

/// Splicing in above reads only the node's item, id and child subtree.
pub proof fn lemma_insert_before_same(
    o: Option<Box<ScenarioNode>>,
    a: i32,
    b1: ScenarioNode,
    b2: ScenarioNode,
)
    requires
        b1.value == b2.value,
        b1.id == b2.id,
        b1.child == b2.child,
    ensures
        spec_insert_before(o, a, b1) == spec_insert_before(o, a, b2),
    decreases o,
{
    match o {
        None => {},
        Some(t) => {
            if t.id == a {
            } else if opt_contains(t.child, a) {
                lemma_insert_before_same(t.child, a, b1, b2);
            } else {
                lemma_insert_before_same(t.neighbor, a, b1, b2);
            }
        },
    }
}

/// Undo law for a child move that took the root away: the move promotes
/// the root's neighbor; moving the node back above the new root is a
/// legal insert-above and restores the tree exactly.
pub proof fn lemma_mv_child_undo_from_root(o: Option<Box<ScenarioNode>>, a: i32, b: i32)
    requires
        opt_uniq(o),
        crate::codec::opt_roles_ok(o, BranchType::Child),
        opt_grammar_ok(o),
        mv_child_ok(o, a, b),
        tree_slot_of(o, b).unwrap().0 is None,
    ensures
        ({
            let o2 = spec_mv_child(o, a, b);
            o2 matches Some(rt) && mv_parent_ok(o2, rt.id, b) && spec_mv_parent(o2, rt.id, b)
                == o
        }),
{
    let (rest, det) = spec_detach(o, b);
    lemma_slot_exists(o, b);
    lemma_find_detach(o, b);
    lemma_find_id(o, b);
    let d = *det.unwrap();
    lemma_detach_removes(o, b);
    lemma_detach_keeps(o, b, a);
    lemma_detach_roles(o, b, BranchType::Child);
    lemma_detach_attach_at(o, b, BranchType::Child);
    let rt0 = *rest.unwrap();
    assert(ScenarioNode::can_be_neighbor_spec(d.value, rt0.value) && spec_insert_before(
        rest,
        rt0.id,
        d,
    ) == o);
    let o2 = spec_mv_child(o, a, b);
    assert(o2 == spec_attach_child(rest, a, d));
    assert(o2 matches Some(rt) && rt.id == rt0.id);
    lemma_find_roles(rest, BranchType::Child, a);
    lemma_attach_child_detach(rest, a, d);
    let d2 = ScenarioNode { bt: BranchType::Child, neighbor: None, ..d };
    assert(spec_detach(o2, b) == (rest, Some(Box::new(d2))));
    lemma_attach_contains(rest, a, d, b);
    lemma_attach_contains(rest, a, d, rt0.id);
    lemma_attach_child_find_new(rest, a, d);
    lemma_detach_disjoint(o, b, rt0.id);
    lemma_attach_child_find_other(rest, a, d, rt0.id);
    assert(spec_find(rest, rt0.id) == Some(rt0));
    assert(tree_slot_of(o2, rt0.id) == Some((None::<i32>, BranchType::Child)));
    lemma_mv_preserves_uniq(o, a, b);
    lemma_detach_grammar(o, b);
    lemma_detach_back(o2, b, rt0.id);
    assert(mv_parent_ok(o2, rt0.id, b));
    lemma_insert_before_same(rest, rt0.id, d2, d);
    assert(spec_mv_parent(o2, rt0.id, b) == spec_insert_before(rest, rt0.id, d));
}

/// Undo law for a sibling move that took the root away.
pub proof fn lemma_mv_neighbor_undo_from_root(o: Option<Box<ScenarioNode>>, a: i32, b: i32)
    requires
        opt_uniq(o),
        crate::codec::opt_roles_ok(o, BranchType::Child),
        opt_grammar_ok(o),
        mv_neighbor_ok(o, a, b),
        tree_slot_of(o, b).unwrap().0 is None,
    ensures
        ({
            let o2 = spec_mv_neighbor(o, a, b);
            o2 matches Some(rt) && mv_parent_ok(o2, rt.id, b) && spec_mv_parent(o2, rt.id, b)
                == o
        }),
{
    let (rest, det) = spec_detach(o, b);
    lemma_slot_exists(o, b);
    lemma_find_detach(o, b);
    lemma_find_id(o, b);
    let d = *det.unwrap();
    lemma_detach_removes(o, b);
    lemma_detach_keeps(o, b, a);
    lemma_detach_roles(o, b, BranchType::Child);
    lemma_detach_attach_at(o, b, BranchType::Child);
    let rt0 = *rest.unwrap();
    assert(ScenarioNode::can_be_neighbor_spec(d.value, rt0.value) && spec_insert_before(
        rest,
        rt0.id,
        d,
    ) == o);
    let o2 = spec_mv_neighbor(o, a, b);
    assert(o2 == spec_attach_neighbor(rest, a, d));
    assert(o2 matches Some(rt) && rt.id == rt0.id);
    lemma_find_roles_neighbor(rest, BranchType::Child, a);
    lemma_attach_neighbor_detach(rest, a, d);
    let d2 = ScenarioNode { bt: BranchType::Neighbor, neighbor: None, ..d };
    assert(spec_detach(o2, b) == (rest, Some(Box::new(d2))));
    lemma_attach_neighbor_contains(rest, a, d, b);
    lemma_attach_neighbor_contains(rest, a, d, rt0.id);
    lemma_attach_neighbor_find_new(rest, a, d);
    lemma_detach_disjoint(o, b, rt0.id);
    lemma_attach_neighbor_find_other(rest, a, d, rt0.id);
    assert(spec_find(rest, rt0.id) == Some(rt0));
    assert(tree_slot_of(o2, rt0.id) == Some((None::<i32>, BranchType::Child)));
    lemma_mv_preserves_uniq(o, a, b);
    lemma_detach_grammar(o, b);
    lemma_detach_back(o2, b, rt0.id);
    assert(mv_parent_ok(o2, rt0.id, b));
    lemma_insert_before_same(rest, rt0.id, d2, d);
    assert(spec_mv_parent(o2, rt0.id, b) == spec_insert_before(rest, rt0.id, d));
}

/// Undo law for the insert-above move in a well-formed tree: after `b`
/// takes over `a`'s position, moving `b` back to its recorded slot is
/// again a legal move and restores the tree exactly.
pub proof fn lemma_mv_parent_undo(o: Option<Box<ScenarioNode>>, a: i32, b: i32)
    requires
        opt_uniq(o),
        crate::codec::opt_roles_ok(o, BranchType::Child),
        opt_grammar_ok(o),
        mv_parent_ok(o, a, b),
        tree_slot_of(o, b).unwrap().0 is Some,
    ensures
        ({
            let o2 = spec_mv_parent(o, a, b);
            let slot = tree_slot_of(o, b).unwrap();
            let p = slot.0.unwrap();
            match slot.1 {
                BranchType::Child => mv_child_ok(o2, p, b) && spec_mv_child(o2, p, b) == o,
                BranchType::Neighbor => mv_neighbor_ok(o2, p, b) && spec_mv_neighbor(o2, p, b)
                    == o,
            }
        }),
{
    let (rest, det) = spec_detach(o, b);
    lemma_slot_exists(o, b);
    lemma_find_detach(o, b);
    lemma_find_id(o, b);
    let d = *det.unwrap();
    assert(d.neighbor is None);
    assert(d.id == b);
    lemma_detach_removes(o, b);
    lemma_detach_keeps(o, b, a);
    lemma_detach_attach_at(o, b, BranchType::Child);
    let slot = tree_slot_of(o, b).unwrap();
    let p = slot.0.unwrap();
    let o2 = spec_mv_parent(o, a, b);
    assert(o2 == spec_insert_before(rest, a, d));
    lemma_insert_before_detach(rest, a, d);
    let d3 = ScenarioNode { bt: spec_find(rest, a).unwrap().bt, neighbor: None, ..d };
    assert(spec_detach(o2, b) == (rest, Some(Box::new(d3))));
    lemma_insert_before_contains(rest, a, d, b);
    lemma_insert_before_find_new(rest, a, d);
    match slot.1 {
        BranchType::Child => {
            assert(opt_contains(rest, p) && ScenarioNode::can_be_child_spec(
                spec_find(rest, p).unwrap().value,
                d.value,
            ) && spec_attach_child(rest, p, d) == o);
            lemma_insert_before_contains(rest, a, d, p);
            lemma_detach_disjoint(o, b, p);
            lemma_insert_before_find_other(rest, a, d, p);
            lemma_mv_preserves_uniq(o, a, b);
            lemma_detach_grammar(o, b);
            lemma_attach_child_find_new(rest, p, d);
            lemma_find_grammar(o, b);
            assert(attach_child_demote_ok(rest, p, d.value)) by {
                match spec_find(rest, p).unwrap().child {
                    Some(c) => {
                        assert(spec_find(o, b).unwrap().neighbor == Some(
                            Box::new(ScenarioNode { bt: BranchType::Neighbor, ..*c }),
                        ));
                    },
                    None => {},
                }
            }
            lemma_detach_back(o2, b, p);
            assert(mv_child_ok(o2, p, b));
            lemma_attach_child_same(rest, p, d3, d);
            assert(spec_mv_child(o2, p, b) == spec_attach_child(rest, p, d));
        },
        BranchType::Neighbor => {
            assert(opt_contains(rest, p) && ScenarioNode::can_be_neighbor_spec(
                spec_find(rest, p).unwrap().value,
                d.value,
            ) && spec_attach_neighbor(rest, p, d) == o);
            lemma_insert_before_contains(rest, a, d, p);
            lemma_detach_disjoint(o, b, p);
            lemma_insert_before_find_other(rest, a, d, p);
            lemma_mv_preserves_uniq(o, a, b);
            lemma_detach_grammar(o, b);
            lemma_attach_neighbor_find_new(rest, p, d);
            lemma_find_grammar(o, b);
            assert(attach_neighbor_demote_ok(rest, p, d.value)) by {
                match spec_find(rest, p).unwrap().neighbor {
                    Some(c) => {
                        assert(spec_find(o, b).unwrap().neighbor == Some(
                            Box::new(ScenarioNode { bt: BranchType::Neighbor, ..*c }),
                        ));
                    },
                    None => {},
                }
            }
            lemma_detach_back(o2, b, p);
            assert(mv_neighbor_ok(o2, p, b));
            lemma_attach_neighbor_same(rest, p, d3, d);
            assert(spec_mv_neighbor(o2, p, b) == spec_attach_neighbor(rest, p, d));
        },
    }
}

/// Undo law for a child move in a well-formed tree: after moving `b`
/// under `a`, moving it back to its recorded slot (its old parent's
/// child slot or its old predecessor's sibling slot) is again a legal
/// move and restores the tree exactly.
pub proof fn lemma_mv_child_undo(o: Option<Box<ScenarioNode>>, a: i32, b: i32)
    requires
        opt_uniq(o),
        crate::codec::opt_roles_ok(o, BranchType::Child),
        opt_grammar_ok(o),
        mv_child_ok(o, a, b),
        tree_slot_of(o, b).unwrap().0 is Some,
    ensures
        ({
            let o2 = spec_mv_child(o, a, b);
            let slot = tree_slot_of(o, b).unwrap();
            let p = slot.0.unwrap();
            match slot.1 {
                BranchType::Child => mv_child_ok(o2, p, b) && spec_mv_child(o2, p, b) == o,
                BranchType::Neighbor => mv_neighbor_ok(o2, p, b) && spec_mv_neighbor(o2, p, b)
                    == o,
            }
        }),
{
    let (rest, det) = spec_detach(o, b);
    lemma_slot_exists(o, b);
    lemma_find_detach(o, b);
    lemma_find_id(o, b);
    let d = *det.unwrap();
    assert(d.neighbor is None);
    assert(d.id == b);
    lemma_detach_removes(o, b);
    lemma_detach_keeps(o, b, a);
    lemma_detach_roles(o, b, BranchType::Child);
    lemma_detach_attach_at(o, b, BranchType::Child);
    let slot = tree_slot_of(o, b).unwrap();
    let p = slot.0.unwrap();
    let o2 = spec_mv_child(o, a, b);
    assert(o2 == spec_attach_child(rest, a, d));
    lemma_find_roles(rest, BranchType::Child, a);
    lemma_attach_child_detach(rest, a, d);
    let d2 = ScenarioNode { bt: BranchType::Child, neighbor: None, ..d };
    assert(spec_detach(o2, b) == (rest, Some(Box::new(d2))));
    lemma_attach_contains(rest, a, d, b);
    lemma_attach_child_find_new(rest, a, d);
    match slot.1 {
        BranchType::Child => {
            assert(opt_contains(rest, p) && ScenarioNode::can_be_child_spec(
                spec_find(rest, p).unwrap().value,
                d.value,
            ) && spec_attach_child(rest, p, d) == o);
            lemma_attach_contains(rest, a, d, p);
            lemma_detach_disjoint(o, b, p);
            lemma_attach_child_find_other(rest, a, d, p);
            lemma_mv_preserves_uniq(o, a, b);
            lemma_detach_grammar(o, b);
            lemma_attach_child_find_new(rest, p, d);
            lemma_find_grammar(o, b);
            assert(attach_child_demote_ok(rest, p, d.value)) by {
                match spec_find(rest, p).unwrap().child {
                    Some(c) => {
                        assert(spec_find(o, b).unwrap().neighbor == Some(
                            Box::new(ScenarioNode { bt: BranchType::Neighbor, ..*c }),
                        ));
                    },
                    None => {},
                }
            }
            lemma_detach_back(o2, b, p);
            assert(mv_child_ok(o2, p, b));
            lemma_attach_child_same(rest, p, d2, d);
            assert(spec_mv_child(o2, p, b) == spec_attach_child(rest, p, d));
        },
        BranchType::Neighbor => {
            assert(opt_contains(rest, p) && ScenarioNode::can_be_neighbor_spec(
                spec_find(rest, p).unwrap().value,
                d.value,
            ) && spec_attach_neighbor(rest, p, d) == o);
            lemma_attach_contains(rest, a, d, p);
            lemma_detach_disjoint(o, b, p);
            lemma_attach_child_find_other(rest, a, d, p);
            lemma_mv_preserves_uniq(o, a, b);
            lemma_detach_grammar(o, b);
            lemma_attach_neighbor_find_new(rest, p, d);
            lemma_find_grammar(o, b);
            assert(attach_neighbor_demote_ok(rest, p, d.value)) by {
                match spec_find(rest, p).unwrap().neighbor {
                    Some(c) => {
                        assert(spec_find(o, b).unwrap().neighbor == Some(
                            Box::new(ScenarioNode { bt: BranchType::Neighbor, ..*c }),
                        ));
                    },
                    None => {},
                }
            }
            lemma_detach_back(o2, b, p);
            assert(mv_neighbor_ok(o2, p, b));
            lemma_attach_neighbor_same(rest, p, d2, d);
            assert(spec_mv_neighbor(o2, p, b) == spec_attach_neighbor(rest, p, d));
        },
    }
}

/// Undo law for a sibling move in a well-formed tree: after moving `b`
/// to follow `a`, moving it back to its recorded slot is again a legal
/// move and restores the tree exactly.
pub proof fn lemma_mv_neighbor_undo(o: Option<Box<ScenarioNode>>, a: i32, b: i32)
    requires
        opt_uniq(o),
        crate::codec::opt_roles_ok(o, BranchType::Child),
        opt_grammar_ok(o),
        mv_neighbor_ok(o, a, b),
        tree_slot_of(o, b).unwrap().0 is Some,
    ensures
        ({
            let o2 = spec_mv_neighbor(o, a, b);
            let slot = tree_slot_of(o, b).unwrap();
            let p = slot.0.unwrap();
            match slot.1 {
                BranchType::Child => mv_child_ok(o2, p, b) && spec_mv_child(o2, p, b) == o,
                BranchType::Neighbor => mv_neighbor_ok(o2, p, b) && spec_mv_neighbor(o2, p, b)
                    == o,
            }
        }),
{
    let (rest, det) = spec_detach(o, b);
    lemma_slot_exists(o, b);
    lemma_find_detach(o, b);
    lemma_find_id(o, b);
    let d = *det.unwrap();
    assert(d.neighbor is None);
    assert(d.id == b);
    lemma_detach_removes(o, b);
    lemma_detach_keeps(o, b, a);
    lemma_detach_roles(o, b, BranchType::Child);
    lemma_detach_attach_at(o, b, BranchType::Child);
    let slot = tree_slot_of(o, b).unwrap();
    let p = slot.0.unwrap();
    let o2 = spec_mv_neighbor(o, a, b);
    assert(o2 == spec_attach_neighbor(rest, a, d));
    lemma_find_roles_neighbor(rest, BranchType::Child, a);
    lemma_attach_neighbor_detach(rest, a, d);
    let d2 = ScenarioNode { bt: BranchType::Neighbor, neighbor: None, ..d };
    assert(spec_detach(o2, b) == (rest, Some(Box::new(d2))));
    lemma_attach_neighbor_contains(rest, a, d, b);
    lemma_attach_neighbor_find_new(rest, a, d);
    match slot.1 {
        BranchType::Child => {
            assert(opt_contains(rest, p) && ScenarioNode::can_be_child_spec(
                spec_find(rest, p).unwrap().value,
                d.value,
            ) && spec_attach_child(rest, p, d) == o);
            lemma_attach_neighbor_contains(rest, a, d, p);
            lemma_detach_disjoint(o, b, p);
            lemma_attach_neighbor_find_other(rest, a, d, p);
            lemma_mv_preserves_uniq(o, a, b);
            lemma_detach_grammar(o, b);
            lemma_attach_child_find_new(rest, p, d);
            lemma_find_grammar(o, b);
            assert(attach_child_demote_ok(rest, p, d.value)) by {
                match spec_find(rest, p).unwrap().child {
                    Some(c) => {
                        assert(spec_find(o, b).unwrap().neighbor == Some(
                            Box::new(ScenarioNode { bt: BranchType::Neighbor, ..*c }),
                        ));
                    },
                    None => {},
                }
            }
            lemma_detach_back(o2, b, p);
            assert(mv_child_ok(o2, p, b));
            lemma_attach_child_same(rest, p, d2, d);
            assert(spec_mv_child(o2, p, b) == spec_attach_child(rest, p, d));
        },
        BranchType::Neighbor => {
            assert(opt_contains(rest, p) && ScenarioNode::can_be_neighbor_spec(
                spec_find(rest, p).unwrap().value,
                d.value,
            ) && spec_attach_neighbor(rest, p, d) == o);
            lemma_attach_neighbor_contains(rest, a, d, p);
            lemma_detach_disjoint(o, b, p);
            lemma_attach_neighbor_find_other(rest, a, d, p);
            lemma_mv_preserves_uniq(o, a, b);
            lemma_detach_grammar(o, b);
            lemma_attach_neighbor_find_new(rest, p, d);
            lemma_find_grammar(o, b);
            assert(attach_neighbor_demote_ok(rest, p, d.value)) by {
                match spec_find(rest, p).unwrap().neighbor {
                    Some(c) => {
                        assert(spec_find(o, b).unwrap().neighbor == Some(
                            Box::new(ScenarioNode { bt: BranchType::Neighbor, ..*c }),
                        ));
                    },
                    None => {},
                }
            }
            lemma_detach_back(o2, b, p);
            assert(mv_neighbor_ok(o2, p, b));
            lemma_attach_neighbor_same(rest, p, d2, d);
            assert(spec_mv_neighbor(o2, p, b) == spec_attach_neighbor(rest, p, d));
        },
    }
}

/// Inverse law for moving under a new parent: moving `b` to be `a`'s
/// first child and then removing `b` puts `a`'s child link back to what
/// it was before the move.  (This needs `b` to start outside `a`'s
/// child subtree: removing a node that already led `a`'s children would
/// leave `a` with `b`'s old neighbor instead.)
pub proof fn lemma_mv_child_remove_inverse(o: Option<Box<ScenarioNode>>, a: i32, b: i32)
    requires
        opt_uniq(o),
        crate::codec::opt_roles_ok(o, BranchType::Child),
        mv_child_ok(o, a, b),
        !opt_contains(spec_find(o, a).unwrap().child, b),
    ensures
        ({
            let o3 = spec_detach(spec_mv_child(o, a, b), b).0;
            opt_contains(o3, a) && spec_find(o3, a).unwrap().child == spec_find(
                o,
                a,
            ).unwrap().child
        }),
{
    let (rest, det) = spec_detach(o, b);
    lemma_find_detach(o, b);
    lemma_find_id(o, b);
    lemma_detach_keeps(o, b, a);
    lemma_detach_removes(o, b);
    lemma_detach_find_child(o, b, a);
    lemma_find_roles(o, BranchType::Child, a);
    let d = *det.unwrap();
    assert(d.id == b);
    lemma_attach_child_detach(rest, a, d);
    assert(spec_detach(spec_mv_child(o, a, b), b).0 == rest);
}

/// Re-attachment of an owned node at a recorded slot: at the root
/// position the node becomes the root of an empty tree or is spliced in
/// above the current root; elsewhere it becomes the owner's first child
/// or next sibling.  `None` when the slot no longer resolves or the
/// grammar refuses the node.
pub open spec fn spec_attach_at(
    o: Option<Box<ScenarioNode>>,
    owner: Option<i32>,
    bt: BranchType,
    b: ScenarioNode,
) -> Option<Option<Box<ScenarioNode>>> {
    match owner {
        None => match o {
            None => Some(Some(Box::new(ScenarioNode { bt: BranchType::Child, ..b }))),
            Some(t) => {
                if ScenarioNode::can_be_neighbor_spec(b.value, t.value) {
                    Some(spec_insert_before(o, t.id, b))
                } else {
                    None
                }
            },
        },
        Some(p) => match bt {
            BranchType::Child => {
                if opt_contains(o, p) && ScenarioNode::can_be_child_spec(
                    spec_find(o, p).unwrap().value,
                    b.value,
                ) && attach_child_demote_ok(o, p, b.value) {
                    Some(spec_attach_child(o, p, b))
                } else {
                    None
                }
            },
            BranchType::Neighbor => {
                if opt_contains(o, p) && ScenarioNode::can_be_neighbor_spec(
                    spec_find(o, p).unwrap().value,
                    b.value,
                ) && attach_neighbor_demote_ok(o, p, b.value) {
                    Some(spec_attach_neighbor(o, p, b))
                } else {
                    None
                }
            },
        },
    }
}

/// The grammar invariant of a slot: every child link joins a pair the
/// child table allows, every neighbor link a pair the sibling table
/// allows, throughout the subtree.
pub open spec fn opt_grammar_ok(o: Option<Box<ScenarioNode>>) -> bool
    decreases o,
{
    match o {
        None => true,
        Some(t) => node_grammar_ok(*t),
    }
}

pub open spec fn node_grammar_ok(t: ScenarioNode) -> bool
    decreases t,
{
    &&& (match t.child {
        Some(c) => ScenarioNode::can_be_child_spec(t.value, c.value) && node_grammar_ok(*c),
        None => true,
    })
    &&& (match t.neighbor {
        Some(n) => ScenarioNode::can_be_neighbor_spec(t.value, n.value) && node_grammar_ok(*n),
        None => true,
    })
}

/// Which structural family a node's label lives in: mats and page-sized
/// mats resolve against mat labels, scenes against scene labels.
#[derive(Debug, Clone, Copy, PartialEq, Eq, Structural)]
pub enum LabelFamily {
    MatLike,
    SceneLike,
}

pub open spec fn family_of(v: Item) -> Option<LabelFamily> {
    match v {
        Item::Mat(_) | Item::Pmat(_) => Some(LabelFamily::MatLike),
        Item::Scene(_) => Some(LabelFamily::SceneLike),
        _ => None,
    }
}

/// The label name a node references, when its slot is `Ref` or
/// `RefNoRect` and carries a name.
pub open spec fn ref_label_of(v: Item) -> Option<Seq<char>> {
    match v {
        Item::Mat(m) | Item::Pmat(m) => {
            if (m.lbl_type == LabelType::Ref || m.lbl_type == LabelType::RefNoRect)
                && m.lbl is Some {
                Some(m.lbl.unwrap()@)
            } else {
                None
            }
        },
        Item::Scene(s) => {
            if (s.lbl_type == LabelType::Ref || s.lbl_type == LabelType::RefNoRect)
                && s.lbl is Some {
                Some(s.lbl.unwrap()@)
            } else {
                None
            }
        },
        _ => None,
    }
}

/// The label name a node defines, when its slot is `Def` and carries a
/// name.
pub open spec fn def_label_of(v: Item) -> Option<Seq<char>> {
    match v {
        Item::Mat(m) | Item::Pmat(m) => {
            if m.lbl_type == LabelType::Def && m.lbl is Some {
                Some(m.lbl.unwrap()@)
            } else {
                None
            }
        },
        Item::Scene(s) => {
            if s.lbl_type == LabelType::Def && s.lbl is Some {
                Some(s.lbl.unwrap()@)
            } else {
                None
            }
        },
        _ => None,
    }
}

/// The first node in preorder defining `lbl` in the given family.
pub open spec fn spec_find_def(
    o: Option<Box<ScenarioNode>>,
    fam: LabelFamily,
    lbl: Seq<char>,
) -> Option<i32>
    decreases o,
{
    match o {
        None => None,
        Some(t) => {
            if family_of(t.value) == Some(fam) && def_label_of(t.value) == Some(lbl) {
                Some(t.id)
            } else {
                match spec_find_def(t.child, fam, lbl) {
                    Some(x) => Some(x),
                    None => spec_find_def(t.neighbor, fam, lbl),
                }
            }
        },
    }
}

/// Where the label reference of the node carrying `id` resolves: the
/// first node of the same family defining that name, searched over the
/// full tree.
pub open spec fn spec_search_def_label(o: Option<Box<ScenarioNode>>, id: i32) -> Option<i32> {
    match spec_find(o, id) {
        None => None,
        Some(n) => match (family_of(n.value), ref_label_of(n.value)) {
            (Some(fam), Some(lbl)) => spec_find_def(o, fam, lbl),
            _ => None,
        },
    }
}

/// The nearest node, walking from the node carrying `id` up through the
/// links that reach it (predecessors and parents), that satisfies the
/// belong predicate; the node itself counts.
pub open spec fn spec_belong(
    o: Option<Box<ScenarioNode>>,
    id: i32,
    fam: BelongKind,
) -> Option<i32>
    decreases o,
{
    match o {
        None => None,
        Some(t) => {
            if t.id == id {
                if belong_matches(fam, t.value) {
                    Some(t.id)
                } else {
                    None
                }
            } else if opt_contains(t.child, id) {
                match spec_belong(t.child, id, fam) {
                    Some(x) => Some(x),
                    None => {
                        if belong_matches(fam, t.value) {
                            Some(t.id)
                        } else {
                            None
                        }
                    },
                }
            } else if opt_contains(t.neighbor, id) {
                match spec_belong(t.neighbor, id, fam) {
                    Some(x) => Some(x),
                    None => {
                        if belong_matches(fam, t.value) {
                            Some(t.id)
                        } else {
                            None
                        }
                    },
                }
            } else {
                None
            }
        },
    }
}

/// The kinds the upward belong-searches look for: a group, a scene, or
/// a click unit (a page or a page-sized mat).
#[derive(Debug, Clone, Copy, PartialEq, Eq, Structural)]
pub enum BelongKind {
    Group,
    Scene,
    Page,
}

pub open spec fn belong_matches(fam: BelongKind, v: Item) -> bool {
    match fam {
        BelongKind::Group => v is Group,
        BelongKind::Scene => v is Scene,
        BelongKind::Page => v is Page || v is Pmat,
    }
}

fn belong_matches_x(fam: BelongKind, v: &Item) -> (r: bool)
    ensures
        r == belong_matches(fam, *v),
{
    match fam {
        BelongKind::Group => {
            if let Item::Group = v {
                true
            } else {
                false
            }
        },
        BelongKind::Scene => {
            if let Item::Scene(_) = v {
                true
            } else {
                false
            }
        },
        BelongKind::Page => {
            match v {
                Item::Page(_) => true,
                Item::Pmat(_) => true,
                _ => false,
            }
        },
    }
}

fn belong_x(o: &Option<Box<ScenarioNode>>, id: i32, fam: BelongKind) -> (r: Option<i32>)
    ensures
        r == spec_belong(*o, id, fam),
    decreases *o,
{
    match o {
        None => None,
        Some(t) => {
            if t.id == id {
                if belong_matches_x(fam, &t.value) {
                    Some(t.id)
                } else {
                    None
                }
            } else if opt_contains_x(&t.child, id) {
                match belong_x(&t.child, id, fam) {
                    Some(x) => Some(x),
                    None => {
                        if belong_matches_x(fam, &t.value) {
                            Some(t.id)
                        } else {
                            None
                        }
                    },
                }
            } else if opt_contains_x(&t.neighbor, id) {
                match belong_x(&t.neighbor, id, fam) {
                    Some(x) => Some(x),
                    None => {
                        if belong_matches_x(fam, &t.value) {
                            Some(t.id)
                        } else {
                            None
                        }
                    },
                }
            } else {
                None
            }
        },
    }
}

fn find_def_x(o: &Option<Box<ScenarioNode>>, fam: LabelFamily, lbl: &str) -> (r: Option<i32>)
    ensures
        r == spec_find_def(*o, fam, lbl@),
    decreases *o,
{
    match o {
        None => None,
        Some(t) => {
            let is_def = match (&t.value, fam) {
                (Item::Mat(m), LabelFamily::MatLike) | (Item::Pmat(m), LabelFamily::MatLike) => {
                    match (&m.lbl_type, &m.lbl) {
                        (LabelType::Def, Some(l)) => crate::scenario_node::str_eq(
                            l.as_str(),
                            lbl,
                        ),
                        _ => false,
                    }
                },
                (Item::Scene(s), LabelFamily::SceneLike) => {
                    match (&s.lbl_type, &s.lbl) {
                        (LabelType::Def, Some(l)) => crate::scenario_node::str_eq(
                            l.as_str(),
                            lbl,
                        ),
                        _ => false,
                    }
                },
                _ => false,
            };
            if is_def {
                Some(t.id)
            } else {
                match find_def_x(&t.child, fam, lbl) {
                    Some(x) => Some(x),
                    None => find_def_x(&t.neighbor, fam, lbl),
                }
            }
        },
    }
}

/// The scenes of a subtree that carry a background image, in preorder,
/// paired with their paths.
pub open spec fn spec_scene_bgimgs(o: Option<Box<ScenarioNode>>) -> Seq<(i32, String)>
    decreases o,
{
    match o {
        None => Seq::empty(),
        Some(t) => {
            let here = match t.value {
                Item::Scene(s) => match s.bgimg {
                    Some(p) => seq![(t.id, p)],
                    None => Seq::empty(),
                },
                _ => Seq::empty(),
            };
            here + spec_scene_bgimgs(t.child) + spec_scene_bgimgs(t.neighbor)
        },
    }
}

fn collect_scene_bgimgs_into(o: &Option<Box<ScenarioNode>>, out: &mut Vec<(i32, String)>)
    ensures
        final(out)@ == old(out)@ + spec_scene_bgimgs(*o),
    decreases *o,
{
    match o {
        None => {
            proof {
                assert(out@ =~= out@ + spec_scene_bgimgs(*o));
            }
        },
        Some(t) => {
            match &t.value {
                Item::Scene(s) => {
                    match &s.bgimg {
                        Some(p) => {
                            out.push((t.id, p.clone()));
                        },
                        None => {},
                    }
                },
                _ => {},
            }
            collect_scene_bgimgs_into(&t.child, out);
            collect_scene_bgimgs_into(&t.neighbor, out);
            proof {
                assert(out@ =~= old(out)@ + spec_scene_bgimgs(*o));
            }
        },
    }
}

/// The tree once the background image of the scene carrying `id` has
/// been replaced, and whether a scene was found to take it.
pub open spec fn spec_set_scene_bgimg(
    o: Option<Box<ScenarioNode>>,
    id: i32,
    p: Option<String>,
) -> (Option<Box<ScenarioNode>>, bool)
    decreases o,
{
    match o {
        None => (None, false),
        Some(t) => {
            if t.id == id {
                match t.value {
                    Item::Scene(s) => (
                        Some(
                            Box::new(
                                ScenarioNode { value: Item::Scene(Scene { bgimg: p, ..s }), ..*t },
                            ),
                        ),
                        true,
                    ),
                    _ => (o, false),
                }
            } else if opt_contains(t.child, id) {
                let (c2, r) = spec_set_scene_bgimg(t.child, id, p);
                (Some(Box::new(ScenarioNode { child: c2, ..*t })), r)
            } else if opt_contains(t.neighbor, id) {
                let (n2, r) = spec_set_scene_bgimg(t.neighbor, id, p);
                (Some(Box::new(ScenarioNode { neighbor: n2, ..*t })), r)
            } else {
                (o, false)
            }
        },
    }
}

fn set_scene_bgimg_in(slot: &mut Option<Box<ScenarioNode>>, id: i32, p: Option<String>) -> (r:
    bool)
    ensures
        (*final(slot), r) == spec_set_scene_bgimg(*old(slot), id, p),
    decreases *old(slot),
{
    match slot.take() {
        None => false,
        Some(mut t) => {
            if t.id == id {
                let r = match &mut t.value {
                    Item::Scene(s) => {
                        s.bgimg = p;
                        true
                    },
                    _ => false,
                };
                *slot = Some(t);
                r
            } else if opt_contains_x(&t.child, id) {
                let r = set_scene_bgimg_in(&mut t.child, id, p);
                *slot = Some(t);
                r
            } else if opt_contains_x(&t.neighbor, id) {
                let r = set_scene_bgimg_in(&mut t.neighbor, id, p);
                *slot = Some(t);
                r
            } else {
                *slot = Some(t);
                false
            }
        },
    }
}

/// After `b` is attached under `a`, the first node carrying `a` is the
/// same node with `b` as its new first child and its old first child
/// demoted to `b`'s neighbor.
pub proof fn lemma_attach_child_find(o: Option<Box<ScenarioNode>>, a: i32, b: ScenarioNode)
    requires
        opt_contains(o, a),
    ensures
        opt_contains(spec_attach_child(o, a, b), a),
        spec_find(spec_attach_child(o, a, b), a) == Some(
            ScenarioNode {
                child: Some(
                    Box::new(
                        ScenarioNode {
                            bt: BranchType::Child,
                            neighbor: with_bt(
                                spec_find(o, a).unwrap().child,
                                BranchType::Neighbor,
                            ),
                            ..b
                        },
                    ),
                ),
                ..spec_find(o, a).unwrap()
            },
        ),
    decreases o,
{
    match o {
        None => {},
        Some(t) => {
            if t.id == a {
            } else if opt_contains(t.child, a) {
                lemma_attach_child_find(t.child, a, b);
            } else {
                lemma_attach_child_find(t.neighbor, a, b);
            }
        },
    }
}

/// Grammar closure law: whenever the grammar allows kind `b` under the
/// kind of the node carrying `a`, a fresh node holding `b` can be
/// attached as `a`'s child, and is then found at `a`'s child link, in
/// the `Child` role, with its item and id intact.
pub proof fn lemma_grammar_closure(o: Option<Box<ScenarioNode>>, a: i32, b: ScenarioNode)
    requires
        opt_contains(o, a),
        ScenarioNode::can_be_child_spec(spec_find(o, a).unwrap().value, b.value),
    ensures
        ({
            let attached = spec_find(spec_attach_child(o, a, b), a);
            &&& attached is Some
            &&& attached.unwrap().child matches Some(c) && c.id == b.id && c.value == b.value
                && c.bt == BranchType::Child
        }),
{
    lemma_attach_child_find(o, a, b);
}

/// The scenario tree: the root node (whose neighbor chain is the top
/// level of the document) together with the counter that mints fresh
/// node identities.
pub struct ScenarioTree {
    pub root: Option<Box<ScenarioNode>>,
    pub next_id: i32,
}

impl ScenarioTree {
    pub fn new() -> (r: ScenarioTree)
        ensures
            r.root is None,
            r.next_id == 1000,
    {
        ScenarioTree { root: None, next_id: 1000 }
    }

    /// Mint an identity no node of this tree was given before.
    pub fn gen_id(&mut self) -> (r: i32)
        requires
            old(self).next_id < i32::MAX,
        ensures
            r == old(self).next_id,
            final(self).next_id == old(self).next_id + 1,
            final(self).root == old(self).root,
    {
        let id = self.next_id;
        self.next_id = self.next_id + 1;
        id
    }

    pub fn contains(&self, id: i32) -> (r: bool)
        ensures
            r == opt_contains(self.root, id),
    {
        opt_contains_x(&self.root, id)
    }

    /// A shared view of the first node in preorder carrying `id`.
    pub fn find(&self, id: i32) -> (r: Option<&ScenarioNode>)
        ensures
            match r {
                Some(n) => opt_contains(self.root, id) && spec_find(self.root, id) == Some(*n),
                None => !opt_contains(self.root, id),
            },
    {
        find_ref(&self.root, id)
    }

    /// Where the label reference of the node carrying `id` resolves:
    /// the first node of the same structural family that defines the
    /// referenced name, searched depth-first over the whole tree.
    pub fn search_def_label(&self, id: i32) -> (r: Option<i32>)
        ensures
            r == spec_search_def_label(self.root, id),
    {
        let (fam, lbl) = match find_ref(&self.root, id) {
            None => {
                proof {
                    lemma_find_none(self.root, id);
                }
                return None;
            },
            Some(n) => {
                match &n.value {
                    Item::Mat(m) | Item::Pmat(m) => {
                        let is_ref = match &m.lbl_type {
                            LabelType::Ref => true,
                            LabelType::RefNoRect => true,
                            _ => false,
                        };
                        match &m.lbl {
                            Some(l) if is_ref => (LabelFamily::MatLike, l.clone()),
                            _ => {
                                return None;
                            },
                        }
                    },
                    Item::Scene(s) => {
                        let is_ref = match &s.lbl_type {
                            LabelType::Ref => true,
                            LabelType::RefNoRect => true,
                            _ => false,
                        };
                        match &s.lbl {
                            Some(l) if is_ref => (LabelFamily::SceneLike, l.clone()),
                            _ => {
                                return None;
                            },
                        }
                    },
                    _ => {
                        return None;
                    },
                }
            },
        };
        find_def_x(&self.root, fam, lbl.as_str())
    }

    /// The rectangle of the mat carrying `id`, taken from the mat its
    /// label reference resolves to when there is one, else from the mat
    /// itself.
    pub fn get_mat_pos_dim_with_label(&self, id: i32) -> (r: Option<(i32, i32, i32, i32)>)
        ensures
            r == (match spec_search_def_label(self.root, id) {
                Some(d) => match spec_find(self.root, d) {
                    Some(n) => match n.value {
                        Item::Mat(m) | Item::Pmat(m) => Some((m.pos.x, m.pos.y, m.dim.w, m.dim.h)),
                        _ => None::<(i32, i32, i32, i32)>,
                    },
                    None => None::<(i32, i32, i32, i32)>,
                },
                None => match spec_find(self.root, id) {
                    Some(n) => match n.value {
                        Item::Mat(m) | Item::Pmat(m) => Some((m.pos.x, m.pos.y, m.dim.w, m.dim.h)),
                        _ => None::<(i32, i32, i32, i32)>,
                    },
                    None => None::<(i32, i32, i32, i32)>,
                },
            }),
    {
        let target = match self.search_def_label(id) {
            Some(d) => d,
            None => id,
        };
        match self.find(target) {
            Some(n) => n.get_mat_pos_dim(),
            None => {
                proof {
                    lemma_find_none(self.root, target);
                }
                None
            },
        }
    }

    /// The nearest group at or above the node carrying `id`, along the
    /// links that reach it.
    pub fn get_belong_group(&self, id: i32) -> (r: Option<i32>)
        ensures
            r == spec_belong(self.root, id, BelongKind::Group),
    {
        belong_x(&self.root, id, BelongKind::Group)
    }

    /// The nearest scene at or above the node carrying `id`.
    pub fn get_belong_scene(&self, id: i32) -> (r: Option<i32>)
        ensures
            r == spec_belong(self.root, id, BelongKind::Scene),
    {
        belong_x(&self.root, id, BelongKind::Scene)
    }

    /// The nearest click unit (page or page-sized mat) at or above the
    /// node carrying `id`.
    pub fn get_belong_page(&self, id: i32) -> (r: Option<i32>)
        ensures
            r == spec_belong(self.root, id, BelongKind::Page),
    {
        belong_x(&self.root, id, BelongKind::Page)
    }

    /// The document's well-formedness: distinct ids, branch roles
    /// consistent with the links that reach each node, and the grammar
    /// respected on every link.  The structural laws assume it; freshly
    /// built documents have it, and `check_wf` decides it for a tree
    /// rebuilt from records.
    pub open spec fn wf(self) -> bool {
        &&& opt_uniq(self.root)
        &&& crate::codec::opt_roles_ok(self.root, BranchType::Child)
        &&& opt_grammar_ok(self.root)
    }

    /// Decide the document's well-formedness.
    pub fn check_wf(&self) -> (r: bool)
        ensures
            r == self.wf(),
    {
        uniq_x(&self.root) && roles_x(&self.root, BranchType::Child) && grammar_x(&self.root)
    }

    /// Every scene of the document that carries a background image, in
    /// preorder, with the image path.
    pub fn collect_scene_bgimgs(&self) -> (r: Vec<(i32, String)>)
        ensures
            r@ == spec_scene_bgimgs(self.root),
    {
        let mut out: Vec<(i32, String)> = Vec::new();
        collect_scene_bgimgs_into(&self.root, &mut out);
        out
    }

    /// Replace the background image path of the scene carrying `id`.
    /// Returns `false`, with no change, when no such node exists or the
    /// node is not a scene.
    pub fn set_scene_bgimg_by_id(&mut self, id: i32, p: Option<String>) -> (r: bool)
        ensures
            final(self).next_id == old(self).next_id,
            (final(self).root, r) == spec_set_scene_bgimg(old(self).root, id, p),
    {
        set_scene_bgimg_in(&mut self.root, id, p)
    }

    /// The slot the first node carrying `id` is reached through: its
    /// owner's id and link (the parent for a `Child` role, the
    /// predecessor for `Neighbor`), or `None` as owner at the root.
    pub fn slot_of(&self, id: i32) -> (r: Option<(Option<i32>, BranchType)>)
        ensures
            r == tree_slot_of(self.root, id),
            r is Some <==> opt_contains(self.root, id),
    {
        proof {
            if opt_contains(self.root, id) {
                lemma_slot_exists(self.root, id);
            } else {
                if tree_slot_of(self.root, id) is Some {
                    lemma_slot_in_tree(self.root, id);
                }
            }
        }
        slot_of_x(&self.root, id)
    }

    /// Splice the first node carrying `id` out of the tree and hand it
    /// back, with its child subtree and without its old neighbor.  The
    /// detached node's own links are otherwise untouched.
    pub fn remove(&mut self, id: i32) -> (det: Option<Box<ScenarioNode>>)
        ensures
            det == spec_detach(old(self).root, id).1,
            final(self).root == spec_detach(old(self).root, id).0,
            final(self).next_id == old(self).next_id,
            det is Some <==> opt_contains(old(self).root, id),
    {
        proof {
            if opt_contains(self.root, id) {
                lemma_find_detach(self.root, id);
            }
        }
        detach_in(&mut self.root, id)
    }

    /// Move the node carrying `b` (with its subtree) to be the first
    /// child of the node carrying `a`.  Fails with no change unless both
    /// are in the tree, `a` is not inside the moved subtree, and the
    /// grammar allows the pair.
    pub fn mv_to_child(&mut self, a: i32, b: i32) -> (r: bool)
        ensures
            r == mv_child_ok(old(self).root, a, b),
            r ==> final(self).root == spec_mv_child(old(self).root, a, b),
            !r ==> final(self).root == old(self).root,
            final(self).next_id == old(self).next_id,
    {
        let ok = match find_ref(&self.root, b) {
            None => false,
            Some(bn) => {
                if a == b || opt_contains_x(&bn.child, a) {
                    false
                } else {
                    match find_ref(&self.root, a) {
                        None => false,
                        Some(an) => ScenarioNode::can_be_child(&an.value, &bn.value),
                    }
                }
            },
        };
        let ok = ok && mv_child_demote_x(&self.root, a, b) && splice_src_x(&self.root, b);
        if !ok {
            return false;
        }
        proof {
            lemma_find_detach(self.root, b);
            lemma_detach_keeps(self.root, b, a);
        }
        let det = detach_in(&mut self.root, b);
        match det {
            Some(d) => {
                attach_child_in(&mut self.root, a, d);
                true
            },
            None => {
                proof {
                    assert(false);
                }
                false
            },
        }
    }

    /// Move the node carrying `b` (with its subtree) to be the next
    /// sibling of the node carrying `a`.
    pub fn mv_to_neighbor(&mut self, a: i32, b: i32) -> (r: bool)
        ensures
            r == mv_neighbor_ok(old(self).root, a, b),
            r ==> final(self).root == spec_mv_neighbor(old(self).root, a, b),
            !r ==> final(self).root == old(self).root,
            final(self).next_id == old(self).next_id,
    {
        let ok = match find_ref(&self.root, b) {
            None => false,
            Some(bn) => {
                if a == b || opt_contains_x(&bn.child, a) {
                    false
                } else {
                    match find_ref(&self.root, a) {
                        None => false,
                        Some(an) => ScenarioNode::can_be_neighbor(&an.value, &bn.value),
                    }
                }
            },
        };
        let ok = ok && mv_neighbor_demote_x(&self.root, a, b) && splice_src_x(&self.root, b);
        if !ok {
            return false;
        }
        proof {
            lemma_find_detach(self.root, b);
            lemma_detach_keeps(self.root, b, a);
        }
        let det = detach_in(&mut self.root, b);
        match det {
            Some(d) => {
                attach_neighbor_in(&mut self.root, a, d);
                true
            },
            None => {
                proof {
                    assert(false);
                }
                false
            },
        }
    }

    /// Move the node carrying `b` into the position the node carrying `a`
    /// holds, demoting `a` to `b`'s next sibling: the "insert before"
    /// operation used when a node is dropped above an existing one.
    pub fn mv_to_parent(&mut self, a: i32, b: i32) -> (r: bool)
        ensures
            r == mv_parent_ok(old(self).root, a, b),
            r ==> final(self).root == spec_mv_parent(old(self).root, a, b),
            !r ==> final(self).root == old(self).root,
            final(self).next_id == old(self).next_id,
    {
        let ok = match find_ref(&self.root, b) {
            None => false,
            Some(bn) => {
                if a == b || opt_contains_x(&bn.child, a) {
                    false
                } else {
                    match find_ref(&self.root, a) {
                        None => false,
                        Some(an) => ScenarioNode::can_be_neighbor(&bn.value, &an.value),
                    }
                }
            },
        };
        if !ok {
            return false;
        }
        let slot = {
            let sa = slot_of_x(&self.root, a);
            match sa {
                Some((Some(p), _)) => {
                    if p == b {
                        slot_of_x(&self.root, b)
                    } else {
                        sa
                    }
                },
                _ => sa,
            }
        };
        proof {
            assert(slot == effective_slot(self.root, a, b));
        }
        let edge_ok = match slot {
            Some((None, _)) => true,
            Some((Some(p), bt)) => {
                match find_ref(&self.root, p) {
                    Some(pn) => {
                        let bv = match find_ref(&self.root, b) {
                            Some(bn) => {
                                match bt {
                                    BranchType::Child => ScenarioNode::can_be_child(
                                        &pn.value,
                                        &bn.value,
                                    ),
                                    BranchType::Neighbor => ScenarioNode::can_be_neighbor(
                                        &pn.value,
                                        &bn.value,
                                    ),
                                }
                            },
                            None => {
                                proof {
                                    assert(false);
                                }
                                false
                            },
                        };
                        bv
                    },
                    None => {
                        proof {
                            let o = self.root;
                            if tree_slot_of(o, a) is Some && tree_slot_of(o, a).unwrap().0
                                is Some && tree_slot_of(o, a).unwrap().0.unwrap() == b {
                                lemma_slot_owner_contained(o, b);
                            } else {
                                lemma_slot_owner_contained(o, a);
                            }
                            assert(false);
                        }
                        false
                    },
                }
            },
            None => {
                proof {
                    lemma_slot_exists(self.root, a);
                    lemma_slot_exists(self.root, b);
                    assert(false);
                }
                false
            },
        };
        if !edge_ok {
            return false;
        }
        if !splice_src_x(&self.root, b) {
            return false;
        }
        proof {
            lemma_find_detach(self.root, b);
            lemma_detach_keeps(self.root, b, a);
        }
        let det = detach_in(&mut self.root, b);
        match det {
            Some(d) => {
                insert_before_in(&mut self.root, a, d);
                true
            },
            None => {
                proof {
                    assert(false);
                }
                false
            },
        }
    }

    /// Attach an owned node as the new first child of the node carrying
    /// `a`.  On failure (no such node, or the grammar forbids the pair)
    /// the node is handed back and the tree is unchanged.  The attached
    /// node's old branch role and neighbor link are overwritten.
    pub fn add_child(&mut self, a: i32, node: Box<ScenarioNode>) -> (r: Option<
        Box<ScenarioNode>,
    >)
        ensures
            final(self).next_id == old(self).next_id,
            ({
                let ok = opt_contains(old(self).root, a)
                    && ScenarioNode::can_be_child_spec(
                    spec_find(old(self).root, a).unwrap().value,
                    node.value,
                ) && attach_child_demote_ok(old(self).root, a, node.value);
                if ok {
                    r is None && final(self).root == spec_attach_child(old(self).root, a, *node)
                } else {
                    r == Some(node) && final(self).root == old(self).root
                }
            }),
    {
        let ok = match find_ref(&self.root, a) {
            None => false,
            Some(an) => ScenarioNode::can_be_child(&an.value, &node.value) && (match &an.child {
                Some(c) => ScenarioNode::can_be_neighbor(&node.value, &c.value),
                None => true,
            }),
        };
        if !ok {
            return Some(node);
        }
        attach_child_in(&mut self.root, a, node);
        None
    }

    /// Attach an owned node as the next sibling of the node carrying `a`.
    pub fn add_neighbor(&mut self, a: i32, node: Box<ScenarioNode>) -> (r: Option<
        Box<ScenarioNode>,
    >)
        ensures
            final(self).next_id == old(self).next_id,
            ({
                let ok = opt_contains(old(self).root, a)
                    && ScenarioNode::can_be_neighbor_spec(
                    spec_find(old(self).root, a).unwrap().value,
                    node.value,
                ) && attach_neighbor_demote_ok(old(self).root, a, node.value);
                if ok {
                    r is None && final(self).root == spec_attach_neighbor(old(self).root, a, *node)
                } else {
                    r == Some(node) && final(self).root == old(self).root
                }
            }),
    {
        let ok = match find_ref(&self.root, a) {
            None => false,
            Some(an) => ScenarioNode::can_be_neighbor(&an.value, &node.value) && (match &an.neighbor
                {
                Some(n) => ScenarioNode::can_be_neighbor(&node.value, &n.value),
                None => true,
            }),
        };
        if !ok {
            return Some(node);
        }
        attach_neighbor_in(&mut self.root, a, node);
        None
    }

    /// Make an owned node the root of an empty tree.  A non-empty tree
    /// hands the node back.
    pub fn add_root(&mut self, node: Box<ScenarioNode>) -> (r: Option<Box<ScenarioNode>>)
        ensures
            final(self).next_id == old(self).next_id,
            old(self).root is None ==> r is None && final(self).root == Some(
                Box::new(ScenarioNode { bt: BranchType::Child, ..*node }),
            ),
            old(self).root is Some ==> r == Some(node) && final(self).root == old(self).root,
    {
        if self.root.is_some() {
            return Some(node);
        }
        let mut n = node;
        n.bt = BranchType::Child;
        self.root = Some(n);
        None
    }

    /// Splice an owned node into the slot the node carrying `a` holds,
    /// demoting `a` to its next sibling; the owned counterpart of
    /// `mv_to_parent`, used to put a node back above an existing one.
    pub fn add_before(&mut self, a: i32, node: Box<ScenarioNode>) -> (r: Option<
        Box<ScenarioNode>,
    >)
        ensures
            final(self).next_id == old(self).next_id,
            ({
                let ok = opt_contains(old(self).root, a)
                    && ScenarioNode::can_be_neighbor_spec(
                    node.value,
                    spec_find(old(self).root, a).unwrap().value,
                ) && slot_edge_ok(old(self).root, tree_slot_of(old(self).root, a), node.value);
                if ok {
                    r is None && final(self).root == spec_insert_before(old(self).root, a, *node)
                } else {
                    r == Some(node) && final(self).root == old(self).root
                }
            }),
    {
        let ok = match find_ref(&self.root, a) {
            None => false,
            Some(an) => ScenarioNode::can_be_neighbor(&node.value, &an.value),
        };
        if !ok {
            return Some(node);
        }
        let slot = slot_of_x(&self.root, a);
        let edge_ok = match slot {
            Some((None, _)) => true,
            Some((Some(p), bt)) => {
                match find_ref(&self.root, p) {
                    Some(pn) => {
                        match bt {
                            BranchType::Child => ScenarioNode::can_be_child(&pn.value, &node.value),
                            BranchType::Neighbor => ScenarioNode::can_be_neighbor(
                                &pn.value,
                                &node.value,
                            ),
                        }
                    },
                    None => {
                        proof {
                            lemma_slot_owner_contained(self.root, a);
                            assert(false);
                        }
                        false
                    },
                }
            },
            None => {
                proof {
                    lemma_slot_exists(self.root, a);
                    assert(false);
                }
                false
            },
        };
        if !edge_ok {
            return Some(node);
        }
        insert_before_in(&mut self.root, a, node);
        None
    }
}

} // verus!
