//! The undo/redo engine.
//!
//! Every structural mutation goes through this engine: it performs the
//! mutation on the tree, and records one history entry holding the
//! operation tag, manipulation handles (position descriptors captured at
//! the time), and — while the affected node is out of the tree — the node
//! itself.  Undo replays the hand-derived inverse of each tag, redo the
//! forward mutation; both refuse, with no change, an entry whose captured
//! context no longer resolves against the tree.

use vstd::prelude::*;

use crate::scenario_node::BranchType;
use crate::scenario_node::Item;
use crate::scenario_node::ScenarioNode;
use crate::tree_ops::ScenarioTree;
use crate::tree_ops::mv_child_ok;
use crate::tree_ops::mv_neighbor_ok;
use crate::tree_ops::mv_parent_ok;
use crate::tree_ops::opt_contains;
use crate::tree_ops::spec_attach_child;
use crate::tree_ops::spec_attach_neighbor;
use crate::tree_ops::spec_attach_at;
use crate::tree_ops::spec_detach;
use crate::tree_ops::spec_find;
use crate::tree_ops::spec_insert_before;
use crate::tree_ops::spec_mv_child;
use crate::tree_ops::spec_mv_neighbor;
use crate::tree_ops::spec_mv_parent;
use crate::tree_ops::tree_slot_of;

verus! {

/// The tag of one recorded mutation.
#[derive(Debug, Clone, Copy, PartialEq, Eq, Structural)]
pub enum Operation {
    Remove,
    AddNeighbor,
    AddChild,
    AddRoot,
    MvToParentChild,
    MvToDestChild,
    MvToParentNeighbor,
    MvToDestNeighbor,
    MvToParent,
    Nop,
}

/// A position descriptor captured when a mutation runs: the affected
/// node, its branch role at the time, and the node owning its slot (the
/// parent for a `Child` role, the predecessor for `Neighbor`, `None` at
/// the root position).
#[derive(Debug, Clone, Copy, PartialEq, Eq, Structural)]
pub struct TreeManipulationHandle {
    pub sno: i32,
    pub bt: BranchType,
    pub parent_sno: Option<i32>,
}

impl Default for TreeManipulationHandle {
    fn default() -> (r: Self)
        ensures
            r == (TreeManipulationHandle {
                sno: 0i32,
                bt: BranchType::Child,
                parent_sno: None::<i32>,
            }),
    {
        TreeManipulationHandle { sno: 0, bt: BranchType::Child, parent_sno: None }
    }
}

/// One recorded mutation: its tag, the source and destination handles,
/// and — whenever the affected node is currently out of the tree — the
/// node itself, parked here so undo and redo can re-attach it.
#[derive(Debug)]
pub struct OperationHistoryItem {
    pub ope: Operation,
    pub src: TreeManipulationHandle,
    pub dest: TreeManipulationHandle,
    pub new_sno: Option<Box<ScenarioNode>>,
    pub new_id: i32,
}

/// The handle of the first node carrying `id`, as captured from a tree.
pub open spec fn handle_of(o: Option<Box<ScenarioNode>>, id: i32) -> TreeManipulationHandle {
    TreeManipulationHandle {
        sno: id,
        bt: tree_slot_of(o, id).unwrap().1,
        parent_sno: tree_slot_of(o, id).unwrap().0,
    }
}

/// The inverse of one entry, as undo replays it: what the tree becomes
/// and what the entry becomes, or `None` when the entry's context no
/// longer resolves (undo then refuses, reporting failure and changing
/// nothing).
pub open spec fn undo_entry(e: OperationHistoryItem, o: Option<Box<ScenarioNode>>) -> Option<
    (Option<Box<ScenarioNode>>, OperationHistoryItem),
> {
    match e.ope {
        Operation::Remove => match e.new_sno {
            None => None,
            Some(node) => match spec_attach_at(o, e.src.parent_sno, e.src.bt, *node) {
                None => None,
                Some(o2) => Some((o2, OperationHistoryItem { new_sno: None, ..e })),
            },
        },
        Operation::AddNeighbor | Operation::AddChild | Operation::AddRoot => {
            let (rest, det) = spec_detach(o, e.new_id);
            match det {
                None => None,
                Some(d) => Some((rest, OperationHistoryItem { new_sno: Some(d), ..e })),
            }
        },
        Operation::MvToParentChild | Operation::MvToDestChild | Operation::MvToParentNeighbor
            | Operation::MvToDestNeighbor | Operation::MvToParent => match e.src.parent_sno {
            Some(p) => match e.src.bt {
                BranchType::Child => {
                    if mv_child_ok(o, p, e.new_id) {
                        Some((spec_mv_child(o, p, e.new_id), e))
                    } else {
                        None
                    }
                },
                BranchType::Neighbor => {
                    if mv_neighbor_ok(o, p, e.new_id) {
                        Some((spec_mv_neighbor(o, p, e.new_id), e))
                    } else {
                        None
                    }
                },
            },
            None => match o {
                None => None,
                Some(t) => {
                    if mv_parent_ok(o, t.id, e.new_id) {
                        Some((spec_mv_parent(o, t.id, e.new_id), e))
                    } else {
                        None
                    }
                },
            },
        },
        Operation::Nop => Some((o, e)),
    }
}

/// The forward mutation of one entry, as redo replays it.
pub open spec fn redo_entry(e: OperationHistoryItem, o: Option<Box<ScenarioNode>>) -> Option<
    (Option<Box<ScenarioNode>>, OperationHistoryItem),
> {
    match e.ope {
        Operation::Remove => {
            let (rest, det) = spec_detach(o, e.new_id);
            match det {
                None => None,
                Some(d) => Some((rest, OperationHistoryItem { new_sno: Some(d), ..e })),
            }
        },
        Operation::AddChild => match e.new_sno {
            None => None,
            Some(node) => {
                if opt_contains(o, e.src.sno) && ScenarioNode::can_be_child_spec(
                    spec_find(o, e.src.sno).unwrap().value,
                    node.value,
                ) && crate::tree_ops::attach_child_demote_ok(o, e.src.sno, node.value) {
                    Some(
                        (
                            spec_attach_child(o, e.src.sno, *node),
                            OperationHistoryItem { new_sno: None, ..e },
                        ),
                    )
                } else {
                    None
                }
            },
        },
        Operation::AddNeighbor => match e.new_sno {
            None => None,
            Some(node) => {
                if opt_contains(o, e.src.sno) && ScenarioNode::can_be_neighbor_spec(
                    spec_find(o, e.src.sno).unwrap().value,
                    node.value,
                ) && crate::tree_ops::attach_neighbor_demote_ok(o, e.src.sno, node.value) {
                    Some(
                        (
                            spec_attach_neighbor(o, e.src.sno, *node),
                            OperationHistoryItem { new_sno: None, ..e },
                        ),
                    )
                } else {
                    None
                }
            },
        },
        Operation::AddRoot => match e.new_sno {
            None => None,
            Some(node) => match o {
                None => Some(
                    (
                        Some(Box::new(ScenarioNode { bt: BranchType::Child, ..*node })),
                        OperationHistoryItem { new_sno: None, ..e },
                    ),
                ),
                Some(_) => None,
            },
        },
        Operation::MvToDestChild | Operation::MvToParentChild => {
            if mv_child_ok(o, e.dest.sno, e.new_id) {
                Some((spec_mv_child(o, e.dest.sno, e.new_id), e))
            } else {
                None
            }
        },
        Operation::MvToDestNeighbor | Operation::MvToParentNeighbor => {
            if mv_neighbor_ok(o, e.dest.sno, e.new_id) {
                Some((spec_mv_neighbor(o, e.dest.sno, e.new_id), e))
            } else {
                None
            }
        },
        Operation::MvToParent => {
            if mv_parent_ok(o, e.dest.sno, e.new_id) {
                Some((spec_mv_parent(o, e.dest.sno, e.new_id), e))
            } else {
                None
            }
        },
        Operation::Nop => Some((o, e)),
    }
}

/// Undo/redo involution for a recorded child addition: undoing the
/// entry detaches exactly the node the addition attached and restores
/// the tree that stood before it; redoing the undone entry re-attaches
/// that node and restores both the tree after the addition and the
/// entry as it was first recorded.
pub proof fn lemma_add_child_undo_redo(
    o: Option<Box<ScenarioNode>>,
    e: OperationHistoryItem,
    target: i32,
    item: Item,
    id: i32,
)
    requires
        opt_contains(o, target),
        !opt_contains(o, id),
        id != target,
        ScenarioNode::can_be_child_spec(spec_find(o, target).unwrap().value, item),
        crate::tree_ops::attach_child_demote_ok(o, target, item),
        crate::codec::opt_roles_ok(o, BranchType::Child),
        e.ope == Operation::AddChild,
        e.new_id == id,
        e.src.sno == target,
        e.new_sno is None,
    ensures
        ({
            let node = ScenarioNode {
                value: item,
                bt: BranchType::Child,
                id,
                child: None,
                neighbor: None,
            };
            let o2 = spec_attach_child(o, target, node);
            let e2 = OperationHistoryItem { new_sno: Some(Box::new(node)), ..e };
            &&& undo_entry(e, o2) == Some((o, e2))
            &&& redo_entry(e2, o) == Some((o2, e))
        }),
{
    let node = ScenarioNode { value: item, bt: BranchType::Child, id, child: None, neighbor: None };
    crate::tree_ops::lemma_find_roles(o, BranchType::Child, target);
    crate::tree_ops::lemma_attach_child_detach(o, target, node);
    assert((ScenarioNode { bt: BranchType::Child, neighbor: None, ..node }) == node);
    assert((OperationHistoryItem {
        new_sno: None,
        ..(OperationHistoryItem { new_sno: Some(Box::new(node)), ..e })
    }) == e);
}

/// Undo/redo involution for a recorded sibling addition.
pub proof fn lemma_add_neighbor_undo_redo(
    o: Option<Box<ScenarioNode>>,
    e: OperationHistoryItem,
    target: i32,
    item: Item,
    id: i32,
)
    requires
        opt_contains(o, target),
        !opt_contains(o, id),
        id != target,
        ScenarioNode::can_be_neighbor_spec(spec_find(o, target).unwrap().value, item),
        crate::tree_ops::attach_neighbor_demote_ok(o, target, item),
        crate::codec::opt_roles_ok(o, BranchType::Child),
        e.ope == Operation::AddNeighbor,
        e.new_id == id,
        e.src.sno == target,
        e.new_sno is None,
    ensures
        ({
            let node = ScenarioNode {
                value: item,
                bt: BranchType::Neighbor,
                id,
                child: None,
                neighbor: None,
            };
            let o2 = spec_attach_neighbor(o, target, node);
            let e2 = OperationHistoryItem { new_sno: Some(Box::new(node)), ..e };
            &&& undo_entry(e, o2) == Some((o, e2))
            &&& redo_entry(e2, o) == Some((o2, e))
        }),
{
    let node = ScenarioNode {
        value: item,
        bt: BranchType::Neighbor,
        id,
        child: None,
        neighbor: None,
    };
    crate::tree_ops::lemma_find_roles_neighbor(o, BranchType::Child, target);
    crate::tree_ops::lemma_attach_neighbor_detach(o, target, node);
    assert((ScenarioNode { bt: BranchType::Neighbor, neighbor: None, ..node }) == node);
    assert((OperationHistoryItem {
        new_sno: None,
        ..(OperationHistoryItem { new_sno: Some(Box::new(node)), ..e })
    }) == e);
}

/// Undo/redo involution for a recorded root creation on an empty tree.
pub proof fn lemma_add_root_undo_redo(e: OperationHistoryItem, item: Item, id: i32)
    requires
        e.ope == Operation::AddRoot,
        e.new_id == id,
        e.new_sno is None,
    ensures
        ({
            let node = ScenarioNode {
                value: item,
                bt: BranchType::Child,
                id,
                child: None,
                neighbor: None,
            };
            let o2 = Some(Box::new(node));
            let e2 = OperationHistoryItem { new_sno: Some(Box::new(node)), ..e };
            &&& undo_entry(e, o2) == Some((None::<Box<ScenarioNode>>, e2))
            &&& redo_entry(e2, None::<Box<ScenarioNode>>) == Some((o2, e))
        }),
{
    let node = ScenarioNode { value: item, bt: BranchType::Child, id, child: None, neighbor: None };
    assert(spec_detach(Some(Box::new(node)), id) == (
        None::<Box<ScenarioNode>>,
        Some(Box::new(ScenarioNode { neighbor: None, ..node })),
    ));
    assert((ScenarioNode { neighbor: None, ..node }) == node);
    assert((ScenarioNode { bt: BranchType::Child, ..node }) == node);
    assert((OperationHistoryItem {
        new_sno: None,
        ..(OperationHistoryItem { new_sno: Some(Box::new(node)), ..e })
    }) == e);
}

/// Undo/redo involution for a recorded removal, on a well-formed tree
/// (distinct ids, consistent branch roles, grammar respected on every
/// link): undoing the entry splices the removed node, with its whole
/// subtree, back into its recorded slot and restores the tree exactly;
/// redoing the undone entry detaches it again, restoring entry and
/// tree alike.
pub proof fn lemma_remove_undo_redo(o: Option<Box<ScenarioNode>>, e: OperationHistoryItem)
    requires
        crate::tree_ops::opt_uniq(o),
        crate::codec::opt_roles_ok(o, BranchType::Child),
        crate::tree_ops::opt_grammar_ok(o),
        opt_contains(o, e.new_id),
        e.ope == Operation::Remove,
        e.src == handle_of(o, e.new_id),
        e.new_sno == spec_detach(o, e.new_id).1,
    ensures
        ({
            let (rest, det) = spec_detach(o, e.new_id);
            let e2 = OperationHistoryItem { new_sno: None, ..e };
            &&& undo_entry(e, rest) == Some((o, e2))
            &&& redo_entry(e2, o) == Some((rest, e))
        }),
{
    crate::tree_ops::lemma_slot_exists(o, e.new_id);
    crate::tree_ops::lemma_find_detach(o, e.new_id);
    crate::tree_ops::lemma_detach_attach_at(o, e.new_id, BranchType::Child);
    let (rest, det) = spec_detach(o, e.new_id);
    let slot = tree_slot_of(o, e.new_id).unwrap();
    assert(spec_attach_at(rest, slot.0, slot.1, *det.unwrap()) == Some(o));
    assert(e.src.parent_sno == slot.0 && e.src.bt == slot.1);
    assert((OperationHistoryItem { new_sno: Some(det.unwrap()), ..(OperationHistoryItem {
        new_sno: None,
        ..e
    }) }) == e);
}

/// Undo/redo involution for a recorded child move, on a well-formed
/// tree: undoing the entry moves the node back into its recorded slot
/// and restores the tree exactly; redoing replays the same move.
pub proof fn lemma_mv_child_undo_redo(
    o: Option<Box<ScenarioNode>>,
    e: OperationHistoryItem,
    a: i32,
    b: i32,
)
    requires
        crate::tree_ops::opt_uniq(o),
        crate::codec::opt_roles_ok(o, BranchType::Child),
        crate::tree_ops::opt_grammar_ok(o),
        mv_child_ok(o, a, b),
        e.ope == Operation::MvToDestChild || e.ope == Operation::MvToParentChild,
        e.new_id == b,
        e.src == handle_of(o, b),
        e.dest.sno == a,
    ensures
        ({
            let o2 = spec_mv_child(o, a, b);
            &&& undo_entry(e, o2) == Some((o, e))
            &&& redo_entry(e, o) == Some((o2, e))
        }),
{
    crate::tree_ops::lemma_slot_exists(o, b);
    let slot = tree_slot_of(o, b).unwrap();
    match slot.0 {
        Some(_) => {
            crate::tree_ops::lemma_mv_child_undo(o, a, b);
        },
        None => {
            crate::tree_ops::lemma_mv_child_undo_from_root(o, a, b);
        },
    }
}

/// Undo/redo involution for a recorded sibling move, on a well-formed
/// tree.
pub proof fn lemma_mv_neighbor_undo_redo(
    o: Option<Box<ScenarioNode>>,
    e: OperationHistoryItem,
    a: i32,
    b: i32,
)
    requires
        crate::tree_ops::opt_uniq(o),
        crate::codec::opt_roles_ok(o, BranchType::Child),
        crate::tree_ops::opt_grammar_ok(o),
        mv_neighbor_ok(o, a, b),
        e.ope == Operation::MvToDestNeighbor || e.ope == Operation::MvToParentNeighbor,
        e.new_id == b,
        e.src == handle_of(o, b),
        e.dest.sno == a,
    ensures
        ({
            let o2 = spec_mv_neighbor(o, a, b);
            &&& undo_entry(e, o2) == Some((o, e))
            &&& redo_entry(e, o) == Some((o2, e))
        }),
{
    crate::tree_ops::lemma_slot_exists(o, b);
    let slot = tree_slot_of(o, b).unwrap();
    match slot.0 {
        Some(_) => {
            crate::tree_ops::lemma_mv_neighbor_undo(o, a, b);
        },
        None => {
            crate::tree_ops::lemma_mv_neighbor_undo_from_root(o, a, b);
        },
    }
}

/// Undo/redo involution for a recorded insert-above move, on a
/// well-formed tree, for a node moved from below the root.
pub proof fn lemma_mv_parent_undo_redo(
    o: Option<Box<ScenarioNode>>,
    e: OperationHistoryItem,
    a: i32,
    b: i32,
)
    requires
        crate::tree_ops::opt_uniq(o),
        crate::codec::opt_roles_ok(o, BranchType::Child),
        crate::tree_ops::opt_grammar_ok(o),
        mv_parent_ok(o, a, b),
        tree_slot_of(o, b).unwrap().0 is Some,
        e.ope == Operation::MvToParent,
        e.new_id == b,
        e.src == handle_of(o, b),
        e.dest.sno == a,
    ensures
        ({
            let o2 = spec_mv_parent(o, a, b);
            &&& undo_entry(e, o2) == Some((o, e))
            &&& redo_entry(e, o) == Some((o2, e))
        }),
{
    crate::tree_ops::lemma_mv_parent_undo(o, a, b);
}

/// Re-attach an owned node at a recorded slot; see `spec_attach_at`.
/// On failure the node is handed back and the tree is unchanged.
fn attach_at(tree: &mut ScenarioTree, owner: Option<i32>, bt: BranchType, node: Box<ScenarioNode>) -> (r:
    Option<Box<ScenarioNode>>)
    ensures
        final(tree).next_id == old(tree).next_id,
        match spec_attach_at(old(tree).root, owner, bt, *node) {
            None => r == Some(node) && final(tree).root == old(tree).root,
            Some(o2) => r is None && final(tree).root == o2,
        },
{
    match owner {
        None => {
            if tree.root.is_none() {
                tree.add_root(node)
            } else {
                let rid = match &tree.root {
                    Some(t) => t.id,
                    None => 0,
                };
                tree.add_before(rid, node)
            }
        },
        Some(p) => {
            match bt {
                BranchType::Child => tree.add_child(p, node),
                BranchType::Neighbor => tree.add_neighbor(p, node),
            }
        },
    }
}

/// The stack of recorded mutations, with the cursor marking the next
/// empty undo slot: entries before `index` are done, entries at and
/// after it are redo history, cleared whenever a new mutation is pushed.
pub struct OperationHistory {
    pub history: Vec<OperationHistoryItem>,
    pub index: usize,
}

impl OperationHistory {
    /// The cursor never runs past the stack.
    pub open spec fn wf(self) -> bool {
        self.index <= self.history@.len()
    }

    pub fn new() -> (r: OperationHistory)
        ensures
            r.history@ == Seq::<OperationHistoryItem>::empty(),
            r.index == 0,
            r.wf(),
    {
        OperationHistory { history: Vec::new(), index: 0 }
    }

    /// Undo the most recent done entry: replay the inverse of its tag
    /// against the tree, move the cursor back, and keep the entry for
    /// redo.  Returns `false`, leaving tree, cursor and entries
    /// unchanged, when the history is empty or the entry's captured
    /// context no longer resolves against the tree.
    pub fn undo(&mut self, tree: &mut ScenarioTree) -> (r: bool)
        requires
            old(self).wf(),
        ensures
            final(self).wf(),
            final(tree).next_id == old(tree).next_id,
            old(self).index == 0 ==> !r && final(self).history@ == old(self).history@ && final(self).index == old(self).index && final(tree).root == old(tree).root,
            old(self).index > 0 ==> match undo_entry(
                old(self).history@[old(self).index - 1],
                old(tree).root,
            ) {
                None => !r && final(self).history@ == old(self).history@ && final(self).index
                    == old(self).index && final(tree).root == old(tree).root,
                Some((o2, e2)) => r && final(tree).root == o2 && final(self).index == old(self).index - 1 && final(self).history@ == old(self).history@.update(
                    old(self).index - 1,
                    e2,
                ),
            },
    {
        if self.index == 0 {
            return false;
        }
        let idx = self.index - 1;
        let ope = self.history[idx].ope;
        let src = self.history[idx].src;
        let new_id = self.history[idx].new_id;
        match ope {
            Operation::Remove => {
                let node_opt = self.history[idx].new_sno.take();
                match node_opt {
                    None => {
                        proof {
                            assert(self.history@ =~= old(self).history@);
                        }
                        false
                    },
                    Some(node) => {
                        match attach_at(tree, src.parent_sno, src.bt, node) {
                            None => {
                                self.index = idx;
                                true
                            },
                            Some(back) => {
                                self.history[idx].new_sno = Some(back);
                                proof {
                                    assert(self.history@ =~= old(self).history@);
                                }
                                false
                            },
                        }
                    },
                }
            },
            Operation::AddNeighbor | Operation::AddChild | Operation::AddRoot => {
                match tree.remove(new_id) {
                    None => false,
                    Some(det) => {
                        self.history[idx].new_sno = Some(det);
                        self.index = idx;
                        true
                    },
                }
            },
            Operation::MvToParentChild | Operation::MvToDestChild | Operation::MvToParentNeighbor
                | Operation::MvToDestNeighbor | Operation::MvToParent => {
                match src.parent_sno {
                    Some(p) => {
                        let ok = match src.bt {
                            BranchType::Child => tree.mv_to_child(p, new_id),
                            BranchType::Neighbor => tree.mv_to_neighbor(p, new_id),
                        };
                        if ok {
                            self.index = idx;
                            true
                        } else {
                            false
                        }
                    },
                    None => {
                        let rid = match &tree.root {
                            Some(t) => t.id,
                            None => {
                                return false;
                            },
                        };
                        if tree.mv_to_parent(rid, new_id) {
                            self.index = idx;
                            true
                        } else {
                            false
                        }
                    },
                }
            },
            Operation::Nop => {
                self.index = idx;
                true
            },
        }
    }

    /// Redo the next undone entry: replay its forward mutation, advance
    /// the cursor.  Returns `false`, with no change, when the cursor is
    /// at the top of the stack or the entry's captured context no longer
    /// resolves against the tree.
    pub fn redo(&mut self, tree: &mut ScenarioTree) -> (r: bool)
        requires
            old(self).wf(),
        ensures
            final(self).wf(),
            final(tree).next_id == old(tree).next_id,
            old(self).index == old(self).history@.len() ==> !r && final(self).history@ == old(self).history@ && final(self).index == old(self).index && final(tree).root == old(tree).root,
            old(self).index < old(self).history@.len() ==> match redo_entry(
                old(self).history@[old(self).index as int],
                old(tree).root,
            ) {
                None => !r && final(self).history@ == old(self).history@ && final(self).index
                    == old(self).index && final(tree).root == old(tree).root,
                Some((o2, e2)) => r && final(tree).root == o2 && final(self).index == old(self).index + 1 && final(self).history@ == old(self).history@.update(
                    old(self).index as int,
                    e2,
                ),
            },
    {
        if self.index >= self.history.len() {
            return false;
        }
        let idx = self.index;
        let ope = self.history[idx].ope;
        let src = self.history[idx].src;
        let dest = self.history[idx].dest;
        let new_id = self.history[idx].new_id;
        match ope {
            Operation::Remove => {
                match tree.remove(new_id) {
                    None => false,
                    Some(det) => {
                        self.history[idx].new_sno = Some(det);
                        self.index = idx + 1;
                        true
                    },
                }
            },
            Operation::AddChild => {
                let node_opt = self.history[idx].new_sno.take();
                match node_opt {
                    None => {
                        proof {
                            assert(self.history@ =~= old(self).history@);
                        }
                        false
                    },
                    Some(node) => {
                        match tree.add_child(src.sno, node) {
                            None => {
                                self.index = idx + 1;
                                true
                            },
                            Some(back) => {
                                self.history[idx].new_sno = Some(back);
                                proof {
                                    assert(self.history@ =~= old(self).history@);
                                }
                                false
                            },
                        }
                    },
                }
            },
            Operation::AddNeighbor => {
                let node_opt = self.history[idx].new_sno.take();
                match node_opt {
                    None => {
                        proof {
                            assert(self.history@ =~= old(self).history@);
                        }
                        false
                    },
                    Some(node) => {
                        match tree.add_neighbor(src.sno, node) {
                            None => {
                                self.index = idx + 1;
                                true
                            },
                            Some(back) => {
                                self.history[idx].new_sno = Some(back);
                                proof {
                                    assert(self.history@ =~= old(self).history@);
                                }
                                false
                            },
                        }
                    },
                }
            },
            Operation::AddRoot => {
                let node_opt = self.history[idx].new_sno.take();
                match node_opt {
                    None => {
                        proof {
                            assert(self.history@ =~= old(self).history@);
                        }
                        false
                    },
                    Some(node) => {
                        match tree.add_root(node) {
                            None => {
                                self.index = idx + 1;
                                true
                            },
                            Some(back) => {
                                self.history[idx].new_sno = Some(back);
                                proof {
                                    assert(self.history@ =~= old(self).history@);
                                }
                                false
                            },
                        }
                    },
                }
            },
            Operation::MvToDestChild | Operation::MvToParentChild => {
                if tree.mv_to_child(dest.sno, new_id) {
                    self.index = idx + 1;
                    true
                } else {
                    false
                }
            },
            Operation::MvToDestNeighbor | Operation::MvToParentNeighbor => {
                if tree.mv_to_neighbor(dest.sno, new_id) {
                    self.index = idx + 1;
                    true
                } else {
                    false
                }
            },
            Operation::MvToParent => {
                if tree.mv_to_parent(dest.sno, new_id) {
                    self.index = idx + 1;
                    true
                } else {
                    false
                }
            },
            Operation::Nop => {
                self.index = idx + 1;
                true
            },
        }
    }

    /// Remove the node carrying `id` (with its subtree) from the tree,
    /// recording the entry that lets undo re-attach the very node at its
    /// old position.
    pub fn do_remove(&mut self, tree: &mut ScenarioTree, id: i32) -> (r: bool)
        requires
            old(self).wf(),
            old(self).index < usize::MAX,
        ensures
            final(self).wf(),
            final(tree).next_id == old(tree).next_id,
            r == opt_contains(old(tree).root, id),
            r ==> final(tree).root == spec_detach(old(tree).root, id).0 && final(self).index == old(self).index + 1 && final(self).history@ == old(self).history@.subrange(
                0,
                old(self).index as int,
            ) + seq![
                OperationHistoryItem {
                    ope: Operation::Remove,
                    src: handle_of(old(tree).root, id),
                    dest: TreeManipulationHandle {
                        sno: 0i32,
                        bt: BranchType::Child,
                        parent_sno: None::<i32>,
                    },
                    new_sno: spec_detach(old(tree).root, id).1,
                    new_id: id,
                },
            ],
            !r ==> final(tree).root == old(tree).root && final(self).history@ == old(self).history@
                && final(self).index == old(self).index,
    {
        match tree.slot_of(id) {
            None => false,
            Some((p, bt)) => {
                match tree.remove(id) {
                    Some(d) => {
                        self.push_entry(
                            OperationHistoryItem {
                                ope: Operation::Remove,
                                src: TreeManipulationHandle { sno: id, bt, parent_sno: p },
                                dest: TreeManipulationHandle::default(),
                                new_sno: Some(d),
                                new_id: id,
                            },
                        );
                        true
                    },
                    None => {
                        proof {
                            assert(false);
                        }
                        false
                    },
                }
            },
        }
    }

    /// Create a node holding `item` with a fresh id and attach it as the
    /// new first child of the node carrying `target`, recording the
    /// entry.  Returns the new node's id, or `None` (tree and history
    /// unchanged) when the target is missing or the grammar refuses the
    /// pair.
    pub fn do_add_child(&mut self, tree: &mut ScenarioTree, target: i32, item: Item) -> (r: Option<
        i32,
    >)
        requires
            old(self).wf(),
            old(self).index < usize::MAX,
            old(tree).next_id < i32::MAX,
        ensures
            final(self).wf(),
            ({
                let ok = opt_contains(old(tree).root, target) && ScenarioNode::can_be_child_spec(
                    spec_find(old(tree).root, target).unwrap().value,
                    item,
                ) && crate::tree_ops::attach_child_demote_ok(old(tree).root, target, item);
                let node = ScenarioNode {
                    value: item,
                    bt: BranchType::Child,
                    id: old(tree).next_id,
                    child: None,
                    neighbor: None,
                };
                if ok {
                    r == Some(old(tree).next_id) && final(tree).root == spec_attach_child(
                        old(tree).root,
                        target,
                        node,
                    ) && final(tree).next_id == old(tree).next_id + 1 && final(self).index == old(self).index + 1 && final(self).history@ == old(self).history@.subrange(
                        0,
                        old(self).index as int,
                    ) + seq![
                        OperationHistoryItem {
                            ope: Operation::AddChild,
                            src: handle_of(old(tree).root, target),
                            dest: TreeManipulationHandle {
                                sno: 0i32,
                                bt: BranchType::Child,
                                parent_sno: None::<i32>,
                            },
                            new_sno: None::<Box<ScenarioNode>>,
                            new_id: old(tree).next_id,
                        },
                    ]
                } else {
                    r is None && final(tree).root == old(tree).root && final(tree).next_id == old(tree).next_id && final(self).history@ == old(self).history@ && final(self).index
                        == old(self).index
                }
            }),
    {
        let ok = match tree.find(target) {
            None => false,
            Some(an) => ScenarioNode::can_be_child(&an.value, &item) && (match &an.child {
                Some(c) => ScenarioNode::can_be_neighbor(&item, &c.value),
                None => true,
            }),
        };
        if !ok {
            return None;
        }
        let src = match tree.slot_of(target) {
            Some((p, bt)) => TreeManipulationHandle { sno: target, bt, parent_sno: p },
            None => {
                proof {
                    assert(false);
                }
                TreeManipulationHandle::default()
            },
        };
        let id = tree.gen_id();
        let node = Box::new(
            ScenarioNode { value: item, bt: BranchType::Child, id, child: None, neighbor: None },
        );
        match tree.add_child(target, node) {
            None => {
                self.push_entry(
                    OperationHistoryItem {
                        ope: Operation::AddChild,
                        src,
                        dest: TreeManipulationHandle::default(),
                        new_sno: None,
                        new_id: id,
                    },
                );
                Some(id)
            },
            Some(_) => {
                proof {
                    assert(false);
                }
                None
            },
        }
    }

    /// Create a node holding `item` with a fresh id and attach it as the
    /// next sibling of the node carrying `target`, recording the entry.
    pub fn do_add_neighbor(&mut self, tree: &mut ScenarioTree, target: i32, item: Item) -> (r:
        Option<i32>)
        requires
            old(self).wf(),
            old(self).index < usize::MAX,
            old(tree).next_id < i32::MAX,
        ensures
            final(self).wf(),
            ({
                let ok = opt_contains(old(tree).root, target) && ScenarioNode::can_be_neighbor_spec(
                    spec_find(old(tree).root, target).unwrap().value,
                    item,
                ) && crate::tree_ops::attach_neighbor_demote_ok(old(tree).root, target, item);
                let node = ScenarioNode {
                    value: item,
                    bt: BranchType::Neighbor,
                    id: old(tree).next_id,
                    child: None,
                    neighbor: None,
                };
                if ok {
                    r == Some(old(tree).next_id) && final(tree).root == spec_attach_neighbor(
                        old(tree).root,
                        target,
                        node,
                    ) && final(tree).next_id == old(tree).next_id + 1 && final(self).index == old(self).index + 1 && final(self).history@ == old(self).history@.subrange(
                        0,
                        old(self).index as int,
                    ) + seq![
                        OperationHistoryItem {
                            ope: Operation::AddNeighbor,
                            src: handle_of(old(tree).root, target),
                            dest: TreeManipulationHandle {
                                sno: 0i32,
                                bt: BranchType::Child,
                                parent_sno: None::<i32>,
                            },
                            new_sno: None::<Box<ScenarioNode>>,
                            new_id: old(tree).next_id,
                        },
                    ]
                } else {
                    r is None && final(tree).root == old(tree).root && final(tree).next_id == old(tree).next_id && final(self).history@ == old(self).history@ && final(self).index
                        == old(self).index
                }
            }),
    {
        let ok = match tree.find(target) {
            None => false,
            Some(an) => ScenarioNode::can_be_neighbor(&an.value, &item) && (match &an.neighbor {
                Some(n) => ScenarioNode::can_be_neighbor(&item, &n.value),
                None => true,
            }),
        };
        if !ok {
            return None;
        }
        let src = match tree.slot_of(target) {
            Some((p, bt)) => TreeManipulationHandle { sno: target, bt, parent_sno: p },
            None => {
                proof {
                    assert(false);
                }
                TreeManipulationHandle::default()
            },
        };
        let id = tree.gen_id();
        let node = Box::new(
            ScenarioNode { value: item, bt: BranchType::Neighbor, id, child: None, neighbor: None },
        );
        match tree.add_neighbor(target, node) {
            None => {
                self.push_entry(
                    OperationHistoryItem {
                        ope: Operation::AddNeighbor,
                        src,
                        dest: TreeManipulationHandle::default(),
                        new_sno: None,
                        new_id: id,
                    },
                );
                Some(id)
            },
            Some(_) => {
                proof {
                    assert(false);
                }
                None
            },
        }
    }

    /// Create a node holding `item` with a fresh id as the root of an
    /// empty tree, recording the entry.  A non-empty tree refuses.
    pub fn do_add_root(&mut self, tree: &mut ScenarioTree, item: Item) -> (r: Option<i32>)
        requires
            old(self).wf(),
            old(self).index < usize::MAX,
            old(tree).next_id < i32::MAX,
        ensures
            final(self).wf(),
            ({
                let node = ScenarioNode {
                    value: item,
                    bt: BranchType::Child,
                    id: old(tree).next_id,
                    child: None,
                    neighbor: None,
                };
                if old(tree).root is None {
                    r == Some(old(tree).next_id) && final(tree).root == Some(Box::new(node))
                        && final(tree).next_id == old(tree).next_id + 1 && final(self).index == old(self).index + 1 && final(self).history@ == old(self).history@.subrange(
                        0,
                        old(self).index as int,
                    ) + seq![
                        OperationHistoryItem {
                            ope: Operation::AddRoot,
                            src: TreeManipulationHandle {
                                sno: old(tree).next_id,
                                bt: BranchType::Child,
                                parent_sno: None::<i32>,
                            },
                            dest: TreeManipulationHandle {
                                sno: 0i32,
                                bt: BranchType::Child,
                                parent_sno: None::<i32>,
                            },
                            new_sno: None::<Box<ScenarioNode>>,
                            new_id: old(tree).next_id,
                        },
                    ]
                } else {
                    r is None && final(tree).root == old(tree).root && final(tree).next_id == old(tree).next_id && final(self).history@ == old(self).history@ && final(self).index
                        == old(self).index
                }
            }),
    {
        if tree.root.is_some() {
            return None;
        }
        let id = tree.gen_id();
        let node = Box::new(
            ScenarioNode { value: item, bt: BranchType::Child, id, child: None, neighbor: None },
        );
        match tree.add_root(node) {
            None => {
                self.push_entry(
                    OperationHistoryItem {
                        ope: Operation::AddRoot,
                        src: TreeManipulationHandle { sno: id, bt: BranchType::Child, parent_sno: None },
                        dest: TreeManipulationHandle::default(),
                        new_sno: None,
                        new_id: id,
                    },
                );
                Some(id)
            },
            Some(_) => {
                proof {
                    assert(false);
                }
                None
            },
        }
    }

    /// Move the node carrying `b` to be the first child of the node
    /// carrying `dest`, recording the entry.
    pub fn do_mv_to_child(&mut self, tree: &mut ScenarioTree, dest: i32, b: i32) -> (r: bool)
        requires
            old(self).wf(),
            old(self).index < usize::MAX,
        ensures
            final(self).wf(),
            final(tree).next_id == old(tree).next_id,
            r == mv_child_ok(old(tree).root, dest, b),
            r ==> final(tree).root == spec_mv_child(old(tree).root, dest, b) && final(self).index
                == old(self).index + 1 && final(self).history@ == old(self).history@.subrange(
                0,
                old(self).index as int,
            ) + seq![
                OperationHistoryItem {
                    ope: Operation::MvToDestChild,
                    src: handle_of(old(tree).root, b),
                    dest: handle_of(old(tree).root, dest),
                    new_sno: None::<Box<ScenarioNode>>,
                    new_id: b,
                },
            ],
            !r ==> final(tree).root == old(tree).root && final(self).history@ == old(self).history@
                && final(self).index == old(self).index,
    {
        let src = match tree.slot_of(b) {
            Some((p, bt)) => TreeManipulationHandle { sno: b, bt, parent_sno: p },
            None => {
                return false;
            },
        };
        let dest_h = match tree.slot_of(dest) {
            Some((p, bt)) => TreeManipulationHandle { sno: dest, bt, parent_sno: p },
            None => {
                return false;
            },
        };
        if tree.mv_to_child(dest, b) {
            self.push_entry(
                OperationHistoryItem {
                    ope: Operation::MvToDestChild,
                    src,
                    dest: dest_h,
                    new_sno: None,
                    new_id: b,
                },
            );
            true
        } else {
            false
        }
    }

    /// Move the node carrying `b` to be the next sibling of the node
    /// carrying `dest`, recording the entry.
    pub fn do_mv_to_neighbor(&mut self, tree: &mut ScenarioTree, dest: i32, b: i32) -> (r: bool)
        requires
            old(self).wf(),
            old(self).index < usize::MAX,
        ensures
            final(self).wf(),
            final(tree).next_id == old(tree).next_id,
            r == mv_neighbor_ok(old(tree).root, dest, b),
            r ==> final(tree).root == spec_mv_neighbor(old(tree).root, dest, b) && final(self).index == old(self).index + 1 && final(self).history@ == old(self).history@.subrange(
                0,
                old(self).index as int,
            ) + seq![
                OperationHistoryItem {
                    ope: Operation::MvToDestNeighbor,
                    src: handle_of(old(tree).root, b),
                    dest: handle_of(old(tree).root, dest),
                    new_sno: None::<Box<ScenarioNode>>,
                    new_id: b,
                },
            ],
            !r ==> final(tree).root == old(tree).root && final(self).history@ == old(self).history@
                && final(self).index == old(self).index,
    {
        let src = match tree.slot_of(b) {
            Some((p, bt)) => TreeManipulationHandle { sno: b, bt, parent_sno: p },
            None => {
                return false;
            },
        };
        let dest_h = match tree.slot_of(dest) {
            Some((p, bt)) => TreeManipulationHandle { sno: dest, bt, parent_sno: p },
            None => {
                return false;
            },
        };
        if tree.mv_to_neighbor(dest, b) {
            self.push_entry(
                OperationHistoryItem {
                    ope: Operation::MvToDestNeighbor,
                    src,
                    dest: dest_h,
                    new_sno: None,
                    new_id: b,
                },
            );
            true
        } else {
            false
        }
    }

    /// Move the node carrying `b` into the position of the node carrying
    /// `dest`, demoting `dest` to `b`'s next sibling, recording the
    /// entry.
    pub fn do_mv_to_parent(&mut self, tree: &mut ScenarioTree, dest: i32, b: i32) -> (r: bool)
        requires
            old(self).wf(),
            old(self).index < usize::MAX,
        ensures
            final(self).wf(),
            final(tree).next_id == old(tree).next_id,
            r == mv_parent_ok(old(tree).root, dest, b),
            r ==> final(tree).root == spec_mv_parent(old(tree).root, dest, b) && final(self).index
                == old(self).index + 1 && final(self).history@ == old(self).history@.subrange(
                0,
                old(self).index as int,
            ) + seq![
                OperationHistoryItem {
                    ope: Operation::MvToParent,
                    src: handle_of(old(tree).root, b),
                    dest: handle_of(old(tree).root, dest),
                    new_sno: None::<Box<ScenarioNode>>,
                    new_id: b,
                },
            ],
            !r ==> final(tree).root == old(tree).root && final(self).history@ == old(self).history@
                && final(self).index == old(self).index,
    {
        let src = match tree.slot_of(b) {
            Some((p, bt)) => TreeManipulationHandle { sno: b, bt, parent_sno: p },
            None => {
                return false;
            },
        };
        let dest_h = match tree.slot_of(dest) {
            Some((p, bt)) => TreeManipulationHandle { sno: dest, bt, parent_sno: p },
            None => {
                return false;
            },
        };
        if tree.mv_to_parent(dest, b) {
            self.push_entry(
                OperationHistoryItem {
                    ope: Operation::MvToParent,
                    src,
                    dest: dest_h,
                    new_sno: None,
                    new_id: b,
                },
            );
            true
        } else {
            false
        }
    }

    /// Move the node carrying `b` to be the first child of the parent of
    /// the node carrying `dest` — the drop-above-a-first-child case.
    pub fn do_mv_to_parent_child(&mut self, tree: &mut ScenarioTree, dest: i32, b: i32) -> (r: bool)
        requires
            old(self).wf(),
            old(self).index < usize::MAX,
        ensures
            final(self).wf(),
            final(tree).next_id == old(tree).next_id,
            ({
                let slot = tree_slot_of(old(tree).root, dest);
                let ok = slot matches Some((Some(p), _)) && mv_child_ok(old(tree).root, p, b);
                r == ok && (if ok {
                    let p = slot.unwrap().0.unwrap();
                    final(tree).root == spec_mv_child(old(tree).root, p, b) && final(self).index
                        == old(self).index + 1 && final(self).history@ == old(self).history@.subrange(0, old(self).index as int) + seq![
                        OperationHistoryItem {
                            ope: Operation::MvToParentChild,
                            src: handle_of(old(tree).root, b),
                            dest: handle_of(old(tree).root, p),
                            new_sno: None::<Box<ScenarioNode>>,
                            new_id: b,
                        },
                    ]
                } else {
                    final(tree).root == old(tree).root && final(self).history@ == old(self).history@ && final(self).index == old(self).index
                })
            }),
    {
        let p = match tree.slot_of(dest) {
            Some((Some(p), _)) => p,
            _ => {
                return false;
            },
        };
        let src = match tree.slot_of(b) {
            Some((pp, bt)) => TreeManipulationHandle { sno: b, bt, parent_sno: pp },
            None => {
                return false;
            },
        };
        let dest_h = match tree.slot_of(p) {
            Some((pp, bt)) => TreeManipulationHandle { sno: p, bt, parent_sno: pp },
            None => {
                proof {
                    crate::tree_ops::lemma_slot_owner_contained(tree.root, dest);
                    crate::tree_ops::lemma_slot_exists(tree.root, p);
                    assert(false);
                }
                return false;
            },
        };
        if tree.mv_to_child(p, b) {
            self.push_entry(
                OperationHistoryItem {
                    ope: Operation::MvToParentChild,
                    src,
                    dest: dest_h,
                    new_sno: None,
                    new_id: b,
                },
            );
            true
        } else {
            false
        }
    }

    /// Move the node carrying `b` to be the next sibling of the
    /// predecessor of the node carrying `dest` — the drop-above-a-
    /// sibling case, which puts `b` between the two.
    pub fn do_mv_to_parent_neighbor(&mut self, tree: &mut ScenarioTree, dest: i32, b: i32) -> (r:
        bool)
        requires
            old(self).wf(),
            old(self).index < usize::MAX,
        ensures
            final(self).wf(),
            final(tree).next_id == old(tree).next_id,
            ({
                let slot = tree_slot_of(old(tree).root, dest);
                let ok = slot matches Some((Some(p), _)) && mv_neighbor_ok(old(tree).root, p, b);
                r == ok && (if ok {
                    let p = slot.unwrap().0.unwrap();
                    final(tree).root == spec_mv_neighbor(old(tree).root, p, b) && final(self).index
                        == old(self).index + 1 && final(self).history@ == old(self).history@.subrange(0, old(self).index as int) + seq![
                        OperationHistoryItem {
                            ope: Operation::MvToParentNeighbor,
                            src: handle_of(old(tree).root, b),
                            dest: handle_of(old(tree).root, p),
                            new_sno: None::<Box<ScenarioNode>>,
                            new_id: b,
                        },
                    ]
                } else {
                    final(tree).root == old(tree).root && final(self).history@ == old(self).history@ && final(self).index == old(self).index
                })
            }),
    {
        let p = match tree.slot_of(dest) {
            Some((Some(p), _)) => p,
            _ => {
                return false;
            },
        };
        let src = match tree.slot_of(b) {
            Some((pp, bt)) => TreeManipulationHandle { sno: b, bt, parent_sno: pp },
            None => {
                return false;
            },
        };
        let dest_h = match tree.slot_of(p) {
            Some((pp, bt)) => TreeManipulationHandle { sno: p, bt, parent_sno: pp },
            None => {
                proof {
                    crate::tree_ops::lemma_slot_owner_contained(tree.root, dest);
                    crate::tree_ops::lemma_slot_exists(tree.root, p);
                    assert(false);
                }
                return false;
            },
        };
        if tree.mv_to_neighbor(p, b) {
            self.push_entry(
                OperationHistoryItem {
                    ope: Operation::MvToParentNeighbor,
                    src,
                    dest: dest_h,
                    new_sno: None,
                    new_id: b,
                },
            );
            true
        } else {
            false
        }
    }

    /// Clear stale redo entries, append, advance the cursor.
    fn push_entry(&mut self, e: OperationHistoryItem)
        requires
            old(self).wf(),
            old(self).index < usize::MAX,
        ensures
            final(self).history@ == old(self).history@.subrange(0, old(self).index as int)
                + seq![e],
            final(self).index == old(self).index + 1,
            final(self).wf(),
    {
        self.history.truncate(self.index);
        self.history.push(e);
        self.index = self.index + 1;
    }
}

} // verus!
