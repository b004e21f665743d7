//! Decision tables behind the UI affordances: where an added node goes
//! relative to the selection, and which move a drag-and-drop gesture
//! means.  Pure functions from the kinds and positions involved to the
//! operation to run; the widget layer only carries their verdicts out.

use vstd::prelude::*;

use crate::operation_history::Operation;
use crate::scenario_node::BranchType;
use crate::scenario_node::Item;

verus! {

/// Where a newly created node is placed relative to the selected node.
#[derive(Debug, Clone, Copy, PartialEq, Eq, Structural)]
pub enum AddDecision {
    /// The new node becomes the selection's first child.
    AddChild,
    /// The new node becomes the selection's next sibling.
    AddNeighbor,
    /// The selection is first re-targeted to its nearest scene; the new
    /// node follows that scene as a sibling.
    AddNeighborAtScene,
    /// The selection is first re-targeted to its nearest click unit; the
    /// new node follows it as a sibling.
    AddNeighborAtPage,
    /// The pair of kinds admits no placement.
    Reject,
}

/// Where a node holding `new_item` goes when added while `sel_item` is
/// selected: siblings join their own structural family, children nest
/// one level down, and a selection too deep for the new kind is first
/// re-targeted to the nearest enclosing scene or click unit.
pub open spec fn decide_add_operation_spec(new_item: Item, sel_item: Item) -> AddDecision {
    match new_item {
        Item::Group => match sel_item {
            Item::Group | Item::Scene(_) => AddDecision::AddNeighbor,
            Item::Page(_) | Item::Pmat(_) | Item::Mat(_) | Item::Ovimg(_) => AddDecision::AddNeighborAtScene,
        },
        Item::Scene(_) => match sel_item {
            Item::Group => AddDecision::AddChild,
            Item::Scene(_) => AddDecision::AddNeighbor,
            Item::Page(_) | Item::Pmat(_) | Item::Mat(_) | Item::Ovimg(_) => AddDecision::AddNeighborAtScene,
        },
        Item::Page(_) | Item::Pmat(_) => match sel_item {
            Item::Group => AddDecision::Reject,
            Item::Scene(_) => AddDecision::AddChild,
            Item::Page(_) | Item::Pmat(_) => AddDecision::AddNeighbor,
            Item::Mat(_) | Item::Ovimg(_) => AddDecision::AddNeighborAtPage,
        },
        Item::Mat(_) | Item::Ovimg(_) => match sel_item {
            Item::Group | Item::Scene(_) => AddDecision::Reject,
            Item::Page(_) => AddDecision::AddChild,
            Item::Pmat(_) => AddDecision::Reject,
            Item::Mat(_) | Item::Ovimg(_) => AddDecision::AddNeighbor,
        },
    }
}

pub fn decide_add_operation(new_item: &Item, sel_item: &Item) -> (r: AddDecision)
    ensures
        r == decide_add_operation_spec(*new_item, *sel_item),
{
    match new_item {
        Item::Group => match sel_item {
            Item::Group | Item::Scene(_) => AddDecision::AddNeighbor,
            _ => AddDecision::AddNeighborAtScene,
        },
        Item::Scene(_) => match sel_item {
            Item::Group => AddDecision::AddChild,
            Item::Scene(_) => AddDecision::AddNeighbor,
            _ => AddDecision::AddNeighborAtScene,
        },
        Item::Page(_) | Item::Pmat(_) => match sel_item {
            Item::Group => AddDecision::Reject,
            Item::Scene(_) => AddDecision::AddChild,
            Item::Page(_) | Item::Pmat(_) => AddDecision::AddNeighbor,
            _ => AddDecision::AddNeighborAtPage,
        },
        Item::Mat(_) | Item::Ovimg(_) => match sel_item {
            Item::Group | Item::Scene(_) => AddDecision::Reject,
            Item::Page(_) => AddDecision::AddChild,
            Item::Pmat(_) => AddDecision::Reject,
            Item::Mat(_) | Item::Ovimg(_) => AddDecision::AddNeighbor,
        },
    }
}

/// Which move a drop gesture means.  A drop on the upper half of a row
/// inserts above the target: before a first child through its parent,
/// between siblings through the predecessor, or at the root position
/// when the target is the root.  A drop on the lower half goes under
/// the target: as its first child when dropped on the row's label, as
/// its next sibling when dropped on the row's expander.
pub open spec fn drop_operation_spec(
    dest_bt: BranchType,
    dest_is_root: bool,
    lower_half: bool,
    on_expander: bool,
) -> Operation {
    if lower_half {
        if on_expander {
            Operation::MvToDestNeighbor
        } else {
            Operation::MvToDestChild
        }
    } else {
        match dest_bt {
            BranchType::Child => {
                if dest_is_root {
                    Operation::MvToParent
                } else {
                    Operation::MvToParentChild
                }
            },
            BranchType::Neighbor => Operation::MvToParentNeighbor,
        }
    }
}

pub fn drop_operation(
    dest_bt: BranchType,
    dest_is_root: bool,
    lower_half: bool,
    on_expander: bool,
) -> (r: Operation)
    ensures
        r == drop_operation_spec(dest_bt, dest_is_root, lower_half, on_expander),
{
    if lower_half {
        if on_expander {
            Operation::MvToDestNeighbor
        } else {
            Operation::MvToDestChild
        }
    } else {
        match dest_bt {
            BranchType::Child => {
                if dest_is_root {
                    Operation::MvToParent
                } else {
                    Operation::MvToParentChild
                }
            },
            BranchType::Neighbor => Operation::MvToParentNeighbor,
        }
    }
}

} // verus!
