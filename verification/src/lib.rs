//! Scenario tree model: a first-child/next-sibling tree of scenario nodes
//! with a kind-compatibility grammar, structural mutation primitives, a
//! flatten/rebuild codec for persistence, and a command-based undo/redo
//! history engine.

pub mod codec;
pub mod drawing_util;
pub mod operation_history;
pub mod prefs;
pub mod sample;
pub mod scenario_node;
pub mod sno_list;
pub mod tree_ops;
pub mod tree_util;
