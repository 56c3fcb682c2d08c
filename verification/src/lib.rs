//! A behavior-tree runtime: trees of composite, decorator and action nodes
//! are built from an XML description and driven by synchronous ticks until
//! the root reports completion.  Nodes share scoped blackboards, read input
//! ports, and publish status-change notifications to per-node observers.

use vstd::prelude::*;

pub mod blackboard;
pub mod factory;
pub mod node;
pub mod parser;
pub mod text;
pub mod value;
pub mod tree;

verus! {

/// Errors raised while building a tree from its XML description.
#[derive(Debug)]
pub enum BtError {
    /// The XML text itself is malformed.
    Xml(String),
    /// Anything else: schema violations, unknown node types, bad references.
    Raw(String),
}

impl BtError {
    /// A human-readable description of the error.
    pub fn message(&self) -> &String {
        match self {
            BtError::Xml(s) => s,
            BtError::Raw(s) => s,
        }
    }
}

/// The status a node reports when ticked.  `Success` and `Failure` are the
/// two completed statuses; `Idle` is the state before the first tick and
/// after a reset.
#[derive(PartialEq, Eq, Structural, Debug, Clone, Copy)]
pub enum NodeStatus {
    Idle,
    Success,
    Failure,
    Running,
}

impl NodeStatus {
    /// True exactly on the two completed statuses.
    pub fn is_completed(&self) -> (r: bool)
        ensures
            r == (*self == NodeStatus::Success || *self == NodeStatus::Failure),
    {
        *self == NodeStatus::Success || *self == NodeStatus::Failure
    }
}

/// The three kinds of node a tree is made of.
#[derive(PartialEq, Eq, Structural, Debug, Clone, Copy)]
pub enum NodeType {
    Composite,
    Decorator,
    Action,
}

/// The uniform tick/halt interface of every node.  A node says through
/// `tick_ready` and `halt_ready` when the operations may run; one tick
/// leaves the node ready to be ticked again.
pub trait TreeNode {
    /// When the node may be ticked against `bb`.
    spec fn tick_ready(&self, bb: &crate::blackboard::Blackboards) -> bool;

    /// When the node may be halted.
    spec fn halt_ready(&self) -> bool;

    /// One tick of the node.
    fn tick(&mut self, bb: &mut crate::blackboard::Blackboards) -> (r: NodeStatus)
        requires
            old(self).tick_ready(old(bb)),
        ensures
            final(self).tick_ready(final(bb)),
    ;

    /// Cancels the node's subtree.
    fn halt(&mut self)
        requires
            old(self).halt_ready(),
        ensures
            final(self).halt_ready(),
    ;
}

} // verus!
