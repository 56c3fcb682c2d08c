//! Action leaves: the user-extension trait, the built-in `SetBlackboard`
//! action, and the wrapper that runs the tick lifecycle around an action.

use vstd::prelude::*;
use crate::NodeStatus;
use crate::blackboard::Blackboards;
use crate::node::{spec_get_input_str, DataProxy};
use crate::value::BtValue;

verus! {

/// What a user-defined action implements.  `tick_status` does one tick of
/// the action's work, reading ports through the proxy and the blackboard;
/// it may not drop blackboard scopes, so the promises below are the least a
/// well-behaved action keeps.
pub trait ActionNodeImpl: Sized {
    /// Builds an action for the element `elem_name` with the given
    /// attributes, if this implementation recognizes the name.
    fn construct(elem_name: &str, attrs: &Vec<(String, String)>) -> Option<Self>;

    /// One tick of the action's work.
    fn tick_status(&mut self, data_proxy: &mut DataProxy, bb: &mut Blackboards) -> (r: NodeStatus)
        requires
            old(bb).wf(),
            old(data_proxy).wf(),
            old(data_proxy).scope < old(bb).n_scopes(),
        ensures
            final(bb).wf(),
            final(bb).n_scopes() >= old(bb).n_scopes(),
            final(data_proxy).wf(),
            final(data_proxy).scope == old(data_proxy).scope,
            final(data_proxy).tick_trace == old(data_proxy).tick_trace,
    ;

    /// Cancels any in-flight work; the default does nothing.
    fn halt(&mut self) {
    }
}

/// The built-in action that copies its `value` port into the blackboard
/// under the key named by its `output_key` port.
pub struct SetBlackboard;

impl SetBlackboard {
    /// Reads `output_key` and `value` as strings and writes the value under
    /// the key; fails when either port cannot be read.
    pub fn run(data_proxy: &DataProxy, bb: &mut Blackboards) -> (r: NodeStatus)
        requires
            old(bb).wf(),
            data_proxy.scope < old(bb).n_scopes(),
        ensures
            final(bb).wf(),
            final(bb).n_scopes() == old(bb).n_scopes(),
            ({
                let key = spec_get_input_str(
                    data_proxy.input_ports@,
                    *old(bb),
                    data_proxy.scope as int,
                    "output_key"@,
                );
                let value = spec_get_input_str(
                    data_proxy.input_ports@,
                    *old(bb),
                    data_proxy.scope as int,
                    "value"@,
                );
                match (key, value) {
                    (Some(k), Some(v)) => {
                        &&& r == NodeStatus::Success
                        &&& forall|q: Seq<char>|
                            crate::blackboard::spec_find_value(
                                #[trigger] final(bb).scopes@[data_proxy.scope as int].entries@,
                                q,
                            ) == (if q == k {
                                Some(crate::value::ValueModel::Str(v))
                            } else {
                                crate::blackboard::spec_find_value(
                                    old(bb).scopes@[data_proxy.scope as int].entries@,
                                    q,
                                )
                            })
                        &&& forall|i: int|
                            0 <= i < old(bb).n_scopes() && i != data_proxy.scope
                                ==> #[trigger] final(bb).scopes@[i] == old(bb).scopes@[i]
                    },
                    _ => {
                        &&& r == NodeStatus::Failure
                        &&& *final(bb) == *old(bb)
                    },
                }
            }),
    {
        let output_key = match data_proxy.get_input_string(bb, "output_key") {
            Some(k) => k,
            None => {
                return NodeStatus::Failure;
            },
        };
        let value = match data_proxy.get_input_string(bb, "value") {
            Some(v) => v,
            None => {
                return NodeStatus::Failure;
            },
        };
        bb.set(data_proxy.scope(), output_key, BtValue::Str(value));
        NodeStatus::Success
    }
}

/// The action node of a tree: either the built-in blackboard writer or a
/// user-defined action.
pub enum ActionNode<A> {
    SetBlackboard(SetBlackboard),
    User(A),
}

/// An action leaf together with its per-node data.
pub struct ActionWrapper<A> {
    pub data_proxy: DataProxy,
    pub node: ActionNode<A>,
}

impl<A: ActionNodeImpl> ActionWrapper<A> {
    /// Wraps an action behind a data proxy.
    pub fn new(data_proxy: DataProxy, node: ActionNode<A>) -> (r: ActionWrapper<A>)
        ensures
            r.data_proxy == data_proxy,
            r.node == node,
    {
        ActionWrapper { data_proxy, node }
    }

    /// One tick: mark the node running on its first tick, do the action's
    /// work, record and return the resulting status.
    pub fn tick(&mut self, bb: &mut Blackboards) -> (r: NodeStatus)
        requires
            old(self).data_proxy.wf(),
            old(bb).wf(),
            old(self).data_proxy.scope < old(bb).n_scopes(),
        ensures
            final(self).data_proxy.wf(),
            final(bb).wf(),
            final(bb).n_scopes() >= old(bb).n_scopes(),
            final(self).data_proxy.scope == old(self).data_proxy.scope,
            final(self).data_proxy.status == r,
            final(self).data_proxy.tick_trace@ == old(self).data_proxy.tick_trace@.push(r),
            (match old(self).node {
                ActionNode::SetBlackboard(_) => ({
                    let key = spec_get_input_str(
                        old(self).data_proxy.input_ports@,
                        *old(bb),
                        old(self).data_proxy.scope as int,
                        "output_key"@,
                    );
                    let value = spec_get_input_str(
                        old(self).data_proxy.input_ports@,
                        *old(bb),
                        old(self).data_proxy.scope as int,
                        "value"@,
                    );
                    match (key, value) {
                        (Some(k), Some(v)) => {
                            &&& r == NodeStatus::Success
                            &&& final(bb).n_scopes() == old(bb).n_scopes()
                            &&& forall|q: Seq<char>|
                                crate::blackboard::spec_find_value(
                                    #[trigger] final(bb).scopes@[old(self).data_proxy.scope as int].entries@,
                                    q,
                                ) == (if q == k {
                                    Some(crate::value::ValueModel::Str(v))
                                } else {
                                    crate::blackboard::spec_find_value(
                                        old(bb).scopes@[old(self).data_proxy.scope as int].entries@,
                                        q,
                                    )
                                })
                            &&& forall|i: int|
                                0 <= i < old(bb).n_scopes() && i != old(self).data_proxy.scope
                                    ==> #[trigger] final(bb).scopes@[i] == old(bb).scopes@[i]
                        },
                        _ => r == NodeStatus::Failure && *final(bb) == *old(bb),
                    }
                }),
                ActionNode::User(_) => true,
            }),
    {
        if self.data_proxy.status() == NodeStatus::Idle {
            self.data_proxy.set_status(NodeStatus::Running);
        }
        let new_status = match &mut self.node {
            ActionNode::SetBlackboard(_) => SetBlackboard::run(&self.data_proxy, bb),
            ActionNode::User(a) => a.tick_status(&mut self.data_proxy, bb),
        };
        self.data_proxy.set_status(new_status);
        proof {
            self.data_proxy.tick_trace@ = self.data_proxy.tick_trace@.push(new_status);
        }
        new_status
    }

    /// Cancels the action's in-flight work, if any.
    pub fn halt(&mut self)
        ensures
            final(self).data_proxy == old(self).data_proxy,
    {
        match &mut self.node {
            ActionNode::SetBlackboard(_) => {},
            ActionNode::User(a) => a.halt(),
        }
    }
}

} // verus!
