//! The node-type factory: fixed registries for the built-in composite and
//! decorator kinds, and a regex-keyed registry for user action types.
//!
//! The built-in action `SetBlackboard` is always registered, under a
//! pattern matching exactly its own name, so it is recognized by direct
//! name equality; user actions are matched against the compiled patterns
//! they were registered with, in registration order, first match wins.

use vstd::prelude::*;
use crate::BtError;
use crate::blackboard::spec_remap_of;
use crate::node::DataProxy;
use crate::node::action::{ActionNode, ActionNodeImpl, ActionWrapper, SetBlackboard};
use crate::node::composite::{CompositeNode, CompositeWrapper, Parallel, Selector, Sequence};
use crate::node::decorator::{
    DecoratorNode, DecoratorWrapper, ForceFailure, ForceSuccess, Inverter, Repeat, Retry, SubTree,
};
use crate::text::{assoc_find_str, spec_find_str, str_eq};
use crate::tree::{NodeWrapper, TreeNodeWrapper};

verus! {

#[verifier::external_type_specification]
#[verifier::external_body]
pub struct ExRegex(regex::Regex);

/// The pattern a compiled regex was built from.
pub uninterp spec fn regex_pattern_of(re: regex::Regex) -> Seq<char>;

/// Whether a regex pattern matches anywhere in a text.
pub uninterp spec fn spec_regex_match(pattern: Seq<char>, text: Seq<char>) -> bool;

/// Whether a pattern is a valid regex: compilation succeeds exactly on the
/// valid ones, as a function of the pattern alone.
pub uninterp spec fn spec_regex_valid(pattern: Seq<char>) -> bool;

/// Relies on regex's `Regex::new`: compiles `pattern`; fails exactly on
/// invalid patterns, a property of the pattern alone.
#[verifier::external_body]
fn compile_regex(pattern: &str) -> (r: Option<regex::Regex>)
    ensures
        r is Some <==> spec_regex_valid(pattern@),
        r matches Some(re) ==> regex_pattern_of(re) == pattern@,
{
    regex::Regex::new(pattern).ok()
}

/// Relies on regex's `Regex::is_match`: true when there is a match for the
/// compiled pattern anywhere in `text`; a function of the pattern and the
/// text alone.
#[verifier::external_body]
fn regex_matches(re: &regex::Regex, text: &str) -> (r: bool)
    ensures
        r == spec_regex_match(regex_pattern_of(*re), text@),
{
    re.is_match(text)
}

/// A compiled action-name pattern.
pub struct ActionRegex {
    pub regex: regex::Regex,
}

impl ActionRegex {
    /// Compiles `value` into an action-name pattern.
    pub fn try_new(value: &str) -> (r: Result<ActionRegex, BtError>)
        ensures
            r is Ok <==> spec_regex_valid(value@),
            r matches Ok(a) ==> regex_pattern_of(a.regex) == value@,
    {
        match compile_regex(value) {
            Some(regex) => Ok(ActionRegex { regex }),
            None => Err(BtError::Raw("convert to regex meet failure".to_owned())),
        }
    }

    /// Whether this pattern matches anywhere in `text`.
    pub fn is_match(&self, text: &str) -> (r: bool)
        ensures
            r == spec_regex_match(regex_pattern_of(self.regex), text@),
    {
        regex_matches(&self.regex, text)
    }
}

/// The element names that build a composite node.
pub open spec fn is_composite_name(name: Seq<char>) -> bool {
    name == "Sequence"@ || name == "Fallback"@ || name == "Parallel"@
}

/// The element names that build a decorator node.
pub open spec fn is_decorator_name(name: Seq<char>) -> bool {
    ||| name == "ForceSuccess"@
    ||| name == "ForceFailure"@
    ||| name == "Inverter"@
    ||| name == "Repeat"@
    ||| name == "RetryUntilSuccessful"@
    ||| name == "SubTree"@
}

/// The registry of node types: the composite and decorator kinds are fixed
/// built-ins, action types are registered as name patterns.
pub struct Factory {
    pub action_node_tcs: Vec<ActionRegex>,
}

/// Installs the element attributes as input ports; a later attribute for
/// the same key wins.
fn apply_attrs(data_proxy: &mut DataProxy, attrs: &Vec<(String, String)>)
    ensures
        final(data_proxy).status == old(data_proxy).status,
        final(data_proxy).uid == old(data_proxy).uid,
        final(data_proxy).full_path == old(data_proxy).full_path,
        final(data_proxy).scope == old(data_proxy).scope,
        final(data_proxy).state_observer == old(data_proxy).state_observer,
        final(data_proxy).last_ts == old(data_proxy).last_ts,
        final(data_proxy).notif_log == old(data_proxy).notif_log,
        final(data_proxy).tick_trace == old(data_proxy).tick_trace,
        forall|q: Seq<char>|
            spec_find_str(#[trigger] final(data_proxy).input_ports@, q) == (match spec_remap_of(
                attrs@,
                q,
            ) {
                Some(v) => Some(v),
                None => spec_find_str(old(data_proxy).input_ports@, q),
            }),
{
    let ghost all = attrs@;
    let n = attrs.len();
    let mut k: usize = 0;
    proof {
        assert(all.take(0) =~= Seq::<(String, String)>::empty());
    }
    while k < n
        invariant
            n == all.len(),
            k <= n,
            attrs@ == all,
            data_proxy.status == old(data_proxy).status,
            data_proxy.uid == old(data_proxy).uid,
            data_proxy.full_path == old(data_proxy).full_path,
            data_proxy.scope == old(data_proxy).scope,
            data_proxy.state_observer == old(data_proxy).state_observer,
            data_proxy.last_ts == old(data_proxy).last_ts,
            data_proxy.notif_log == old(data_proxy).notif_log,
            data_proxy.tick_trace == old(data_proxy).tick_trace,
            forall|q: Seq<char>|
                spec_find_str(#[trigger] data_proxy.input_ports@, q) == (match spec_remap_of(
                    all.take(k as int),
                    q,
                ) {
                    Some(v) => Some(v),
                    None => spec_find_str(old(data_proxy).input_ports@, q),
                }),
        decreases n - k,
    {
        let key = attrs[k].0.clone();
        let value = attrs[k].1.clone();
        data_proxy.add_input(key, value);
        proof {
            assert(all.take(k + 1).drop_last() =~= all.take(k as int));
            assert(all.take(k + 1).last() == all[k as int]);
        }
        k = k + 1;
    }
    proof {
        assert(all.take(n as int) =~= all);
    }
}

impl Factory {
    /// The built-in composite type names.
    pub fn composite_types(&self) -> (r: Vec<&'static str>)
        ensures
            r@.len() == 3,
    {
        let mut v: Vec<&'static str> = Vec::new();
        v.push("Sequence");
        v.push("Fallback");
        v.push("Parallel");
        v
    }

    /// The built-in decorator type names.
    pub fn decorator_types(&self) -> (r: Vec<&'static str>)
        ensures
            r@.len() == 6,
    {
        let mut v: Vec<&'static str> = Vec::new();
        v.push("ForceSuccess");
        v.push("ForceFailure");
        v.push("Inverter");
        v.push("Repeat");
        v.push("RetryUntilSuccessful");
        v.push("SubTree");
        v
    }

    /// Registers a user action type under a name pattern.
    pub fn register_action_node_type(&mut self, pattern: ActionRegex)
        ensures
            final(self).action_node_tcs@ == old(self).action_node_tcs@.push(pattern),
    {
        self.action_node_tcs.push(pattern);
    }

    /// Whether `name` is a built-in composite type.
    pub fn is_composite(&self, name: &str) -> (r: bool)
        ensures
            r == is_composite_name(name@),
    {
        str_eq(name, "Sequence") || str_eq(name, "Fallback") || str_eq(name, "Parallel")
    }

    /// Whether `name` is a built-in decorator type.
    pub fn is_decorator(&self, name: &str) -> (r: bool)
        ensures
            r == is_decorator_name(name@),
    {
        str_eq(name, "ForceSuccess") || str_eq(name, "ForceFailure") || str_eq(name, "Inverter")
            || str_eq(name, "Repeat") || str_eq(name, "RetryUntilSuccessful") || str_eq(
            name,
            "SubTree",
        )
    }

    /// Builds the composite node `name` stands for, with the element
    /// attributes as its input ports.
    pub fn build_composite<A: ActionNodeImpl>(
        &self,
        name: &str,
        data_proxy: DataProxy,
        attrs: Vec<(String, String)>,
    ) -> (r: Option<CompositeWrapper<A>>)
        ensures
            r is Some <==> is_composite_name(name@),
            r matches Some(c) ==> c.child_nodes@.len() == 0,
            r matches Some(c) ==> (name@ == "Sequence"@ ==> (
                c.node_impl matches CompositeNode::Sequence(s) && s.current_child_idx == 0)),
            r matches Some(c) ==> (name@ == "Fallback"@ ==> (
                c.node_impl matches CompositeNode::Selector(s) && s.current_child_idx == 0)),
            r matches Some(c) ==> (name@ == "Parallel"@ ==> (
                c.node_impl matches CompositeNode::Parallel(p) && p.success_count == 0
                    && p.failure_count == 0 && p.completed_list@.len() == 0)),
            r matches Some(c) ==> c.data_proxy.status == data_proxy.status
                && c.data_proxy.uid == data_proxy.uid && c.data_proxy.full_path
                == data_proxy.full_path && c.data_proxy.scope == data_proxy.scope
                && c.data_proxy.notif_log == data_proxy.notif_log && c.data_proxy.last_ts
                == data_proxy.last_ts && c.data_proxy.tick_trace == data_proxy.tick_trace,
            r matches Some(c) ==> (forall|q: Seq<char>|
                spec_find_str(#[trigger] c.data_proxy.input_ports@, q) == (match spec_remap_of(
                    attrs@,
                    q,
                ) {
                    Some(v) => Some(v),
                    None => spec_find_str(data_proxy.input_ports@, q),
                })),
    {
        proof {
            reveal_strlit("Sequence");
            reveal_strlit("Fallback");
            reveal_strlit("Parallel");
            assert("Sequence"@ != "Fallback"@) by {
                assert("Sequence"@[0] != "Fallback"@[0]);
            }
            assert("Sequence"@ != "Parallel"@) by {
                assert("Sequence"@[0] != "Parallel"@[0]);
            }
            assert("Fallback"@ != "Parallel"@) by {
                assert("Fallback"@[0] != "Parallel"@[0]);
            }
        }
        let mut data_proxy = data_proxy;
        apply_attrs(&mut data_proxy, &attrs);
        if str_eq(name, "Sequence") {
            Some(CompositeWrapper::new(
                data_proxy,
                CompositeNode::Sequence(Sequence { current_child_idx: 0 }),
            ))
        } else if str_eq(name, "Fallback") {
            Some(CompositeWrapper::new(
                data_proxy,
                CompositeNode::Selector(Selector { current_child_idx: 0 }),
            ))
        } else if str_eq(name, "Parallel") {
            Some(CompositeWrapper::new(
                data_proxy,
                CompositeNode::Parallel(
                    Parallel { success_count: 0, failure_count: 0, completed_list: Vec::new() },
                ),
            ))
        } else {
            None
        }
    }

    /// Builds the decorator node `name` stands for around `inner_node`,
    /// with the element attributes as its input ports.  A `SubTree` element
    /// must carry an `ID` attribute naming the tree it refers to.
    pub fn build_decorator<A: ActionNodeImpl>(
        &self,
        name: &str,
        data_proxy: DataProxy,
        attrs: Vec<(String, String)>,
        inner_node: TreeNodeWrapper<A>,
    ) -> (r: Option<DecoratorWrapper<A>>)
        ensures
            r is Some <==> (is_decorator_name(name@) && (name@ == "SubTree"@
                ==> spec_find_str(attrs@, "ID"@) is Some)),
            r matches Some(d) ==> *d.inner_node == inner_node,
            r matches Some(d) ==> (name@ == "ForceSuccess"@ ==> d.node_impl is ForceSuccess),
            r matches Some(d) ==> (name@ == "ForceFailure"@ ==> d.node_impl is ForceFailure),
            r matches Some(d) ==> (name@ == "Inverter"@ ==> d.node_impl is Inverter),
            r matches Some(d) ==> (name@ == "Repeat"@ ==> (
                d.node_impl matches DecoratorNode::Repeat(p) && p.repeat_count == 0)),
            r matches Some(d) ==> (name@ == "RetryUntilSuccessful"@ ==> (
                d.node_impl matches DecoratorNode::Retry(p) && p.try_count == 0)),
            r matches Some(d) ==> (name@ == "SubTree"@ ==> d.node_impl is SubTree),
            r matches Some(d) ==> d.data_proxy.status == data_proxy.status
                && d.data_proxy.uid == data_proxy.uid && d.data_proxy.full_path
                == data_proxy.full_path && d.data_proxy.scope == data_proxy.scope
                && d.data_proxy.notif_log == data_proxy.notif_log && d.data_proxy.last_ts
                == data_proxy.last_ts && d.data_proxy.tick_trace == data_proxy.tick_trace,
            r matches Some(d) ==> (forall|q: Seq<char>|
                spec_find_str(#[trigger] d.data_proxy.input_ports@, q) == (match spec_remap_of(
                    attrs@,
                    q,
                ) {
                    Some(v) => Some(v),
                    None => spec_find_str(data_proxy.input_ports@, q),
                })),
    {
        proof {
            reveal_strlit("ForceSuccess");
            reveal_strlit("ForceFailure");
            reveal_strlit("Inverter");
            reveal_strlit("Repeat");
            reveal_strlit("RetryUntilSuccessful");
            reveal_strlit("SubTree");
            assert("ForceSuccess"@ != "ForceFailure"@) by {
                assert("ForceSuccess"@[5] != "ForceFailure"@[5]);
            }
            assert("ForceSuccess"@ != "Inverter"@) by {
                assert("ForceSuccess"@[0] != "Inverter"@[0]);
            }
            assert("ForceSuccess"@ != "Repeat"@) by {
                assert("ForceSuccess"@[0] != "Repeat"@[0]);
            }
            assert("ForceSuccess"@ != "RetryUntilSuccessful"@) by {
                assert("ForceSuccess"@[0] != "RetryUntilSuccessful"@[0]);
            }
            assert("ForceSuccess"@ != "SubTree"@) by {
                assert("ForceSuccess"@[0] != "SubTree"@[0]);
            }
            assert("ForceFailure"@ != "Inverter"@) by {
                assert("ForceFailure"@[0] != "Inverter"@[0]);
            }
            assert("ForceFailure"@ != "Repeat"@) by {
                assert("ForceFailure"@[0] != "Repeat"@[0]);
            }
            assert("ForceFailure"@ != "RetryUntilSuccessful"@) by {
                assert("ForceFailure"@[0] != "RetryUntilSuccessful"@[0]);
            }
            assert("ForceFailure"@ != "SubTree"@) by {
                assert("ForceFailure"@[0] != "SubTree"@[0]);
            }
            assert("Inverter"@ != "Repeat"@) by {
                assert("Inverter"@[0] != "Repeat"@[0]);
            }
            assert("Inverter"@ != "RetryUntilSuccessful"@) by {
                assert("Inverter"@[0] != "RetryUntilSuccessful"@[0]);
            }
            assert("Inverter"@ != "SubTree"@) by {
                assert("Inverter"@[0] != "SubTree"@[0]);
            }
            assert("Repeat"@ != "RetryUntilSuccessful"@) by {
                assert("Repeat"@[2] != "RetryUntilSuccessful"@[2]);
            }
            assert("Repeat"@ != "SubTree"@) by {
                assert("Repeat"@[0] != "SubTree"@[0]);
            }
            assert("RetryUntilSuccessful"@ != "SubTree"@) by {
                assert("RetryUntilSuccessful"@[0] != "SubTree"@[0]);
            }
        }
        let mut data_proxy = data_proxy;
        apply_attrs(&mut data_proxy, &attrs);
        if str_eq(name, "ForceSuccess") {
            Some(DecoratorWrapper::new(data_proxy, DecoratorNode::ForceSuccess(ForceSuccess), inner_node))
        } else if str_eq(name, "ForceFailure") {
            Some(DecoratorWrapper::new(data_proxy, DecoratorNode::ForceFailure(ForceFailure), inner_node))
        } else if str_eq(name, "Inverter") {
            Some(DecoratorWrapper::new(data_proxy, DecoratorNode::Inverter(Inverter), inner_node))
        } else if str_eq(name, "Repeat") {
            Some(DecoratorWrapper::new(
                data_proxy,
                DecoratorNode::Repeat(Repeat { repeat_count: 0 }),
                inner_node,
            ))
        } else if str_eq(name, "RetryUntilSuccessful") {
            Some(DecoratorWrapper::new(
                data_proxy,
                DecoratorNode::Retry(Retry { try_count: 0 }),
                inner_node,
            ))
        } else if str_eq(name, "SubTree") {
            match assoc_find_str(&attrs, "ID") {
                Some(id) => Some(DecoratorWrapper::new(
                    data_proxy,
                    DecoratorNode::SubTree(SubTree::new(id.clone())),
                    inner_node,
                )),
                None => None,
            }
        } else {
            None
        }
    }

    /// Builds the action leaf `name` stands for: the built-in
    /// `SetBlackboard`, or the first registered pattern that matches the
    /// name, constructing through [`ActionNodeImpl::construct`].
    pub fn build_action<A: ActionNodeImpl>(
        &self,
        name: &str,
        data_proxy: DataProxy,
        attrs: Vec<(String, String)>,
    ) -> (r: Option<TreeNodeWrapper<A>>)
        ensures
            name@ != "SetBlackboard"@ && (forall|i: int|
                0 <= i < self.action_node_tcs@.len() ==> !spec_regex_match(
                    regex_pattern_of(#[trigger] self.action_node_tcs@[i].regex),
                    name@,
                )) ==> r is None,
            name@ == "SetBlackboard"@ ==> r is Some,
            r matches Some(t) ==> t.node_wrapper is Action,
            r matches Some(t) ==> (name@ == "SetBlackboard"@ || exists|i: int|
                0 <= i < self.action_node_tcs@.len() && spec_regex_match(
                    regex_pattern_of(#[trigger] self.action_node_tcs@[i].regex),
                    name@,
                )),
            r matches Some(t) ==> (name@ == "SetBlackboard"@ ==> (
                t.node_wrapper matches NodeWrapper::Action(a) && a.node is SetBlackboard)),
            r matches Some(t) ==> t.proxy().status == data_proxy.status && t.proxy().uid
                == data_proxy.uid && t.proxy().full_path == data_proxy.full_path
                && t.proxy().scope == data_proxy.scope && t.proxy().notif_log
                == data_proxy.notif_log && t.proxy().last_ts == data_proxy.last_ts
                && t.proxy().tick_trace == data_proxy.tick_trace,
            r matches Some(t) ==> (forall|q: Seq<char>|
                spec_find_str(#[trigger] t.proxy().input_ports@, q) == (match spec_remap_of(
                    attrs@,
                    q,
                ) {
                    Some(v) => Some(v),
                    None => spec_find_str(data_proxy.input_ports@, q),
                })),
    {
        let mut data_proxy = data_proxy;
        apply_attrs(&mut data_proxy, &attrs);
        if str_eq(name, "SetBlackboard") {
            return Some(TreeNodeWrapper::new(
                NodeWrapper::Action(ActionWrapper::new(
                    data_proxy,
                    ActionNode::SetBlackboard(SetBlackboard),
                )),
            ));
        }
        match first_match(&self.action_node_tcs, name) {
            Some(_i) => {
                match A::construct(name, &attrs) {
                    Some(a) => Some(TreeNodeWrapper::new(
                        NodeWrapper::Action(ActionWrapper::new(data_proxy, ActionNode::User(a))),
                    )),
                    None => None,
                }
            },
            None => None,
        }
    }
}

/// The first registered pattern matching `name`, if any.
fn first_match(tcs: &Vec<ActionRegex>, name: &str) -> (r: Option<usize>)
    ensures
        r matches Some(i) ==> i < tcs@.len() && spec_regex_match(
            regex_pattern_of(tcs@[i as int].regex),
            name@,
        ),
        r is None ==> forall|j: int|
            0 <= j < tcs@.len() ==> !spec_regex_match(
                regex_pattern_of(#[trigger] tcs@[j].regex),
                name@,
            ),
{
    let n = tcs.len();
    let mut i: usize = 0;
    while i < n
        invariant
            n == tcs@.len(),
            i <= n,
            forall|j: int|
                0 <= j < i ==> !spec_regex_match(
                    regex_pattern_of(#[trigger] tcs@[j].regex),
                    name@,
                ),
        decreases n - i,
    {
        if tcs[i].is_match(name) {
            return Some(i);
        }
        i = i + 1;
    }
    None
}

impl Default for Factory {
    /// A factory with the built-in node types; the built-in action pattern
    /// matching exactly `SetBlackboard` is recognized directly.
    fn default() -> (r: Factory)
        ensures
            r.action_node_tcs@.len() == 0,
    {
        Factory { action_node_tcs: Vec::new() }
    }
}

} // verus!
