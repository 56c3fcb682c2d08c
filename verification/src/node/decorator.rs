//! Decorator nodes: ForceSuccess, ForceFailure, Inverter, Repeat, Retry and
//! SubTree, with the wrapper that runs the tick lifecycle around them.
//!
//! Each kind's decision over the statuses it observes from its inner node
//! is captured by a spec function; the tick implementations return the
//! observed statuses as a ghost sequence and are proved to decide exactly
//! as the spec functions say.  An inner node that reports `Idle` is treated
//! as failed, the same defensive policy the composites follow.

use vstd::prelude::*;
use crate::NodeStatus;
use crate::blackboard::Blackboards;
use crate::node::{spec_get_input_usize, DataProxy};
use crate::node::action::ActionNodeImpl;
use crate::tree::{of_decorator, same_framework, lemma_same_framework_refl, TreeNodeWrapper};

verus! {

/// Turns any completed inner status into `Success`.
pub struct ForceSuccess;

/// Turns any completed inner status into `Failure`.
pub struct ForceFailure;

/// Swaps `Success` and `Failure`.
pub struct Inverter;

/// Repeats its inner node `num_cycles` times, returning the last completed
/// status; `repeat_count` counts the completions so far.
pub struct Repeat {
    pub repeat_count: usize,
}

/// Re-ticks a failing inner node up to `num_attempts` times within one
/// tick; `try_count` counts the failures consumed so far.
pub struct Retry {
    pub try_count: usize,
}

/// An identity decorator marking the border of a subtree scope.
pub struct SubTree {
    pub id: String,
}

impl SubTree {
    /// A subtree border referring to the tree named `id`.
    pub fn new(id: String) -> (r: SubTree)
        ensures
            r.id == id,
    {
        SubTree { id }
    }
}

/// The kind of a decorator node.
pub enum DecoratorNode {
    ForceSuccess(ForceSuccess),
    ForceFailure(ForceFailure),
    Inverter(Inverter),
    Repeat(Repeat),
    Retry(Retry),
    SubTree(SubTree),
}

/// A decorator node together with its per-node data and inner node.
pub struct DecoratorWrapper<A> {
    pub data_proxy: DataProxy,
    pub node_impl: DecoratorNode,
    pub inner_node: Box<TreeNodeWrapper<A>>,
}

/// A one-element observation sequence.
pub open spec fn one_obs(s: NodeStatus) -> Seq<NodeStatus> {
    seq![s]
}

/// What ForceSuccess returns for an inner status.
pub open spec fn force_success_result(s: NodeStatus) -> NodeStatus {
    if s == NodeStatus::Running {
        NodeStatus::Running
    } else {
        NodeStatus::Success
    }
}

/// What ForceFailure returns for an inner status.
pub open spec fn force_failure_result(s: NodeStatus) -> NodeStatus {
    if s == NodeStatus::Running {
        NodeStatus::Running
    } else {
        NodeStatus::Failure
    }
}

/// What Inverter returns for an inner status.
pub open spec fn invert_status(s: NodeStatus) -> NodeStatus {
    match s {
        NodeStatus::Running => NodeStatus::Running,
        NodeStatus::Success => NodeStatus::Failure,
        NodeStatus::Failure => NodeStatus::Success,
        NodeStatus::Idle => NodeStatus::Failure,
    }
}

/// What SubTree returns for an inner status: the status itself, except
/// that an idle inner node counts as failed.
pub open spec fn subtree_result(s: NodeStatus) -> NodeStatus {
    if s == NodeStatus::Idle {
        NodeStatus::Failure
    } else {
        s
    }
}

/// What Repeat returns when its inner node reports `s` during the cycle
/// numbered `count` out of `cycles`.
pub open spec fn repeat_result(count: int, cycles: int, s: NodeStatus) -> NodeStatus {
    match s {
        NodeStatus::Success | NodeStatus::Failure => if count + 1 >= cycles {
            s
        } else {
            NodeStatus::Running
        },
        NodeStatus::Running => NodeStatus::Running,
        NodeStatus::Idle => NodeStatus::Failure,
    }
}

/// The retry scan state: the decision reached, if any, and the number of
/// attempts consumed so far.
pub struct RetryScan {
    pub decided: Option<NodeStatus>,
    pub tries: int,
}

/// Folds the statuses a Retry observes within one tick: every failure
/// consumes one attempt, anything else decides.
pub open spec fn retry_scan(obs: Seq<NodeStatus>, t0: int) -> RetryScan
    decreases obs.len(),
{
    if obs.len() == 0 {
        RetryScan { decided: None, tries: t0 }
    } else {
        let p = retry_scan(obs.drop_last(), t0);
        if p.decided is Some {
            p
        } else {
            match obs.last() {
                NodeStatus::Idle => RetryScan { decided: Some(NodeStatus::Failure), ..p },
                NodeStatus::Running => RetryScan { decided: Some(NodeStatus::Running), ..p },
                NodeStatus::Success => RetryScan { decided: Some(NodeStatus::Success), ..p },
                NodeStatus::Failure => RetryScan { decided: None, tries: p.tries + 1 },
            }
        }
    }
}

/// What a Retry tick returns after observing `obs`: the decision reached,
/// else `Failure` once the attempts budget is spent.
pub open spec fn retry_result(obs: Seq<NodeStatus>, t0: int) -> NodeStatus {
    match retry_scan(obs, t0).decided {
        Some(d) => d,
        None => NodeStatus::Failure,
    }
}

/// The `num_cycles` port of a Repeat, defaulting to one.
pub open spec fn spec_num_cycles(proxy: DataProxy, bb: Blackboards) -> int {
    match spec_get_input_usize(proxy.input_ports@, bb, proxy.scope as int, "num_cycles"@) {
        Some(v) => v as int,
        None => 1,
    }
}

/// The `num_attempts` port of a Retry, defaulting to one.
pub open spec fn spec_num_attempts(proxy: DataProxy, bb: Blackboards) -> int {
    match spec_get_input_usize(proxy.input_ports@, bb, proxy.scope as int, "num_attempts"@) {
        Some(v) => v as int,
        None => 1,
    }
}

/// What one decorator tick returns, per kind, after observing the inner
/// statuses `obs`, with the blackboard as it stood when the tick began.
pub open spec fn decorator_result<A>(
    pre: DecoratorWrapper<A>,
    bb0: Blackboards,
    obs: Seq<NodeStatus>,
) -> NodeStatus {
    match pre.node_impl {
        DecoratorNode::ForceSuccess(_) => force_success_result(obs[0]),
        DecoratorNode::ForceFailure(_) => force_failure_result(obs[0]),
        DecoratorNode::Inverter(_) => invert_status(obs[0]),
        DecoratorNode::SubTree(_) => subtree_result(obs[0]),
        DecoratorNode::Repeat(r) => {
            let n = spec_num_cycles(pre.data_proxy, bb0);
            if n == 0 {
                NodeStatus::Success
            } else {
                repeat_result(r.repeat_count as int, n, obs[0])
            }
        },
        DecoratorNode::Retry(r) => retry_result(obs, r.try_count as int),
    }
}

/// The decorator's inner node was consulted exactly for the observed
/// statuses: its trace grew by them.
pub open spec fn decorator_inner_trace<A>(
    d0: DecoratorWrapper<A>,
    d1: DecoratorWrapper<A>,
    obs: Seq<NodeStatus>,
) -> bool {
    (*d1.inner_node).proxy().tick_trace@ == (*d0.inner_node).proxy().tick_trace@ + obs
}

/// Inverter involution: inverting twice gives back any completed status.
pub proof fn lemma_inverter_involution(s: NodeStatus)
    requires
        s == NodeStatus::Success || s == NodeStatus::Failure,
    ensures
        invert_status(invert_status(s)) == s,
{
}

/// Repeat cardinality: with `num_cycles = n` around an always-succeeding
/// node, each of the first `n - 1` completions leaves the repeat running,
/// and the `n`-th returns `Success`.
pub proof fn lemma_repeat_cardinality(n: int, i: int)
    requires
        1 <= n,
        0 <= i < n,
    ensures
        i < n - 1 ==> repeat_result(i, n, NodeStatus::Success) == NodeStatus::Running,
        i == n - 1 ==> repeat_result(i, n, NodeStatus::Success) == NodeStatus::Success,
{
}

/// A run of failures only consumes attempts, deciding nothing.
proof fn lemma_retry_all_failures(obs: Seq<NodeStatus>, t0: int)
    requires
        forall|k: int| 0 <= k < obs.len() ==> #[trigger] obs[k] == NodeStatus::Failure,
    ensures
        retry_scan(obs, t0).decided is None,
        retry_scan(obs, t0).tries == t0 + obs.len(),
    decreases obs.len(),
{
    if obs.len() > 0 {
        let pre = obs.drop_last();
        assert(forall|k: int| 0 <= k < pre.len() ==> pre[k] == #[trigger] obs[k]);
        lemma_retry_all_failures(pre, t0);
        assert(obs.last() == obs[obs.len() - 1]);
    }
}

/// Retry bound: a retry that observes exactly `n` failures returns
/// `Failure`; together with the tick contract this says a retry with
/// `num_attempts = n` around an always-failing node issues exactly `n`
/// inner ticks and then fails.
pub proof fn lemma_retry_bound(obs: Seq<NodeStatus>, n: int)
    requires
        forall|k: int| 0 <= k < obs.len() ==> #[trigger] obs[k] == NodeStatus::Failure,
        obs.len() == n,
    ensures
        retry_result(obs, 0) == NodeStatus::Failure,
{
    lemma_retry_all_failures(obs, 0);
}

impl Repeat {
    /// Clears the completion counter.
    pub fn reset_state(&mut self)
        ensures
            final(self).repeat_count == 0,
            old(self).repeat_count == 0 ==> *final(self) == *old(self),
    {
        self.repeat_count = 0;
    }
}

impl Retry {
    /// Clears the attempt counter.
    pub fn reset_state(&mut self)
        ensures
            final(self).try_count == 0,
            old(self).try_count == 0 ==> *final(self) == *old(self),
    {
        self.try_count = 0;
    }
}

impl<A: ActionNodeImpl> DecoratorWrapper<A> {
    /// Wraps an inner node behind a decorator.
    pub fn new(data_proxy: DataProxy, node_impl: DecoratorNode, inner_node: TreeNodeWrapper<A>)
        -> (r: DecoratorWrapper<A>)
        ensures
            r.data_proxy == data_proxy,
            r.node_impl == node_impl,
            *r.inner_node == inner_node,
    {
        DecoratorWrapper { data_proxy, node_impl, inner_node: Box::new(inner_node) }
    }

    /// Halts the inner node if it is running and returns it to `Idle`.
    pub fn reset_inner(&mut self)
        requires
            (*old(self).inner_node).wf(),
        ensures
            final(self).data_proxy == old(self).data_proxy,
            final(self).node_impl == old(self).node_impl,
            (*final(self).inner_node).wf(),
            (*final(self).inner_node).subtree_idle(),
            (*final(self).inner_node).height() == (*old(self).inner_node).height(),
            forall|n: int|
                (*old(self).inner_node).scopes_lt(n) ==> #[trigger] (*final(self).inner_node).scopes_lt(n),
            (*old(self).inner_node).subtree_idle() ==> *final(self).inner_node == *old(self).inner_node,
            (*final(self).inner_node).proxy().tick_trace == (*old(self).inner_node).proxy().tick_trace,
            (*final(self).inner_node).proxy().uid == (*old(self).inner_node).proxy().uid,
            (*final(self).inner_node).proxy().full_path == (*old(self).inner_node).proxy().full_path,
            (*final(self).inner_node).proxy().scope == (*old(self).inner_node).proxy().scope,
            (*final(self).inner_node).proxy().input_ports == (*old(self).inner_node).proxy().input_ports,
        decreases of_decorator(*old(self)).height(), 0int,
    {
        if self.inner_node.status() == NodeStatus::Running {
            self.inner_node.halt();
        }
        self.inner_node.reset_status();
    }

    /// One tick: mark the node running on its first tick, run the kind's
    /// logic around the inner node, halt the subtree on completion, and
    /// record the result.  The observed inner statuses come back as a
    /// ghost sequence that the result provably follows.
    pub fn tick(&mut self, bb: &mut Blackboards) -> (res: (NodeStatus, Ghost<Seq<NodeStatus>>))
        requires
            of_decorator(*old(self)).wf(),
            old(bb).wf(),
            of_decorator(*old(self)).scopes_lt(old(bb).n_scopes()),
        ensures
            of_decorator(*final(self)).wf(),
            final(bb).wf(),
            final(bb).n_scopes() >= old(bb).n_scopes(),
            of_decorator(*final(self)).scopes_lt(final(bb).n_scopes()),
            of_decorator(*final(self)).height() == of_decorator(*old(self)).height(),
            res.0 == final(self).data_proxy.status,
            res.0 != NodeStatus::Idle,
            res.0 == NodeStatus::Success || res.0 == NodeStatus::Failure ==> of_decorator(
                *final(self),
            ).halted_below(),
            res.0 == decorator_result(*old(self), *old(bb), res.1@),
            final(self).data_proxy.tick_trace@ == old(self).data_proxy.tick_trace@.push(res.0),
            (*final(self).inner_node).proxy().tick_trace@ == (*old(self).inner_node).proxy().tick_trace@ + res.1@,
            (match old(self).node_impl {
                DecoratorNode::Repeat(_) => (spec_num_cycles(old(self).data_proxy, *old(bb)) == 0
                    ==> res.1@.len() == 0) && (spec_num_cycles(old(self).data_proxy, *old(bb)) != 0
                    ==> res.1@.len() == 1),
                DecoratorNode::Retry(t) => (forall|k: int|
                    0 <= k < res.1@.len() ==> #[trigger] res.1@[k] == NodeStatus::Failure) ==> res.1@.len()
                    == (if spec_num_attempts(old(self).data_proxy, *old(bb)) >= t.try_count as int {
                        spec_num_attempts(old(self).data_proxy, *old(bb)) - t.try_count as int
                    } else {
                        0
                    }),
                _ => res.1@.len() == 1,
            }),
        decreases of_decorator(*old(self)).height(), 2int,
    {
        if self.data_proxy.status() == NodeStatus::Idle {
            self.data_proxy.set_status(NodeStatus::Running);
        }
        let res = match &mut self.node_impl {
            DecoratorNode::ForceSuccess(_) => {
                let s = self.inner_node.tick(bb);
                proof {
                    assert((*self.inner_node).proxy().tick_trace@ =~= (*old(self).inner_node).proxy().tick_trace@ + one_obs(s));
                }
                let r = if s == NodeStatus::Running {
                    NodeStatus::Running
                } else {
                    NodeStatus::Success
                };
                (r, Ghost(one_obs(s)))
            },
            DecoratorNode::ForceFailure(_) => {
                let s = self.inner_node.tick(bb);
                proof {
                    assert((*self.inner_node).proxy().tick_trace@ =~= (*old(self).inner_node).proxy().tick_trace@ + one_obs(s));
                }
                let r = if s == NodeStatus::Running {
                    NodeStatus::Running
                } else {
                    NodeStatus::Failure
                };
                (r, Ghost(one_obs(s)))
            },
            DecoratorNode::Inverter(_) => {
                let s = self.inner_node.tick(bb);
                proof {
                    assert((*self.inner_node).proxy().tick_trace@ =~= (*old(self).inner_node).proxy().tick_trace@ + one_obs(s));
                }
                let r = match s {
                    NodeStatus::Running => NodeStatus::Running,
                    NodeStatus::Success => NodeStatus::Failure,
                    NodeStatus::Failure => NodeStatus::Success,
                    NodeStatus::Idle => NodeStatus::Failure,
                };
                (r, Ghost(one_obs(s)))
            },
            DecoratorNode::SubTree(_) => {
                let s = self.inner_node.tick(bb);
                proof {
                    assert((*self.inner_node).proxy().tick_trace@ =~= (*old(self).inner_node).proxy().tick_trace@ + one_obs(s));
                }
                let r = if s == NodeStatus::Idle {
                    NodeStatus::Failure
                } else {
                    s
                };
                (r, Ghost(one_obs(s)))
            },
            DecoratorNode::Repeat(d) => d.tick_status(
                &self.data_proxy,
                &mut self.inner_node,
                bb,
            ),
            DecoratorNode::Retry(d) => d.tick_status(&self.data_proxy, &mut self.inner_node, bb),
        };
        let ghost bbn = bb.n_scopes();
        proof {
            assert(self.data_proxy.scope < bbn);
            assert(of_decorator(*self).scopes_lt(bbn));
        }
        let tick_status = res.0;
        if tick_status.is_completed() {
            self.halt();
            proof {
                assert(of_decorator(*self).scopes_lt(bbn));
            }
        }
        self.data_proxy.set_status(tick_status);
        proof {
            self.data_proxy.tick_trace@ = self.data_proxy.tick_trace@.push(tick_status);
            assert(self.data_proxy.scope < bbn);
            assert((*self.inner_node).scopes_lt(bbn));
            assert(of_decorator(*self).scopes_lt(bb.n_scopes()));
        }
        (tick_status, res.1)
    }

    /// Cancels the subtree: the kind state is reset and the inner node is
    /// returned to `Idle`.
    pub fn halt(&mut self)
        requires
            old(self).data_proxy.wf(),
            (*old(self).inner_node).wf(),
        ensures
            final(self).data_proxy == old(self).data_proxy,
            of_decorator(*final(self)).wf(),
            of_decorator(*final(self)).halted_below(),
            of_decorator(*final(self)).height() == of_decorator(*old(self)).height(),
            forall|n: int|
                of_decorator(*old(self)).scopes_lt(n) ==> #[trigger] of_decorator(
                    *final(self),
                ).scopes_lt(n),
            of_decorator(*old(self)).halted_below() ==> same_framework(
                of_decorator(*old(self)),
                of_decorator(*final(self)),
            ),
            (*final(self).inner_node).proxy().tick_trace == (*old(self).inner_node).proxy().tick_trace,
        decreases of_decorator(*old(self)).height(), 1int,
    {
        match &mut self.node_impl {
            DecoratorNode::Repeat(r) => r.reset_state(),
            DecoratorNode::Retry(r) => r.reset_state(),
            DecoratorNode::ForceSuccess(_) => {},
            DecoratorNode::ForceFailure(_) => {},
            DecoratorNode::Inverter(_) => {},
            DecoratorNode::SubTree(_) => {},
        }
        self.reset_inner();
        proof {
            assert forall|n: int| of_decorator(*old(self)).scopes_lt(n) implies #[trigger] of_decorator(
                *self,
            ).scopes_lt(n) by {
                assert((*old(self).inner_node).scopes_lt(n));
                assert((*self.inner_node).scopes_lt(n));
                assert(self.data_proxy.scope < n);
            }
            if of_decorator(*old(self)).halted_below() {
                lemma_same_framework_refl(*self.inner_node);
            }
        }
    }
}

impl Repeat {
    /// One Repeat tick: with a zero `num_cycles` port, succeed without
    /// ticking; otherwise tick the inner node once and either pass a
    /// running status through, count a completion, or return the final
    /// completed status on the last cycle.
    pub fn tick_status<A: ActionNodeImpl>(
        &mut self,
        data_proxy: &DataProxy,
        inner: &mut Box<TreeNodeWrapper<A>>,
        bb: &mut Blackboards,
    ) -> (res: (NodeStatus, Ghost<Seq<NodeStatus>>))
        requires
            (*old(inner)).wf(),
            (*old(inner)).scopes_lt(old(bb).n_scopes()),
            old(bb).wf(),
            data_proxy.scope < old(bb).n_scopes(),
        ensures
            final(bb).wf(),
            final(bb).n_scopes() >= old(bb).n_scopes(),
            (*final(inner)).wf(),
            (*final(inner)).scopes_lt(final(bb).n_scopes()),
            (*final(inner)).height() == (*old(inner)).height(),
            ({
                let n = spec_num_cycles(*data_proxy, *old(bb));
                if n == 0 {
                    res.0 == NodeStatus::Success && res.1@.len() == 0
                } else {
                    res.1@.len() == 1 && res.0 == repeat_result(
                        old(self).repeat_count as int,
                        n,
                        res.1@[0],
                    )
                }
            }),
            (*final(inner)).proxy().tick_trace@ == (*old(inner)).proxy().tick_trace@ + res.1@,
            res.1@.len() > 0 ==> (*final(inner)).spec_status() == res.1@.last(),
            spec_num_cycles(*data_proxy, *old(bb)) == 0 ==> *final(inner) == *old(inner)
                && *final(bb) == *old(bb),
            ({
                let n = spec_num_cycles(*data_proxy, *old(bb));
                n != 0 ==> final(self).repeat_count as int == (if (res.1@[0] == NodeStatus::Success
                    || res.1@[0] == NodeStatus::Failure) && old(self).repeat_count as int + 1 < n {
                    old(self).repeat_count as int + 1
                } else {
                    old(self).repeat_count as int
                })
            }),
            res.0 != NodeStatus::Idle,
        decreases 1 + (*old(inner)).height(), 1int,
    {
        let num_cycles = match data_proxy.get_input_usize(bb, "num_cycles") {
            Some(v) => v,
            None => 1,
        };
        if num_cycles == 0 {
            proof {
                assert((*inner).proxy().tick_trace@ =~= (*inner).proxy().tick_trace@
                    + Seq::<NodeStatus>::empty());
            }
            return (NodeStatus::Success, Ghost(Seq::empty()));
        }
        let s = inner.tick(bb);
        proof {
            assert((*inner).proxy().tick_trace@ =~= (*old(inner)).proxy().tick_trace@ + one_obs(
                s,
            ));
        }
        match s {
            NodeStatus::Success | NodeStatus::Failure => {
                if self.repeat_count >= num_cycles - 1 {
                    (s, Ghost(one_obs(s)))
                } else {
                    self.repeat_count = self.repeat_count + 1;
                    (NodeStatus::Running, Ghost(one_obs(s)))
                }
            },
            NodeStatus::Running => (NodeStatus::Running, Ghost(one_obs(s))),
            NodeStatus::Idle => (NodeStatus::Failure, Ghost(one_obs(s))),
        }
    }
}

impl Retry {
    /// One Retry tick: re-tick a failing inner node until the attempts
    /// budget from the `num_attempts` port is spent, passing any running
    /// or successful status straight through.
    pub fn tick_status<A: ActionNodeImpl>(
        &mut self,
        data_proxy: &DataProxy,
        inner: &mut Box<TreeNodeWrapper<A>>,
        bb: &mut Blackboards,
    ) -> (res: (NodeStatus, Ghost<Seq<NodeStatus>>))
        requires
            (*old(inner)).wf(),
            (*old(inner)).scopes_lt(old(bb).n_scopes()),
            old(bb).wf(),
            data_proxy.scope < old(bb).n_scopes(),
        ensures
            final(bb).wf(),
            final(bb).n_scopes() >= old(bb).n_scopes(),
            (*final(inner)).wf(),
            (*final(inner)).scopes_lt(final(bb).n_scopes()),
            (*final(inner)).height() == (*old(inner)).height(),
            res.0 == retry_result(res.1@, old(self).try_count as int),
            ((forall|k: int| 0 <= k < res.1@.len() ==> #[trigger] res.1@[k] == NodeStatus::Failure)
                ==> res.1@.len() == (if spec_num_attempts(*data_proxy, *old(bb)) >= old(self).try_count as int {
                spec_num_attempts(*data_proxy, *old(bb)) - old(self).try_count as int
            } else {
                0
            })),
            (*final(inner)).proxy().tick_trace@ == (*old(inner)).proxy().tick_trace@ + res.1@,
            res.1@.len() > 0 ==> (*final(inner)).spec_status() == res.1@.last(),
            spec_num_attempts(*data_proxy, *old(bb)) <= old(self).try_count as int ==> res.1@.len()
                == 0 && *final(inner) == *old(inner),
            final(self).try_count as int == old(self).try_count as int + crate::node::composite::count_eq(
                res.1@,
                NodeStatus::Failure,
            ),
            res.0 != NodeStatus::Idle,
        decreases 1 + (*old(inner)).height(), 1int,
    {
        let num_attempts = match data_proxy.get_input_usize(bb, "num_attempts") {
            Some(v) => v,
            None => 1,
        };
        let ghost t0 = self.try_count;
        let ghost init_scopes = old(bb).n_scopes();
        let mut obs: Ghost<Seq<NodeStatus>> = Ghost(Seq::empty());
        proof {
            assert((*inner).proxy().tick_trace@ =~= (*inner).proxy().tick_trace@
                + Seq::<NodeStatus>::empty());
        }
        while self.try_count < num_attempts
            invariant
                bb.wf(),
                bb.n_scopes() >= init_scopes,
                init_scopes == old(bb).n_scopes(),
                (*inner).wf(),
                (*inner).scopes_lt(bb.n_scopes()),
                (*inner).height() == (*old(inner)).height(),
                t0 == old(self).try_count,
                t0 <= self.try_count,
                self.try_count <= num_attempts || self.try_count == t0,
                num_attempts as int == spec_num_attempts(*data_proxy, *old(bb)),
                retry_scan(obs@, t0 as int) == (RetryScan {
                    decided: None,
                    tries: self.try_count as int,
                }),
                (forall|k: int|
                    0 <= k < obs@.len() ==> #[trigger] obs@[k] == NodeStatus::Failure),
                obs@.len() == self.try_count - t0,
                (*inner).proxy().tick_trace@ == (*old(inner)).proxy().tick_trace@ + obs@,
                crate::node::composite::count_eq(obs@, NodeStatus::Failure) == obs@.len(),
                obs@.len() > 0 ==> (*inner).spec_status() == NodeStatus::Failure,
                obs@.len() == 0 ==> *inner == *old(inner),
            decreases num_attempts - self.try_count,
        {
            let ghost pre_obs = obs@;
            let s = inner.tick(bb);
            proof {
                obs@ = pre_obs.push(s);
                assert(obs@.drop_last() =~= pre_obs);
                assert(obs@.last() == s);
                assert((*inner).proxy().tick_trace@ =~= (*old(inner)).proxy().tick_trace@ + obs@);
            }
            match s {
                NodeStatus::Idle => {
                    return (NodeStatus::Failure, obs);
                },
                NodeStatus::Running => {
                    return (NodeStatus::Running, obs);
                },
                NodeStatus::Success => {
                    return (NodeStatus::Success, obs);
                },
                NodeStatus::Failure => {
                    self.try_count = self.try_count + 1;
                },
            }
        }
        (NodeStatus::Failure, obs)
    }
}

} // verus!
