//! Composite nodes: Sequence, Fallback (Selector) and Parallel, with the
//! wrapper that runs the tick lifecycle around them.
//!
//! Each kind's per-tick decision over the statuses it observes from its
//! children is captured by a spec function (`sequence_result`,
//! `fallback_result`, `parallel_result`); the tick implementations return
//! the observed statuses as a ghost sequence and are proved to decide
//! exactly as the spec functions say.

use vstd::prelude::*;
use crate::NodeStatus;
use crate::blackboard::Blackboards;
use crate::node::{spec_get_input_usize, DataProxy};
use crate::node::action::ActionNodeImpl;
use crate::text::vec_index_mut;
use crate::tree::{
    lemma_child_height_le, lemma_max_height_congruent, lemma_scopes_lt_mono, max_child_height,
    of_composite, same_framework, lemma_same_framework_refl, TreeNodeWrapper,
};

verus! {

/// Ticks children in order; fails on the first failure, succeeds when all
/// children have succeeded.  Resumes at `current_child_idx`.
pub struct Sequence {
    pub current_child_idx: usize,
}

/// Ticks children in order; succeeds on the first success, fails when all
/// children have failed.  Resumes at `current_child_idx`.
pub struct Selector {
    pub current_child_idx: usize,
}

/// Ticks all children each cycle, skipping those already completed, until
/// enough successes or failures have been counted.
pub struct Parallel {
    pub success_count: usize,
    pub failure_count: usize,
    pub completed_list: Vec<bool>,
}

/// The kind of a composite node.
pub enum CompositeNode {
    Sequence(Sequence),
    Parallel(Parallel),
    Selector(Selector),
}

/// A composite node together with its per-node data and children.
pub struct CompositeWrapper<A> {
    pub data_proxy: DataProxy,
    pub node_impl: CompositeNode,
    pub child_nodes: Vec<TreeNodeWrapper<A>>,
}

/// The port naming the parallel success threshold.
pub open spec fn spec_success_port() -> Seq<char> {
    "success_count"@
}

/// The port naming the parallel failure threshold.
pub open spec fn spec_failure_port() -> Seq<char> {
    "failure_count"@
}

/// How many of the first `i` entries are true.
pub open spec fn count_trues(s: Seq<bool>, i: int) -> int
    decreases i,
{
    if i <= 0 {
        0
    } else {
        count_trues(s, i - 1) + if s[i - 1] {
            1int
        } else {
            0int
        }
    }
}

proof fn lemma_count_trues_le(s: Seq<bool>, i: int)
    requires
        0 <= i,
    ensures
        0 <= count_trues(s, i) <= i,
    decreases i,
{
    if i > 0 {
        lemma_count_trues_le(s, i - 1);
    }
}

proof fn lemma_count_trues_lt_if_false(s: Seq<bool>, i: int, j: int)
    requires
        0 <= j < i,
        !s[j],
    ensures
        count_trues(s, i) < i,
    decreases i,
{
    if j == i - 1 {
        lemma_count_trues_le(s, i - 1);
    } else {
        lemma_count_trues_lt_if_false(s, i - 1, j);
    }
}

proof fn lemma_count_trues_update(s: Seq<bool>, i: int, j: int)
    requires
        0 <= j < i <= s.len(),
        !s[j],
    ensures
        count_trues(s.update(j, true), i) == count_trues(s, i) + 1,
    decreases i,
{
    if j == i - 1 {
        lemma_count_trues_congruent(s.update(j, true), s, i - 1);
    } else {
        lemma_count_trues_update(s, i - 1, j);
    }
}

proof fn lemma_count_trues_congruent(s1: Seq<bool>, s2: Seq<bool>, i: int)
    requires
        forall|k: int| 0 <= k < i ==> s1[k] == s2[k],
    ensures
        count_trues(s1, i) == count_trues(s2, i),
    decreases i,
{
    if i > 0 {
        lemma_count_trues_congruent(s1, s2, i - 1);
    }
}

/// The first decision a sequence reaches while consuming child statuses:
/// a `Running` child suspends it, a failed (or idle) child fails it, a
/// successful child lets it continue.
pub open spec fn sequence_scan(obs: Seq<NodeStatus>) -> Option<NodeStatus>
    decreases obs.len(),
{
    if obs.len() == 0 {
        None
    } else {
        match sequence_scan(obs.drop_last()) {
            Some(d) => Some(d),
            None => match obs.last() {
                NodeStatus::Success => None,
                NodeStatus::Running => Some(NodeStatus::Running),
                _ => Some(NodeStatus::Failure),
            },
        }
    }
}

/// What a sequence tick returns after observing `obs`: its first decision,
/// or `Success` when every observed child succeeded.
pub open spec fn sequence_result(obs: Seq<NodeStatus>) -> NodeStatus {
    match sequence_scan(obs) {
        Some(d) => d,
        None => NodeStatus::Success,
    }
}

/// As [`sequence_scan`], with the roles of success and failure exchanged.
pub open spec fn fallback_scan(obs: Seq<NodeStatus>) -> Option<NodeStatus>
    decreases obs.len(),
{
    if obs.len() == 0 {
        None
    } else {
        match fallback_scan(obs.drop_last()) {
            Some(d) => Some(d),
            None => match obs.last() {
                NodeStatus::Failure => None,
                NodeStatus::Running => Some(NodeStatus::Running),
                NodeStatus::Success => Some(NodeStatus::Success),
                NodeStatus::Idle => Some(NodeStatus::Failure),
            },
        }
    }
}

/// What a fallback tick returns after observing `obs`: its first decision,
/// or `Failure` when every observed child failed.
pub open spec fn fallback_result(obs: Seq<NodeStatus>) -> NodeStatus {
    match fallback_scan(obs) {
        Some(d) => d,
        None => NodeStatus::Failure,
    }
}

/// The parallel scan state: the decision reached, if any, and the success
/// and failure tallies so far.
pub struct ParScan {
    pub decided: Option<NodeStatus>,
    pub successes: int,
    pub failures: int,
}

/// Folds child statuses into the parallel node's tallies, deciding as soon
/// as a tally reaches its threshold.
pub open spec fn par_scan(obs: Seq<NodeStatus>, s0: int, f0: int, st: int, ft: int) -> ParScan
    decreases obs.len(),
{
    if obs.len() == 0 {
        ParScan { decided: None, successes: s0, failures: f0 }
    } else {
        let p = par_scan(obs.drop_last(), s0, f0, st, ft);
        if p.decided is Some {
            p
        } else {
            match obs.last() {
                NodeStatus::Idle => ParScan { decided: Some(NodeStatus::Failure), ..p },
                NodeStatus::Running => p,
                NodeStatus::Success => {
                    let s1 = p.successes + 1;
                    if s1 >= st {
                        ParScan { decided: Some(NodeStatus::Success), successes: s1, ..p }
                    } else if p.failures >= ft {
                        ParScan { decided: Some(NodeStatus::Failure), successes: s1, ..p }
                    } else {
                        ParScan { decided: None, successes: s1, ..p }
                    }
                },
                NodeStatus::Failure => {
                    let f1 = p.failures + 1;
                    if p.successes >= st {
                        ParScan { decided: Some(NodeStatus::Success), failures: f1, ..p }
                    } else if f1 >= ft {
                        ParScan { decided: Some(NodeStatus::Failure), failures: f1, ..p }
                    } else {
                        ParScan { decided: None, failures: f1, ..p }
                    }
                },
            }
        }
    }
}

/// What a parallel tick returns after observing `obs`: the decision the
/// scan reached, else `Running`.
pub open spec fn parallel_result(
    obs: Seq<NodeStatus>,
    s0: int,
    f0: int,
    st: int,
    ft: int,
) -> NodeStatus {
    match par_scan(obs, s0, f0, st, ft).decided {
        Some(d) => d,
        None => NodeStatus::Running,
    }
}


/// Scope `j` is one of the consulted indices.
pub open spec fn idx_in(idxs: Seq<int>, j: int) -> bool {
    exists|k: int| 0 <= k < idxs.len() && idxs[k] == j
}

/// Whether `completed` (when sized for `n` children) marks child `j`.
pub open spec fn spec_completed_at(completed: Seq<bool>, n: int, j: int) -> bool {
    completed.len() == n && 0 <= j < n && completed[j]
}

/// A membership fact survives pushing one more index.
pub proof fn lemma_idx_in_push(idxs: Seq<int>, x: int, j: int)
    ensures
        idx_in(idxs.push(x), j) <==> (idx_in(idxs, j) || j == x),
{
    if idx_in(idxs, j) {
        let k = choose|k: int| 0 <= k < idxs.len() && idxs[k] == j;
        assert(idxs.push(x)[k] == j);
    }
    if j == x {
        assert(idxs.push(x)[idxs.len() as int] == j);
    }
    if idx_in(idxs.push(x), j) {
        let k = choose|k: int| 0 <= k < idxs.push(x).len() && idxs.push(x)[k] == j;
        if k < idxs.len() {
            assert(idxs[k] == j);
        }
    }
}

/// The children of a sequence-like composite were consulted contiguously
/// from `i0` on: each consulted child's trace grew by its observed status,
/// every other child's trace is untouched.
pub open spec fn contiguous_traces<A>(
    pre: Seq<TreeNodeWrapper<A>>,
    post: Seq<TreeNodeWrapper<A>>,
    i0: int,
    obs: Seq<NodeStatus>,
) -> bool {
    &&& post.len() == pre.len()
    &&& 0 <= i0
    &&& i0 + obs.len() <= pre.len()
    &&& forall|k: int|
        0 <= k < obs.len() ==> (#[trigger] post[i0 + k]).proxy().tick_trace@ == pre[i0
            + k].proxy().tick_trace@.push(obs[k])
    &&& forall|j: int|
        0 <= j < pre.len() && !(i0 <= j < i0 + obs.len()) ==> (#[trigger] post[j]).proxy().tick_trace@
            == pre[j].proxy().tick_trace@
}

/// The children of a parallel composite were consulted at the strictly
/// increasing indices `idxs`, skipping exactly the already-completed ones
/// below the stopping point: each consulted child's trace grew by its
/// observed status, every other child's trace is untouched.
pub open spec fn par_consulted<A>(
    pre: Seq<TreeNodeWrapper<A>>,
    post: Seq<TreeNodeWrapper<A>>,
    completed: Seq<bool>,
    idxs: Seq<int>,
    obs: Seq<NodeStatus>,
) -> bool {
    &&& post.len() == pre.len()
    &&& idxs.len() == obs.len()
    &&& forall|k: int|
        0 <= k < idxs.len() ==> 0 <= #[trigger] idxs[k] < pre.len() && !spec_completed_at(
            completed,
            pre.len() as int,
            idxs[k],
        )
    &&& forall|k1: int, k2: int|
        #![trigger idxs[k1], idxs[k2]]
        0 <= k1 < k2 < idxs.len() ==> idxs[k1] < idxs[k2]
    &&& forall|k: int|
        0 <= k < idxs.len() ==> (#[trigger] post[idxs[k]]).proxy().tick_trace@
            == pre[idxs[k]].proxy().tick_trace@.push(obs[k])
    &&& forall|j: int|
        0 <= j < pre.len() && !idx_in(idxs, j) ==> (#[trigger] post[j]).proxy().tick_trace@
            == pre[j].proxy().tick_trace@
    &&& forall|k: int, j: int|
        #![trigger idxs[k], spec_completed_at(completed, pre.len() as int, j)]
        0 <= k < idxs.len() && 0 <= j < idxs[k] && !spec_completed_at(completed, pre.len() as int, j)
            ==> idx_in(idxs, j)
}

/// What one composite tick did to its children, per kind: which children
/// were consulted and how each consulted child's trace grew.
pub open spec fn composite_children_traces<A>(
    pre: CompositeWrapper<A>,
    post_children: Seq<TreeNodeWrapper<A>>,
    obs: Seq<NodeStatus>,
    r: NodeStatus,
) -> bool {
    match pre.node_impl {
        CompositeNode::Sequence(s) => {
            &&& contiguous_traces(pre.child_nodes@, post_children, s.current_child_idx as int, obs)
            &&& forall|k: int| 0 <= k < obs.len() - 1 ==> #[trigger] obs[k] == NodeStatus::Success
            &&& (r == NodeStatus::Success ==> s.current_child_idx + obs.len()
                == pre.child_nodes@.len())
        },
        CompositeNode::Selector(s) => {
            &&& contiguous_traces(pre.child_nodes@, post_children, s.current_child_idx as int, obs)
            &&& forall|k: int| 0 <= k < obs.len() - 1 ==> #[trigger] obs[k] == NodeStatus::Failure
            &&& (r == NodeStatus::Failure && (obs.len() == 0 || obs.last() != NodeStatus::Idle)
                ==> s.current_child_idx + obs.len() == pre.child_nodes@.len())
        },
        CompositeNode::Parallel(p) => exists|idxs: Seq<int>|
            {
                &&& #[trigger] par_consulted(
                    pre.child_nodes@,
                    post_children,
                    p.completed_list@,
                    idxs,
                    obs,
                )
                &&& (r == NodeStatus::Running ==> forall|j: int|
                    0 <= j < pre.child_nodes@.len() && !spec_completed_at(
                        p.completed_list@,
                        pre.child_nodes@.len() as int,
                        j,
                    ) ==> idx_in(idxs, j))
            },
    }
}

/// A threshold port value, defaulting to the number of children.
pub open spec fn spec_threshold(
    proxy: DataProxy,
    bb: Blackboards,
    key: Seq<char>,
    dflt: int,
) -> int {
    match spec_get_input_usize(proxy.input_ports@, bb, proxy.scope as int, key) {
        Some(v) => v as int,
        None => dflt,
    }
}

/// What one composite tick returns, per kind, after observing the child
/// statuses `obs`, with the blackboard as it stood when the tick began.
pub open spec fn composite_result<A>(
    pre: CompositeWrapper<A>,
    bb0: Blackboards,
    obs: Seq<NodeStatus>,
) -> NodeStatus {
    match pre.node_impl {
        CompositeNode::Sequence(_) => sequence_result(obs),
        CompositeNode::Selector(_) => fallback_result(obs),
        CompositeNode::Parallel(p) => {
            let n = pre.child_nodes@.len() as int;
            if n == 0 {
                NodeStatus::Failure
            } else {
                parallel_result(
                    obs,
                    p.success_count as int,
                    p.failure_count as int,
                    spec_threshold(pre.data_proxy, bb0, spec_success_port(), n),
                    spec_threshold(pre.data_proxy, bb0, spec_failure_port(), n),
                )
            }
        },
    }
}

/// Sequence correctness: over completed child statuses, a sequence
/// succeeds exactly when every child succeeded, and fails otherwise.
pub proof fn lemma_sequence_correct(obs: Seq<NodeStatus>)
    requires
        forall|i: int|
            0 <= i < obs.len() ==> #[trigger] obs[i] == NodeStatus::Success || obs[i]
                == NodeStatus::Failure,
    ensures
        (forall|i: int| 0 <= i < obs.len() ==> #[trigger] obs[i] == NodeStatus::Success)
            ==> sequence_scan(obs) is None,
        !(forall|i: int| 0 <= i < obs.len() ==> #[trigger] obs[i] == NodeStatus::Success)
            ==> sequence_scan(obs) == Some(NodeStatus::Failure),
        (sequence_result(obs) == NodeStatus::Success) <==> (forall|i: int|
            0 <= i < obs.len() ==> #[trigger] obs[i] == NodeStatus::Success),
        !(forall|i: int| 0 <= i < obs.len() ==> #[trigger] obs[i] == NodeStatus::Success)
            ==> sequence_result(obs) == NodeStatus::Failure,
    decreases obs.len(),
{
    if obs.len() > 0 {
        let pre = obs.drop_last();
        assert(forall|i: int| 0 <= i < pre.len() ==> pre[i] == #[trigger] obs[i]);
        lemma_sequence_correct(pre);
        assert(obs.last() == obs[obs.len() - 1]);
        if forall|i: int| 0 <= i < obs.len() ==> #[trigger] obs[i] == NodeStatus::Success {
            assert(obs.last() == NodeStatus::Success);
        } else {
            if forall|i: int| 0 <= i < pre.len() ==> #[trigger] pre[i] == NodeStatus::Success {
                assert(obs.last() != NodeStatus::Success) by {
                    if obs.last() == NodeStatus::Success {
                        assert(forall|i: int|
                            0 <= i < obs.len() ==> #[trigger] obs[i] == NodeStatus::Success);
                    }
                }
            }
        }
    }
}

/// Fallback correctness: over completed child statuses, a fallback fails
/// exactly when every child failed, and succeeds otherwise.
pub proof fn lemma_fallback_correct(obs: Seq<NodeStatus>)
    requires
        forall|i: int|
            0 <= i < obs.len() ==> #[trigger] obs[i] == NodeStatus::Success || obs[i]
                == NodeStatus::Failure,
    ensures
        (forall|i: int| 0 <= i < obs.len() ==> #[trigger] obs[i] == NodeStatus::Failure)
            ==> fallback_scan(obs) is None,
        !(forall|i: int| 0 <= i < obs.len() ==> #[trigger] obs[i] == NodeStatus::Failure)
            ==> fallback_scan(obs) == Some(NodeStatus::Success),
        (fallback_result(obs) == NodeStatus::Failure) <==> (forall|i: int|
            0 <= i < obs.len() ==> #[trigger] obs[i] == NodeStatus::Failure),
        !(forall|i: int| 0 <= i < obs.len() ==> #[trigger] obs[i] == NodeStatus::Failure)
            ==> fallback_result(obs) == NodeStatus::Success,
    decreases obs.len(),
{
    if obs.len() > 0 {
        let pre = obs.drop_last();
        assert(forall|i: int| 0 <= i < pre.len() ==> pre[i] == #[trigger] obs[i]);
        lemma_fallback_correct(pre);
        assert(obs.last() == obs[obs.len() - 1]);
        if forall|i: int| 0 <= i < obs.len() ==> #[trigger] obs[i] == NodeStatus::Failure {
            assert(obs.last() == NodeStatus::Failure);
        } else {
            if forall|i: int| 0 <= i < pre.len() ==> #[trigger] pre[i] == NodeStatus::Failure {
                assert(obs.last() != NodeStatus::Failure) by {
                    if obs.last() == NodeStatus::Failure {
                        assert(forall|i: int|
                            0 <= i < obs.len() ==> #[trigger] obs[i] == NodeStatus::Failure);
                    }
                }
            }
        }
    }
}

/// How many entries of `obs` equal `v`.
pub open spec fn count_eq(obs: Seq<NodeStatus>, v: NodeStatus) -> int
    decreases obs.len(),
{
    if obs.len() == 0 {
        0
    } else {
        count_eq(obs.drop_last(), v) + if obs.last() == v {
            1int
        } else {
            0int
        }
    }
}

/// The tallies of an undecided scan are the running counts; a decided scan
/// decided the moment a tally reached its threshold.
proof fn lemma_par_scan_counts(obs: Seq<NodeStatus>, s0: int, f0: int, st: int, ft: int)
    requires
        forall|i: int|
            0 <= i < obs.len() ==> #[trigger] obs[i] == NodeStatus::Success || obs[i]
                == NodeStatus::Failure,
        s0 < st,
        f0 < ft,
    ensures
        ({
            let p = par_scan(obs, s0, f0, st, ft);
            &&& (p.decided is None ==> p.successes == s0 + count_eq(obs, NodeStatus::Success)
                && p.failures == f0 + count_eq(obs, NodeStatus::Failure) && p.successes < st
                && p.failures < ft)
            &&& (p.decided == Some(NodeStatus::Success) ==> p.successes >= st && p.successes <= s0
                + count_eq(obs, NodeStatus::Success))
            &&& (p.decided == Some(NodeStatus::Failure) ==> p.failures >= ft && p.failures <= f0
                + count_eq(obs, NodeStatus::Failure))
            &&& !(p.decided == Some(NodeStatus::Running)) && !(p.decided == Some(NodeStatus::Idle))
        }),
    decreases obs.len(),
{
    if obs.len() > 0 {
        let pre = obs.drop_last();
        assert(forall|i: int| 0 <= i < pre.len() ==> pre[i] == #[trigger] obs[i]);
        lemma_par_scan_counts(pre, s0, f0, st, ft);
        lemma_count_nonneg(pre, NodeStatus::Success);
        lemma_count_nonneg(pre, NodeStatus::Failure);
        assert(obs.last() == obs[obs.len() - 1]);
    }
}

proof fn lemma_count_nonneg(obs: Seq<NodeStatus>, v: NodeStatus)
    ensures
        count_eq(obs, v) >= 0,
    decreases obs.len(),
{
    if obs.len() > 0 {
        lemma_count_nonneg(obs.drop_last(), v);
    }
}

/// Parallel thresholds: over completed child statuses, the tick in which
/// the tallies reach `st` successes without reaching `ft` failures returns
/// `Success`, and symmetrically for `Failure`.
pub proof fn lemma_parallel_thresholds(
    obs: Seq<NodeStatus>,
    s0: int,
    f0: int,
    st: int,
    ft: int,
)
    requires
        forall|i: int|
            0 <= i < obs.len() ==> #[trigger] obs[i] == NodeStatus::Success || obs[i]
                == NodeStatus::Failure,
        s0 < st,
        f0 < ft,
    ensures
        s0 + count_eq(obs, NodeStatus::Success) >= st && f0 + count_eq(obs, NodeStatus::Failure)
            < ft ==> parallel_result(obs, s0, f0, st, ft) == NodeStatus::Success,
        f0 + count_eq(obs, NodeStatus::Failure) >= ft && s0 + count_eq(obs, NodeStatus::Success)
            < st ==> parallel_result(obs, s0, f0, st, ft) == NodeStatus::Failure,
{
    lemma_par_scan_counts(obs, s0, f0, st, ft);
    lemma_count_monotone(obs, s0, f0, st, ft);
}

/// A decided scan's tallies never exceed the full counts of `obs`.
proof fn lemma_count_monotone(obs: Seq<NodeStatus>, s0: int, f0: int, st: int, ft: int)
    ensures
        ({
            let p = par_scan(obs, s0, f0, st, ft);
            &&& p.successes <= s0 + count_eq(obs, NodeStatus::Success)
            &&& p.failures <= f0 + count_eq(obs, NodeStatus::Failure)
        }),
    decreases obs.len(),
{
    if obs.len() > 0 {
        lemma_count_monotone(obs.drop_last(), s0, f0, st, ft);
    }
}


impl Sequence {
    /// Back to the first child.
    pub fn reset_state(&mut self)
        ensures
            final(self).current_child_idx == 0,
            old(self).current_child_idx == 0 ==> *final(self) == *old(self),
    {
        self.current_child_idx = 0;
    }

    /// Ticks children from the resume index on: the first failed child
    /// fails the sequence, a running child suspends it, and it succeeds
    /// once every child has succeeded.
    pub fn tick_status<A: ActionNodeImpl>(
        &mut self,
        child_nodes: &mut Vec<TreeNodeWrapper<A>>,
        bb: &mut Blackboards,
    ) -> (res: (NodeStatus, Ghost<Seq<NodeStatus>>))
        requires
            old(self).current_child_idx <= old(child_nodes)@.len(),
            forall|i: int|
                0 <= i < old(child_nodes)@.len() ==> (#[trigger] old(child_nodes)@[i]).wf(),
            forall|i: int|
                0 <= i < old(child_nodes)@.len() ==> (#[trigger] old(child_nodes)@[i]).scopes_lt(
                    old(bb).n_scopes(),
                ),
            old(bb).wf(),
        ensures
            final(bb).wf(),
            final(bb).n_scopes() >= old(bb).n_scopes(),
            final(child_nodes)@.len() == old(child_nodes)@.len(),
            forall|i: int|
                0 <= i < final(child_nodes)@.len() ==> (#[trigger] final(child_nodes)@[i]).wf(),
            forall|i: int|
                0 <= i < final(child_nodes)@.len() ==> (#[trigger] final(child_nodes)@[i]).scopes_lt(final(bb).n_scopes()),
            forall|i: int|
                0 <= i < final(child_nodes)@.len() ==> (#[trigger] final(child_nodes)@[i]).height() == old(child_nodes)@[i].height(),
            final(self).current_child_idx <= final(child_nodes)@.len(),
            res.0 == sequence_result(res.1@),
            res.0 != NodeStatus::Idle,
            contiguous_traces(
                old(child_nodes)@,
                final(child_nodes)@,
                old(self).current_child_idx as int,
                res.1@,
            ),
            forall|k: int|
                0 <= k < res.1@.len() ==> (#[trigger] final(child_nodes)@[old(self).current_child_idx + k]).spec_status() == res.1@[k],
            forall|j: int|
                0 <= j < old(child_nodes)@.len() && !(old(self).current_child_idx <= j < old(self).current_child_idx + res.1@.len())
                    ==> #[trigger] final(child_nodes)@[j] == old(child_nodes)@[j],
            forall|k: int| 0 <= k < res.1@.len() - 1 ==> #[trigger] res.1@[k] == NodeStatus::Success,
            res.0 == NodeStatus::Success ==> old(self).current_child_idx + res.1@.len() == old(child_nodes)@.len(),
            final(self).current_child_idx as int == old(self).current_child_idx + count_eq(
                res.1@,
                NodeStatus::Success,
            ),
        decreases 1 + max_child_height(old(child_nodes)@, old(child_nodes)@.len() as int), 1int,
    {
        let ghost init_children = child_nodes@;
        let ghost idx0 = self.current_child_idx as int;
        let n = child_nodes.len();
        let mut obs: Ghost<Seq<NodeStatus>> = Ghost(Seq::empty());
        while self.current_child_idx < n
            invariant
                n == child_nodes@.len(),
                self.current_child_idx <= n,
                bb.wf(),
                bb.n_scopes() >= old(bb).n_scopes(),
                init_children == old(child_nodes)@,
                init_children.len() == n,
                idx0 == old(self).current_child_idx as int,
                forall|i: int| 0 <= i < n ==> (#[trigger] child_nodes@[i]).wf(),
                forall|i: int|
                    0 <= i < n ==> (#[trigger] child_nodes@[i]).scopes_lt(bb.n_scopes()),
                forall|i: int|
                    0 <= i < n ==> (#[trigger] child_nodes@[i]).height()
                        == init_children[i].height(),
                sequence_scan(obs@) is None,
                self.current_child_idx as int == idx0 + obs@.len(),
                forall|k: int| 0 <= k < obs@.len() ==> #[trigger] obs@[k] == NodeStatus::Success,
                count_eq(obs@, NodeStatus::Success) == obs@.len(),
                forall|k: int|
                    0 <= k < obs@.len() ==> (#[trigger] child_nodes@[idx0 + k]).proxy().tick_trace@
                        == init_children[idx0 + k].proxy().tick_trace@.push(obs@[k]),
                forall|k: int|
                    0 <= k < obs@.len() ==> (#[trigger] child_nodes@[idx0 + k]).spec_status()
                        == obs@[k],
                forall|j: int|
                    0 <= j < n && !(idx0 <= j < idx0 + obs@.len()) ==> #[trigger] child_nodes@[j]
                        == init_children[j],
            decreases n - self.current_child_idx,
    {
            let i = self.current_child_idx;
            let ghost pre_obs = obs@;
            let ghost pre_scopes = bb.n_scopes();
            proof {
                lemma_child_height_le(init_children, n as int, i as int);
                assert(child_nodes@[i as int].height() == init_children[i as int].height());
            }
            let child = vec_index_mut(child_nodes, i);
            let s = child.tick(bb);
            proof {
                obs@ = pre_obs.push(s);
                assert(obs@.drop_last() =~= pre_obs);
                assert(obs@.last() == s);
                assert forall|j: int| 0 <= j < n implies (#[trigger] child_nodes@[j]).scopes_lt(
                    bb.n_scopes(),
                ) by {
                    if j != i {
                        lemma_scopes_lt_mono(child_nodes@[j], pre_scopes, bb.n_scopes());
                    }
                }
            }
            match s {
                NodeStatus::Success => {
                    self.current_child_idx = i + 1;
                },
                NodeStatus::Running => {
                    return (NodeStatus::Running, obs);
                },
                NodeStatus::Failure => {
                    return (NodeStatus::Failure, obs);
                },
                NodeStatus::Idle => {
                    return (NodeStatus::Failure, obs);
                },
            }
        }
        (NodeStatus::Success, obs)
    }
}

impl Selector {
    /// Back to the first child.
    pub fn reset_state(&mut self)
        ensures
            final(self).current_child_idx == 0,
            old(self).current_child_idx == 0 ==> *final(self) == *old(self),
    {
        self.current_child_idx = 0;
    }

    /// Ticks children from the resume index on: the first successful child
    /// makes the fallback succeed, a running child suspends it, and it
    /// fails once every child has failed.
    pub fn tick_status<A: ActionNodeImpl>(
        &mut self,
        child_nodes: &mut Vec<TreeNodeWrapper<A>>,
        bb: &mut Blackboards,
    ) -> (res: (NodeStatus, Ghost<Seq<NodeStatus>>))
        requires
            old(self).current_child_idx <= old(child_nodes)@.len(),
            forall|i: int|
                0 <= i < old(child_nodes)@.len() ==> (#[trigger] old(child_nodes)@[i]).wf(),
            forall|i: int|
                0 <= i < old(child_nodes)@.len() ==> (#[trigger] old(child_nodes)@[i]).scopes_lt(
                    old(bb).n_scopes(),
                ),
            old(bb).wf(),
        ensures
            final(bb).wf(),
            final(bb).n_scopes() >= old(bb).n_scopes(),
            final(child_nodes)@.len() == old(child_nodes)@.len(),
            forall|i: int|
                0 <= i < final(child_nodes)@.len() ==> (#[trigger] final(child_nodes)@[i]).wf(),
            forall|i: int|
                0 <= i < final(child_nodes)@.len() ==> (#[trigger] final(child_nodes)@[i]).scopes_lt(final(bb).n_scopes()),
            forall|i: int|
                0 <= i < final(child_nodes)@.len() ==> (#[trigger] final(child_nodes)@[i]).height() == old(child_nodes)@[i].height(),
            final(self).current_child_idx <= final(child_nodes)@.len(),
            res.0 == fallback_result(res.1@),
            res.0 != NodeStatus::Idle,
            contiguous_traces(
                old(child_nodes)@,
                final(child_nodes)@,
                old(self).current_child_idx as int,
                res.1@,
            ),
            forall|k: int|
                0 <= k < res.1@.len() ==> (#[trigger] final(child_nodes)@[old(self).current_child_idx + k]).spec_status() == res.1@[k],
            forall|j: int|
                0 <= j < old(child_nodes)@.len() && !(old(self).current_child_idx <= j < old(self).current_child_idx + res.1@.len())
                    ==> #[trigger] final(child_nodes)@[j] == old(child_nodes)@[j],
            forall|k: int| 0 <= k < res.1@.len() - 1 ==> #[trigger] res.1@[k] == NodeStatus::Failure,
            res.0 == NodeStatus::Failure && (res.1@.len() == 0 || res.1@.last() != NodeStatus::Idle)
                ==> old(self).current_child_idx + res.1@.len() == old(child_nodes)@.len(),
            res.0 == NodeStatus::Success ==> final(self).current_child_idx == 0,
            res.0 == NodeStatus::Running ==> final(self).current_child_idx as int == old(self).current_child_idx + res.1@.len() - 1,
        decreases 1 + max_child_height(old(child_nodes)@, old(child_nodes)@.len() as int), 1int,
    {
        let ghost init_children = child_nodes@;
        let ghost idx0 = self.current_child_idx as int;
        let n = child_nodes.len();
        let mut obs: Ghost<Seq<NodeStatus>> = Ghost(Seq::empty());
        while self.current_child_idx < n
            invariant
                n == child_nodes@.len(),
                self.current_child_idx <= n,
                bb.wf(),
                bb.n_scopes() >= old(bb).n_scopes(),
                init_children == old(child_nodes)@,
                init_children.len() == n,
                idx0 == old(self).current_child_idx as int,
                forall|i: int| 0 <= i < n ==> (#[trigger] child_nodes@[i]).wf(),
                forall|i: int|
                    0 <= i < n ==> (#[trigger] child_nodes@[i]).scopes_lt(bb.n_scopes()),
                forall|i: int|
                    0 <= i < n ==> (#[trigger] child_nodes@[i]).height()
                        == init_children[i].height(),
                fallback_scan(obs@) is None,
                self.current_child_idx as int == idx0 + obs@.len(),
                forall|k: int| 0 <= k < obs@.len() ==> #[trigger] obs@[k] == NodeStatus::Failure,
                forall|k: int|
                    0 <= k < obs@.len() ==> (#[trigger] child_nodes@[idx0 + k]).proxy().tick_trace@
                        == init_children[idx0 + k].proxy().tick_trace@.push(obs@[k]),
                forall|k: int|
                    0 <= k < obs@.len() ==> (#[trigger] child_nodes@[idx0 + k]).spec_status()
                        == obs@[k],
                forall|j: int|
                    0 <= j < n && !(idx0 <= j < idx0 + obs@.len()) ==> #[trigger] child_nodes@[j]
                        == init_children[j],
            decreases n - self.current_child_idx,
        {
            let i = self.current_child_idx;
            let ghost pre_obs = obs@;
            let ghost pre_scopes = bb.n_scopes();
            proof {
                lemma_child_height_le(init_children, n as int, i as int);
                assert(child_nodes@[i as int].height() == init_children[i as int].height());
            }
            let child = vec_index_mut(child_nodes, i);
            let s = child.tick(bb);
            proof {
                obs@ = pre_obs.push(s);
                assert(obs@.drop_last() =~= pre_obs);
                assert(obs@.last() == s);
                assert forall|j: int| 0 <= j < n implies (#[trigger] child_nodes@[j]).scopes_lt(
                    bb.n_scopes(),
                ) by {
                    if j != i {
                        lemma_scopes_lt_mono(child_nodes@[j], pre_scopes, bb.n_scopes());
                    }
                }
            }
            match s {
                NodeStatus::Failure => {
                    self.current_child_idx = i + 1;
                },
                NodeStatus::Running => {
                    return (NodeStatus::Running, obs);
                },
                NodeStatus::Success => {
                    self.current_child_idx = 0;
                    return (NodeStatus::Success, obs);
                },
                NodeStatus::Idle => {
                    return (NodeStatus::Failure, obs);
                },
            }
        }
        (NodeStatus::Failure, obs)
    }
}

proof fn lemma_count_trues_all_false(s: Seq<bool>, i: int)
    requires
        forall|k: int| 0 <= k < s.len() ==> !(#[trigger] s[k]),
        i <= s.len(),
    ensures
        count_trues(s, i) == 0,
    decreases i,
{
    if i > 0 {
        lemma_count_trues_all_false(s, i - 1);
    }
}

impl Parallel {
    /// Clears the tallies and the completion set.
    pub fn reset_state(&mut self)
        ensures
            final(self).success_count == 0,
            final(self).failure_count == 0,
            final(self).completed_list@.len() == 0,
            old(self).success_count == 0 && old(self).failure_count == 0 && old(self).completed_list@.len() == 0 ==> *final(self) == *old(self),
    {
        self.success_count = 0;
        self.failure_count = 0;
        if self.completed_list.len() != 0 {
            self.completed_list = Vec::new();
        }
    }

    /// Ticks every not-yet-completed child once, counting completions, and
    /// decides as soon as a tally reaches its threshold.  The thresholds
    /// come from the `success_count` and `failure_count` ports, defaulting
    /// to the number of children.
    pub fn tick_status<A: ActionNodeImpl>(
        &mut self,
        data_proxy: &DataProxy,
        child_nodes: &mut Vec<TreeNodeWrapper<A>>,
        bb: &mut Blackboards,
    ) -> (res: (NodeStatus, Ghost<Seq<NodeStatus>>, Ghost<Seq<int>>))
        requires
            forall|i: int|
                0 <= i < old(child_nodes)@.len() ==> (#[trigger] old(child_nodes)@[i]).wf(),
            forall|i: int|
                0 <= i < old(child_nodes)@.len() ==> (#[trigger] old(child_nodes)@[i]).scopes_lt(
                    old(bb).n_scopes(),
                ),
            old(bb).wf(),
            data_proxy.scope < old(bb).n_scopes(),
            old(self).completed_list@.len() == 0 || old(self).completed_list@.len() == old(child_nodes)@.len(),
            old(self).success_count + old(self).failure_count == count_trues(
                old(self).completed_list@,
                old(self).completed_list@.len() as int,
            ),
        ensures
            final(bb).wf(),
            final(bb).n_scopes() >= old(bb).n_scopes(),
            final(child_nodes)@.len() == old(child_nodes)@.len(),
            forall|i: int|
                0 <= i < final(child_nodes)@.len() ==> (#[trigger] final(child_nodes)@[i]).wf(),
            forall|i: int|
                0 <= i < final(child_nodes)@.len() ==> (#[trigger] final(child_nodes)@[i]).scopes_lt(final(bb).n_scopes()),
            forall|i: int|
                0 <= i < final(child_nodes)@.len() ==> (#[trigger] final(child_nodes)@[i]).height() == old(child_nodes)@[i].height(),
            final(self).completed_list@.len() == 0 || final(self).completed_list@.len() == final(child_nodes)@.len(),
            final(self).success_count + final(self).failure_count == count_trues(
                final(self).completed_list@,
                final(self).completed_list@.len() as int,
            ),
            res.0 == (if old(child_nodes)@.len() == 0 {
                NodeStatus::Failure
            } else {
                parallel_result(
                    res.1@,
                    old(self).success_count as int,
                    old(self).failure_count as int,
                    spec_threshold(
                        *data_proxy,
                        *old(bb),
                        spec_success_port(),
                        old(child_nodes)@.len() as int,
                    ),
                    spec_threshold(
                        *data_proxy,
                        *old(bb),
                        spec_failure_port(),
                        old(child_nodes)@.len() as int,
                    ),
                )
            }),
            res.0 != NodeStatus::Idle,
            par_consulted(
                old(child_nodes)@,
                final(child_nodes)@,
                old(self).completed_list@,
                res.2@,
                res.1@,
            ),
            forall|j: int|
                0 <= j < old(child_nodes)@.len() && !idx_in(res.2@, j)
                    ==> #[trigger] final(child_nodes)@[j] == old(child_nodes)@[j],
            forall|k: int|
                0 <= k < res.2@.len() ==> (#[trigger] final(child_nodes)@[res.2@[k]]).spec_status()
                    == res.1@[k],
            res.0 == NodeStatus::Running ==> (forall|j: int|
                0 <= j < old(child_nodes)@.len() && !spec_completed_at(
                    old(self).completed_list@,
                    old(child_nodes)@.len() as int,
                    j,
                ) ==> idx_in(res.2@, j)),
        decreases 1 + max_child_height(old(child_nodes)@, old(child_nodes)@.len() as int), 1int,
    {
        let ghost init_children = child_nodes@;
        let ghost comp0 = self.completed_list@;
        let children_count = child_nodes.len();
        let success_threshold = match data_proxy.get_input_usize(bb, "success_count") {
            Some(v) => v,
            None => children_count,
        };
        let failure_threshold = match data_proxy.get_input_usize(bb, "failure_count") {
            Some(v) => v,
            None => children_count,
        };
        let ghost st = spec_threshold(
            *data_proxy,
            *old(bb),
            spec_success_port(),
            children_count as int,
        );
        let ghost ft = spec_threshold(
            *data_proxy,
            *old(bb),
            spec_failure_port(),
            children_count as int,
        );
        if children_count == 0 {
            return (NodeStatus::Failure, Ghost(Seq::empty()), Ghost(Seq::empty()));
        }
        if self.completed_list.len() != children_count {
            proof {
                assert(count_trues(self.completed_list@, 0) == 0);
            }
            let fresh: Vec<bool> = vec![false; children_count];
            proof {
                lemma_count_trues_all_false(fresh@, children_count as int);
            }
            self.completed_list = fresh;
        }
        let ghost s0 = self.success_count;
        let ghost f0 = self.failure_count;
        let mut obs: Ghost<Seq<NodeStatus>> = Ghost(Seq::empty());
        let mut idxs: Ghost<Seq<int>> = Ghost(Seq::empty());
        let mut i: usize = 0;
        while i < children_count
            invariant
                children_count == child_nodes@.len(),
                children_count > 0,
                i <= children_count,
                bb.wf(),
                bb.n_scopes() >= old(bb).n_scopes(),
                init_children == old(child_nodes)@,
                init_children.len() == children_count,
                forall|j: int| 0 <= j < children_count ==> (#[trigger] child_nodes@[j]).wf(),
                forall|j: int|
                    0 <= j < children_count ==> (#[trigger] child_nodes@[j]).scopes_lt(
                        bb.n_scopes(),
                    ),
                forall|j: int|
                    0 <= j < children_count ==> (#[trigger] child_nodes@[j]).height()
                        == init_children[j].height(),
                self.completed_list@.len() == children_count,
                self.success_count + self.failure_count == count_trues(
                    self.completed_list@,
                    children_count as int,
                ),
                s0 == old(self).success_count,
                f0 == old(self).failure_count,
                success_threshold as int == st,
                failure_threshold as int == ft,
                st == spec_threshold(
                    *data_proxy,
                    *old(bb),
                    spec_success_port(),
                    children_count as int,
                ),
                ft == spec_threshold(
                    *data_proxy,
                    *old(bb),
                    spec_failure_port(),
                    children_count as int,
                ),
                par_scan(obs@, s0 as int, f0 as int, st, ft) == (ParScan {
                    decided: None,
                    successes: self.success_count as int,
                    failures: self.failure_count as int,
                }),
                comp0 == old(self).completed_list@,
                idxs@.len() == obs@.len(),
                forall|k: int|
                    0 <= k < idxs@.len() ==> 0 <= #[trigger] idxs@[k] < i && !spec_completed_at(
                        comp0,
                        children_count as int,
                        idxs@[k],
                    ),
                forall|k1: int, k2: int|
                    #![trigger idxs@[k1], idxs@[k2]]
                    0 <= k1 < k2 < idxs@.len() ==> idxs@[k1] < idxs@[k2],
                forall|k: int|
                    0 <= k < idxs@.len() ==> (#[trigger] child_nodes@[idxs@[k]]).proxy().tick_trace@
                        == init_children[idxs@[k]].proxy().tick_trace@.push(obs@[k]),
                forall|k: int|
                    0 <= k < idxs@.len() ==> (#[trigger] child_nodes@[idxs@[k]]).spec_status()
                        == obs@[k],
                forall|j: int|
                    0 <= j < children_count && !idx_in(idxs@, j) ==> #[trigger] child_nodes@[j]
                        == init_children[j],
                forall|j: int|
                    0 <= j < i && !spec_completed_at(comp0, children_count as int, j) ==> idx_in(
                        idxs@,
                        j,
                    ),
                forall|j: int|
                    i <= j < children_count ==> #[trigger] self.completed_list@[j]
                        == spec_completed_at(comp0, children_count as int, j),
            decreases children_count - i,
        {
            if self.completed_list[i] {
                i = i + 1;
                continue;
            }
            let ghost pre_obs = obs@;
            let ghost pre_scopes = bb.n_scopes();
            proof {
                lemma_child_height_le(init_children, children_count as int, i as int);
                assert(child_nodes@[i as int].height() == init_children[i as int].height());
            }
            proof {
                assert(!idx_in(idxs@, i as int));
            }
            let ghost pre_idxs = idxs@;
            let child = vec_index_mut(child_nodes, i);
            let s = child.tick(bb);
            proof {
                obs@ = pre_obs.push(s);
                idxs@ = pre_idxs.push(i as int);
                assert(obs@.drop_last() =~= pre_obs);
                assert(obs@.last() == s);
                assert forall|j: int| 0 <= j < children_count implies (
                #[trigger] child_nodes@[j]).scopes_lt(bb.n_scopes()) by {
                    if j != i {
                        lemma_scopes_lt_mono(child_nodes@[j], pre_scopes, bb.n_scopes());
                    }
                }
                assert forall|j: int|
                    0 <= j < children_count && !idx_in(idxs@, j) implies #[trigger] child_nodes@[j]
                        == init_children[j] by {
                    lemma_idx_in_push(pre_idxs, i as int, j);
                }
                assert forall|j: int|
                    0 <= j < i + 1 && !spec_completed_at(comp0, children_count as int, j)
                        implies idx_in(idxs@, j) by {
                    lemma_idx_in_push(pre_idxs, i as int, j);
                }
                assert forall|k: int|
                    0 <= k < idxs@.len() implies 0 <= #[trigger] idxs@[k] < i + 1
                        && !spec_completed_at(comp0, children_count as int, idxs@[k]) by {
                    if k < pre_idxs.len() {
                        assert(idxs@[k] == pre_idxs[k]);
                    }
                }
            }
            match s {
                NodeStatus::Idle => {
                    return (NodeStatus::Failure, obs, idxs);
                },
                NodeStatus::Running => {
                    i = i + 1;
                },
                NodeStatus::Success => {
                    let ghost pre_completed = self.completed_list@;
                    proof {
                        lemma_count_trues_lt_if_false(
                            pre_completed,
                            children_count as int,
                            i as int,
                        );
                    }
                    self.success_count = self.success_count + 1;
                    let slot = vec_index_mut(&mut self.completed_list, i);
                    *slot = true;
                    proof {
                        assert(self.completed_list@ =~= pre_completed.update(i as int, true));
                        lemma_count_trues_update(pre_completed, children_count as int, i as int);
                    }
                    if self.success_count >= success_threshold {
                        return (NodeStatus::Success, obs, idxs);
                    }
                    if self.failure_count >= failure_threshold {
                        return (NodeStatus::Failure, obs, idxs);
                    }
                    i = i + 1;
                },
                NodeStatus::Failure => {
                    let ghost pre_completed = self.completed_list@;
                    proof {
                        lemma_count_trues_lt_if_false(
                            pre_completed,
                            children_count as int,
                            i as int,
                        );
                    }
                    self.failure_count = self.failure_count + 1;
                    let slot = vec_index_mut(&mut self.completed_list, i);
                    *slot = true;
                    proof {
                        assert(self.completed_list@ =~= pre_completed.update(i as int, true));
                        lemma_count_trues_update(pre_completed, children_count as int, i as int);
                    }
                    if self.success_count >= success_threshold {
                        return (NodeStatus::Success, obs, idxs);
                    }
                    if self.failure_count >= failure_threshold {
                        return (NodeStatus::Failure, obs, idxs);
                    }
                    i = i + 1;
                },
            }
        }
        (NodeStatus::Running, obs, idxs)
    }
}

impl<A: ActionNodeImpl> CompositeWrapper<A> {
    /// A composite with no children yet.
    pub fn new(data_proxy: DataProxy, node_impl: CompositeNode) -> (r: CompositeWrapper<A>)
        ensures
            r.data_proxy == data_proxy,
            r.node_impl == node_impl,
            r.child_nodes@.len() == 0,
    {
        CompositeWrapper { data_proxy, node_impl, child_nodes: Vec::new() }
    }

    /// Appends one child.
    pub fn add_child(&mut self, node: TreeNodeWrapper<A>)
        ensures
            final(self).data_proxy == old(self).data_proxy,
            final(self).node_impl == old(self).node_impl,
            final(self).child_nodes@ == old(self).child_nodes@.push(node),
    {
        self.child_nodes.push(node);
    }

    /// Halts every running child and returns every child to `Idle`.
    pub fn reset_children(&mut self)
        requires
            forall|i: int|
                0 <= i < old(self).child_nodes@.len() ==> (#[trigger] old(self).child_nodes@[i]).wf(),
        ensures
            final(self).data_proxy == old(self).data_proxy,
            final(self).node_impl == old(self).node_impl,
            final(self).child_nodes@.len() == old(self).child_nodes@.len(),
            forall|i: int|
                0 <= i < final(self).child_nodes@.len() ==> (#[trigger] final(self).child_nodes@[i]).wf(),
            forall|i: int|
                0 <= i < final(self).child_nodes@.len() ==> (#[trigger] final(self).child_nodes@[i]).subtree_idle(),
            forall|i: int|
                0 <= i < final(self).child_nodes@.len() ==> (#[trigger] final(self).child_nodes@[i]).height() == old(self).child_nodes@[i].height(),
            forall|i: int, n: int|
                #![trigger final(self).child_nodes@[i].scopes_lt(n)]
                0 <= i < final(self).child_nodes@.len() && old(self).child_nodes@[i].scopes_lt(n)
                    ==> final(self).child_nodes@[i].scopes_lt(n),
            forall|i: int|
                0 <= i < final(self).child_nodes@.len() && old(self).child_nodes@[i].subtree_idle()
                    ==> #[trigger] final(self).child_nodes@[i] == old(self).child_nodes@[i],
            forall|i: int|
                0 <= i < final(self).child_nodes@.len() ==> (#[trigger] final(self).child_nodes@[i]).proxy().tick_trace == old(self).child_nodes@[i].proxy().tick_trace,
            forall|i: int|
                0 <= i < final(self).child_nodes@.len() ==> (#[trigger] final(self).child_nodes@[i]).proxy().uid == old(self).child_nodes@[i].proxy().uid && final(self).child_nodes@[i].proxy().full_path == old(self).child_nodes@[i].proxy().full_path
                    && final(self).child_nodes@[i].proxy().scope == old(self).child_nodes@[i].proxy().scope && final(self).child_nodes@[i].proxy().input_ports
                    == old(self).child_nodes@[i].proxy().input_ports,
        decreases 1 + max_child_height(old(self).child_nodes@, old(self).child_nodes@.len() as int), 0int,
    {
        let ghost init = self.child_nodes@;
        let n = self.child_nodes.len();
        let mut i: usize = 0;
        while i < n
            invariant
                n == self.child_nodes@.len(),
                i <= n,
                init == old(self).child_nodes@,
                init.len() == n,
                self.data_proxy == old(self).data_proxy,
                self.node_impl == old(self).node_impl,
                forall|j: int| i <= j < n ==> #[trigger] self.child_nodes@[j] == init[j],
                forall|j: int| 0 <= j < n ==> (#[trigger] self.child_nodes@[j]).wf(),
                forall|j: int| 0 <= j < i ==> (#[trigger] self.child_nodes@[j]).subtree_idle(),
                forall|j: int|
                    0 <= j < n ==> (#[trigger] self.child_nodes@[j]).height() == init[j].height(),
                forall|j: int, m: int|
                    #![trigger self.child_nodes@[j].scopes_lt(m)]
                    0 <= j < n && init[j].scopes_lt(m) ==> self.child_nodes@[j].scopes_lt(m),
                forall|j: int|
                    0 <= j < i && init[j].subtree_idle() ==> #[trigger] self.child_nodes@[j]
                        == init[j],
                forall|j: int|
                    0 <= j < n ==> (#[trigger] self.child_nodes@[j]).proxy().tick_trace
                        == init[j].proxy().tick_trace,
                forall|j: int|
                    0 <= j < n ==> (#[trigger] self.child_nodes@[j]).proxy().uid
                        == init[j].proxy().uid && self.child_nodes@[j].proxy().full_path
                        == init[j].proxy().full_path && self.child_nodes@[j].proxy().scope
                        == init[j].proxy().scope && self.child_nodes@[j].proxy().input_ports
                        == init[j].proxy().input_ports,
            decreases n - i,
        {
            proof {
                lemma_child_height_le(init, n as int, i as int);
                assert(self.child_nodes@[i as int].height() == init[i as int].height());
            }
            let child = vec_index_mut(&mut self.child_nodes, i);
            if child.status() == NodeStatus::Running {
                child.halt();
            }
            child.reset_status();
            i = i + 1;
        }
    }

    /// One tick: mark the node running on its first tick, run the kind's
    /// logic over the children, halt the subtree on completion, and record
    /// the result.  The observed child statuses come back as a ghost
    /// sequence that the result provably follows.
    pub fn tick(&mut self, bb: &mut Blackboards) -> (res: (NodeStatus, Ghost<Seq<NodeStatus>>))
        requires
            of_composite(*old(self)).wf(),
            old(bb).wf(),
            of_composite(*old(self)).scopes_lt(old(bb).n_scopes()),
        ensures
            of_composite(*final(self)).wf(),
            final(bb).wf(),
            final(bb).n_scopes() >= old(bb).n_scopes(),
            of_composite(*final(self)).scopes_lt(final(bb).n_scopes()),
            of_composite(*final(self)).height() == of_composite(*old(self)).height(),
            res.0 == final(self).data_proxy.status,
            res.0 != NodeStatus::Idle,
            res.0 == NodeStatus::Success || res.0 == NodeStatus::Failure ==> of_composite(
                *final(self),
            ).halted_below(),
            res.0 == composite_result(*old(self), *old(bb), res.1@),
            final(self).data_proxy.tick_trace@ == old(self).data_proxy.tick_trace@.push(res.0),
            composite_children_traces(*old(self), final(self).child_nodes@, res.1@, res.0),
        decreases of_composite(*old(self)).height(), 2int,
    {
        if self.data_proxy.status() == NodeStatus::Idle {
            self.data_proxy.set_status(NodeStatus::Running);
        }
        let ghost mut g_idxs: Seq<int> = Seq::empty();
        let res = match &mut self.node_impl {
            CompositeNode::Sequence(s) => s.tick_status(&mut self.child_nodes, bb),
            CompositeNode::Selector(s) => s.tick_status(&mut self.child_nodes, bb),
            CompositeNode::Parallel(p) => {
                let t = p.tick_status(&self.data_proxy, &mut self.child_nodes, bb);
                proof {
                    g_idxs = t.2@;
                }
                (t.0, t.1)
            },
        };
        let ghost mid_children = self.child_nodes@;
        let ghost bbn = bb.n_scopes();
        proof {
            lemma_max_height_congruent(
                self.child_nodes@,
                old(self).child_nodes@,
                self.child_nodes@.len() as int,
            );
            assert(of_composite(*self).height() == of_composite(*old(self)).height());
            assert(self.data_proxy.scope < bbn);
            assert(of_composite(*self).scopes_lt(bbn));
        }
        let tick_status = res.0;
        if tick_status.is_completed() {
            self.halt();
            proof {
                assert(of_composite(*self).scopes_lt(bbn));
            }
        }
        self.data_proxy.set_status(tick_status);
        proof {
            self.data_proxy.tick_trace@ = self.data_proxy.tick_trace@.push(tick_status);
            assert(self.data_proxy.scope < bbn);
            assert(forall|j: int|
                0 <= j < self.child_nodes@.len() ==> (#[trigger] self.child_nodes@[j]).scopes_lt(
                    bbn,
                ));
            assert(of_composite(*self).scopes_lt(bb.n_scopes()));
            assert(of_composite(*self).height() == of_composite(*old(self)).height());
            assert(forall|j: int|
                0 <= j < self.child_nodes@.len() ==> (#[trigger] self.child_nodes@[j]).proxy().tick_trace@
                    == mid_children[j].proxy().tick_trace@);
            match old(self).node_impl {
                CompositeNode::Sequence(sq) => {
                    assert(contiguous_traces(
                        old(self).child_nodes@,
                        self.child_nodes@,
                        sq.current_child_idx as int,
                        res.1@,
                    ));
                },
                CompositeNode::Selector(sq) => {
                    assert(contiguous_traces(
                        old(self).child_nodes@,
                        self.child_nodes@,
                        sq.current_child_idx as int,
                        res.1@,
                    ));
                },
                CompositeNode::Parallel(pp) => {
                    assert(par_consulted(
                        old(self).child_nodes@,
                        self.child_nodes@,
                        pp.completed_list@,
                        g_idxs,
                        res.1@,
                    ));
                },
            }
            assert(composite_children_traces(*old(self), self.child_nodes@, res.1@, tick_status));
        }
        (tick_status, res.1)
    }

    /// Cancels the subtree: the kind state is reset and every child is
    /// returned to `Idle`.
    pub fn halt(&mut self)
        requires
            old(self).data_proxy.wf(),
            forall|i: int|
                0 <= i < old(self).child_nodes@.len() ==> (#[trigger] old(self).child_nodes@[i]).wf(),
        ensures
            final(self).data_proxy == old(self).data_proxy,
            final(self).child_nodes@.len() == old(self).child_nodes@.len(),
            of_composite(*final(self)).wf(),
            of_composite(*final(self)).halted_below(),
            of_composite(*final(self)).height() == of_composite(*old(self)).height(),
            forall|n: int|
                of_composite(*old(self)).scopes_lt(n) ==> #[trigger] of_composite(
                    *final(self),
                ).scopes_lt(n),
            of_composite(*old(self)).halted_below() ==> same_framework(
                of_composite(*old(self)),
                of_composite(*final(self)),
            ),
            forall|j: int|
                0 <= j < final(self).child_nodes@.len() ==> (#[trigger] final(self).child_nodes@[j]).proxy().tick_trace == old(self).child_nodes@[j].proxy().tick_trace,
        decreases of_composite(*old(self)).height(), 1int,
    {
        match &mut self.node_impl {
            CompositeNode::Sequence(s) => s.reset_state(),
            CompositeNode::Parallel(p) => p.reset_state(),
            CompositeNode::Selector(s) => s.reset_state(),
        }
        self.reset_children();
        proof {
            assert forall|n: int| of_composite(*old(self)).scopes_lt(n) implies #[trigger] of_composite(
                *self,
            ).scopes_lt(n) by {
                assert forall|j: int| 0 <= j < self.child_nodes@.len() implies (
                #[trigger] self.child_nodes@[j]).scopes_lt(n) by {
                    assert(old(self).child_nodes@[j].scopes_lt(n));
                }
            }
            lemma_max_height_congruent(
                self.child_nodes@,
                old(self).child_nodes@,
                self.child_nodes@.len() as int,
            );
            if of_composite(*old(self)).halted_below() {
                assert forall|j: int| 0 <= j < self.child_nodes@.len() implies same_framework(
                    #[trigger] old(self).child_nodes@[j],
                    self.child_nodes@[j],
                ) by {
                    assert(old(self).child_nodes@[j].subtree_idle());
                    assert(self.child_nodes@[j] == old(self).child_nodes@[j]);
                    lemma_same_framework_refl(self.child_nodes@[j]);
                }
            }
        }
    }
}

} // verus!
