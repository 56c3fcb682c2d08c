//! The tree of node wrappers and its uniform tick/halt machinery.
//!
//! A [`TreeNodeWrapper`] is a composite, a decorator or an action leaf.  A
//! tick marks an idle node running, runs the kind-specific logic (which
//! ticks children), halts the node's own subtree when the result is a
//! completed status, and records the result.  A halt resets the kind state
//! and returns every child to `Idle`, so the node can be reused.

use vstd::prelude::*;
use vstd::string::{StringExecFns, StrSliceExecFns};
use crate::{NodeStatus, NodeType};
use crate::value::u16_to_string;
use crate::blackboard::Blackboards;
use crate::node::DataProxy;
use crate::node::action::{ActionNodeImpl, ActionWrapper};
use crate::node::composite::{
    composite_children_traces, composite_result, count_trues, CompositeNode, CompositeWrapper,
};
use crate::node::decorator::{
    decorator_inner_trace, decorator_result, DecoratorNode, DecoratorWrapper,
};

verus! {

/// One node of a behavior tree.
pub enum NodeWrapper<A> {
    Composite(CompositeWrapper<A>),
    Decorator(DecoratorWrapper<A>),
    Action(ActionWrapper<A>),
}

/// A behavior-tree node with uniform tick/halt dispatch.
pub struct TreeNodeWrapper<A> {
    pub node_wrapper: NodeWrapper<A>,
}

/// The node wrapping a composite.
pub open spec fn of_composite<A>(c: CompositeWrapper<A>) -> TreeNodeWrapper<A> {
    TreeNodeWrapper { node_wrapper: NodeWrapper::Composite(c) }
}

/// The node wrapping a decorator.
pub open spec fn of_decorator<A>(d: DecoratorWrapper<A>) -> TreeNodeWrapper<A> {
    TreeNodeWrapper { node_wrapper: NodeWrapper::Decorator(d) }
}

/// The larger of the heights of the first `i` nodes of `s`.
pub open spec fn max_child_height<A>(s: Seq<TreeNodeWrapper<A>>, i: int) -> nat
    decreases s, i,
{
    if i <= 0 || i > s.len() {
        0
    } else {
        let h = s[i - 1].height();
        let m = max_child_height(s, i - 1);
        if h > m {
            h
        } else {
            m
        }
    }
}

/// Every listed node is at most as tall as the running maximum.
pub proof fn lemma_child_height_le<A>(s: Seq<TreeNodeWrapper<A>>, i: int, j: int)
    requires
        0 <= j < i <= s.len(),
    ensures
        s[j].height() <= max_child_height(s, i),
    decreases i,
{
    if j < i - 1 {
        lemma_child_height_le(s, i - 1, j);
    }
}

/// The maximum height depends only on the nodes' heights.
pub proof fn lemma_max_height_congruent<A>(
    s1: Seq<TreeNodeWrapper<A>>,
    s2: Seq<TreeNodeWrapper<A>>,
    i: int,
)
    requires
        i <= s1.len(),
        i <= s2.len(),
        forall|j: int| 0 <= j < i ==> (#[trigger] s1[j]).height() == s2[j].height(),
    ensures
        max_child_height(s1, i) == max_child_height(s2, i),
    decreases i,
{
    if i > 0 {
        lemma_max_height_congruent(s1, s2, i - 1);
    }
}

impl<A> TreeNodeWrapper<A> {
    /// The per-node data of whatever kind of node this is.
    pub open spec fn proxy(self) -> DataProxy {
        match self.node_wrapper {
            NodeWrapper::Composite(c) => c.data_proxy,
            NodeWrapper::Decorator(d) => d.data_proxy,
            NodeWrapper::Action(a) => a.data_proxy,
        }
    }

    /// The node's current status.
    pub open spec fn spec_status(self) -> NodeStatus {
        self.proxy().status
    }

    /// Structural height: actions are leaves, composites and decorators
    /// stand one level above their children.
    pub open spec fn height(self) -> nat
        decreases self, 0int,
    {
        match self.node_wrapper {
            NodeWrapper::Composite(c) => 1 + max_child_height(
                c.child_nodes@,
                c.child_nodes@.len() as int,
            ),
            NodeWrapper::Decorator(d) => 1 + (*d.inner_node).height(),
            NodeWrapper::Action(_) => 0,
        }
    }

    /// The kind-specific state is at its initial value.
    pub open spec fn kind_state_reset(self) -> bool {
        match self.node_wrapper {
            NodeWrapper::Composite(c) => match c.node_impl {
                CompositeNode::Sequence(s) => s.current_child_idx == 0,
                CompositeNode::Parallel(p) => p.success_count == 0 && p.failure_count == 0
                    && p.completed_list@.len() == 0,
                CompositeNode::Selector(s) => s.current_child_idx == 0,
            },
            NodeWrapper::Decorator(d) => match d.node_impl {
                DecoratorNode::Repeat(r) => r.repeat_count == 0,
                DecoratorNode::Retry(r) => r.try_count == 0,
                _ => true,
            },
            NodeWrapper::Action(_) => true,
        }
    }

    /// The whole subtree is back at its initial state: idle, kind state
    /// reset, recursively.
    pub open spec fn subtree_idle(self) -> bool
        decreases self, 0int,
    {
        &&& self.spec_status() == NodeStatus::Idle
        &&& self.kind_state_reset()
        &&& match self.node_wrapper {
            NodeWrapper::Composite(c) => forall|i: int|
                0 <= i < c.child_nodes@.len() ==> (#[trigger] c.child_nodes@[i]).subtree_idle(),
            NodeWrapper::Decorator(d) => (*d.inner_node).subtree_idle(),
            NodeWrapper::Action(_) => true,
        }
    }

    /// What a halt establishes: the kind state is reset and everything
    /// below this node is back at its initial state.  The node's own status
    /// is not touched by a halt; the caller records it separately.
    pub open spec fn halted_below(self) -> bool {
        &&& self.kind_state_reset()
        &&& match self.node_wrapper {
            NodeWrapper::Composite(c) => forall|i: int|
                0 <= i < c.child_nodes@.len() ==> (#[trigger] c.child_nodes@[i]).subtree_idle(),
            NodeWrapper::Decorator(d) => (*d.inner_node).subtree_idle(),
            NodeWrapper::Action(_) => true,
        }
    }

    /// Bounds tying the kind state to the child list, needed for a tick to
    /// run: resume indices stay within the child count, and the parallel
    /// tallies agree with its completion set.
    pub open spec fn kind_bounds(self) -> bool {
        match self.node_wrapper {
            NodeWrapper::Composite(c) => match c.node_impl {
                CompositeNode::Sequence(s) => s.current_child_idx <= c.child_nodes@.len(),
                CompositeNode::Selector(s) => s.current_child_idx <= c.child_nodes@.len(),
                CompositeNode::Parallel(p) => {
                    &&& (p.completed_list@.len() == 0 || p.completed_list@.len()
                        == c.child_nodes@.len())
                    &&& p.success_count + p.failure_count == count_trues(
                        p.completed_list@,
                        p.completed_list@.len() as int,
                    )
                },
            },
            _ => true,
        }
    }

    /// The tree invariant: every proxy's observer log is well-formed, the
    /// kind state is in bounds, children are well-formed, and a node that
    /// is not running has its whole subtree reset.
    pub open spec fn wf(self) -> bool
        decreases self, 0int,
    {
        &&& self.proxy().wf()
        &&& self.kind_bounds()
        &&& match self.node_wrapper {
            NodeWrapper::Composite(c) => forall|i: int|
                0 <= i < c.child_nodes@.len() ==> (#[trigger] c.child_nodes@[i]).wf(),
            NodeWrapper::Decorator(d) => (*d.inner_node).wf(),
            NodeWrapper::Action(_) => true,
        }
        &&& (self.spec_status() != NodeStatus::Running ==> self.halted_below())
    }

    /// Every node of the subtree reads a blackboard scope below `n`.
    pub open spec fn scopes_lt(self, n: int) -> bool
        decreases self, 0int,
    {
        &&& self.proxy().scope < n
        &&& match self.node_wrapper {
            NodeWrapper::Composite(c) => forall|i: int|
                0 <= i < c.child_nodes@.len() ==> (#[trigger] c.child_nodes@[i]).scopes_lt(n),
            NodeWrapper::Decorator(d) => (*d.inner_node).scopes_lt(n),
            NodeWrapper::Action(_) => true,
        }
    }

}

/// Equality of two composite kind states, comparing the parallel
/// completion set by contents.
pub open spec fn composite_kind_eq(a: CompositeNode, b: CompositeNode) -> bool {
    match (a, b) {
        (CompositeNode::Sequence(x), CompositeNode::Sequence(y)) => x == y,
        (CompositeNode::Selector(x), CompositeNode::Selector(y)) => x == y,
        (CompositeNode::Parallel(x), CompositeNode::Parallel(y)) => x.success_count
            == y.success_count && x.failure_count == y.failure_count && x.completed_list@
            == y.completed_list@,
        _ => false,
    }
}

/// Two trees agree on everything the framework owns: shape, per-node data,
/// and kind state.  The private state of user-defined action leaves is not
/// compared, since their `halt` may do anything.
pub open spec fn same_framework<A>(a: TreeNodeWrapper<A>, b: TreeNodeWrapper<A>) -> bool
    decreases a, 0int,
{
    match (a.node_wrapper, b.node_wrapper) {
        (NodeWrapper::Composite(x), NodeWrapper::Composite(y)) => {
            &&& x.data_proxy == y.data_proxy
            &&& composite_kind_eq(x.node_impl, y.node_impl)
            &&& x.child_nodes@.len() == y.child_nodes@.len()
            &&& forall|i: int|
                0 <= i < x.child_nodes@.len() ==> same_framework(
                    #[trigger] x.child_nodes@[i],
                    y.child_nodes@[i],
                )
        },
        (NodeWrapper::Decorator(x), NodeWrapper::Decorator(y)) => {
            &&& x.data_proxy == y.data_proxy
            &&& x.node_impl == y.node_impl
            &&& same_framework(*x.inner_node, *y.inner_node)
        },
        (NodeWrapper::Action(x), NodeWrapper::Action(y)) => x.data_proxy == y.data_proxy,
        _ => false,
    }
}

/// A tree agrees with itself on the framework state.
pub proof fn lemma_same_framework_refl<A>(a: TreeNodeWrapper<A>)
    ensures
        same_framework(a, a),
    decreases a, 0int,
{
    match a.node_wrapper {
        NodeWrapper::Composite(x) => {
            assert forall|i: int| 0 <= i < x.child_nodes@.len() implies same_framework(
                #[trigger] x.child_nodes@[i],
                x.child_nodes@[i],
            ) by {
                lemma_same_framework_refl(x.child_nodes@[i]);
            }
        },
        NodeWrapper::Decorator(x) => {
            lemma_same_framework_refl(*x.inner_node);
        },
        NodeWrapper::Action(_) => {},
    }
}

/// Scope validity is monotone in the number of scopes.
pub proof fn lemma_scopes_lt_mono<A>(t: TreeNodeWrapper<A>, n: int, m: int)
    requires
        t.scopes_lt(n),
        n <= m,
    ensures
        t.scopes_lt(m),
    decreases t, 0int,
{
    match t.node_wrapper {
        NodeWrapper::Composite(c) => {
            assert forall|i: int| 0 <= i < c.child_nodes@.len() implies (
            #[trigger] c.child_nodes@[i]).scopes_lt(m) by {
                lemma_scopes_lt_mono(c.child_nodes@[i], n, m);
            }
        },
        NodeWrapper::Decorator(d) => {
            lemma_scopes_lt_mono(*d.inner_node, n, m);
        },
        NodeWrapper::Action(_) => {},
    }
}

impl<A: ActionNodeImpl> TreeNodeWrapper<A> {
    /// Wraps a node.
    pub fn new(node_wrapper: NodeWrapper<A>) -> (r: TreeNodeWrapper<A>)
        ensures
            r.node_wrapper == node_wrapper,
    {
        TreeNodeWrapper { node_wrapper }
    }

    /// Which kind of node this is.
    pub fn node_type(&self) -> (r: NodeType)
        ensures
            r == (match self.node_wrapper {
                NodeWrapper::Composite(_) => NodeType::Composite,
                NodeWrapper::Decorator(_) => NodeType::Decorator,
                NodeWrapper::Action(_) => NodeType::Action,
            }),
    {
        match &self.node_wrapper {
            NodeWrapper::Composite(_) => NodeType::Composite,
            NodeWrapper::Decorator(_) => NodeType::Decorator,
            NodeWrapper::Action(_) => NodeType::Action,
        }
    }

    /// The node's per-node data.
    pub fn data_proxy_ref(&self) -> (r: &DataProxy)
        ensures
            *r == self.proxy(),
    {
        match &self.node_wrapper {
            NodeWrapper::Composite(cp) => &cp.data_proxy,
            NodeWrapper::Decorator(dr) => &dr.data_proxy,
            NodeWrapper::Action(at) => &at.data_proxy,
        }
    }

    /// Mutable access to the node's per-node data; everything else in the
    /// tree is untouched while the borrow lives.
    pub fn data_proxy_ref_mut(&mut self) -> (r: &mut DataProxy)
        ensures
            *r == old(self).proxy(),
            final(self).proxy() == *final(r),
            final(self).height() == old(self).height(),
            final(self).kind_state_reset() == old(self).kind_state_reset(),
            final(self).kind_bounds() == old(self).kind_bounds(),
            (match (final(self).node_wrapper, old(self).node_wrapper) {
                (NodeWrapper::Composite(a), NodeWrapper::Composite(b)) => a.node_impl
                    == b.node_impl && a.child_nodes == b.child_nodes,
                (NodeWrapper::Decorator(a), NodeWrapper::Decorator(b)) => a.node_impl
                    == b.node_impl && a.inner_node == b.inner_node,
                (NodeWrapper::Action(a), NodeWrapper::Action(b)) => a.node == b.node,
                _ => false,
            }),
    {
        match &mut self.node_wrapper {
            NodeWrapper::Composite(cp) => &mut cp.data_proxy,
            NodeWrapper::Decorator(dr) => &mut dr.data_proxy,
            NodeWrapper::Action(at) => &mut at.data_proxy,
        }
    }

    /// The node's uid.
    pub fn uid(&self) -> (r: u16)
        ensures
            r == self.proxy().uid,
    {
        self.data_proxy_ref().uid()
    }

    /// Sets the node's uid.
    pub fn set_uid(&mut self, uid: u16)
        ensures
            final(self).proxy() == (DataProxy { uid, ..old(self).proxy() }),
            final(self).height() == old(self).height(),
    {
        self.data_proxy_ref_mut().set_uid(uid);
    }

    /// The node's current status.
    pub fn status(&self) -> (r: NodeStatus)
        ensures
            r == self.spec_status(),
    {
        self.data_proxy_ref().status()
    }

    /// Returns this node's own status to `Idle`, notifying observers.
    pub fn reset_status(&mut self)
        ensures
            final(self).spec_status() == NodeStatus::Idle,
            final(self).height() == old(self).height(),
            final(self).kind_state_reset() == old(self).kind_state_reset(),
            final(self).kind_bounds() == old(self).kind_bounds(),
            final(self).halted_below() == old(self).halted_below(),
            forall|n: int| #[trigger] final(self).scopes_lt(n) == old(self).scopes_lt(n),
            old(self).wf() && old(self).halted_below() ==> final(self).wf() && final(self).subtree_idle(),
            old(self).proxy().wf() ==> final(self).proxy().wf(),
            final(self).proxy().uid == old(self).proxy().uid,
            final(self).proxy().full_path == old(self).proxy().full_path,
            final(self).proxy().scope == old(self).proxy().scope,
            final(self).proxy().input_ports == old(self).proxy().input_ports,
            final(self).proxy().tick_trace == old(self).proxy().tick_trace,
            old(self).spec_status() == NodeStatus::Idle ==> *final(self) == *old(self),
    {
        match &mut self.node_wrapper {
            NodeWrapper::Composite(cp) => cp.data_proxy.reset_status(),
            NodeWrapper::Decorator(dr) => dr.data_proxy.reset_status(),
            NodeWrapper::Action(at) => at.data_proxy.reset_status(),
        }
    }

    /// One tick: the node is marked running on its first tick, the
    /// kind-specific logic runs (ticking children as it goes), a completed
    /// result halts the subtree, and the result is recorded and returned.
    pub fn tick(&mut self, bb: &mut Blackboards) -> (r: NodeStatus)
        requires
            old(self).wf(),
            old(bb).wf(),
            old(self).scopes_lt(old(bb).n_scopes()),
        ensures
            final(self).wf(),
            final(bb).wf(),
            final(bb).n_scopes() >= old(bb).n_scopes(),
            final(self).scopes_lt(final(bb).n_scopes()),
            final(self).height() == old(self).height(),
            r == final(self).spec_status(),
            (r == NodeStatus::Success || r == NodeStatus::Failure) ==> final(self).halted_below(),
            final(self).proxy().tick_trace@ == old(self).proxy().tick_trace@.push(r),
            (match (old(self).node_wrapper, final(self).node_wrapper) {
                (NodeWrapper::Composite(c0), NodeWrapper::Composite(c1)) => exists|obs: Seq<
                    NodeStatus,
                >|
                    r == composite_result(c0, *old(bb), obs) && #[trigger] composite_children_traces(
                        c0,
                        c1.child_nodes@,
                        obs,
                        r,
                    ),
                (NodeWrapper::Decorator(d0), NodeWrapper::Decorator(d1)) => exists|obs: Seq<
                    NodeStatus,
                >|
                    r == decorator_result(d0, *old(bb), obs) && #[trigger] decorator_inner_trace(
                        d0,
                        d1,
                        obs,
                    ),
                (NodeWrapper::Action(_), NodeWrapper::Action(_)) => true,
                _ => false,
            }),
        decreases old(self).height(), 3int,
    {
        match &mut self.node_wrapper {
            NodeWrapper::Composite(cp) => {
                let res = cp.tick(bb);
                proof {
                    assert(composite_children_traces(
                        old(self).node_wrapper->Composite_0,
                        cp.child_nodes@,
                        res.1@,
                        res.0,
                    ));
                }
                res.0
            },
            NodeWrapper::Decorator(dn) => {
                let res = dn.tick(bb);
                proof {
                    assert(decorator_inner_trace(
                        old(self).node_wrapper->Decorator_0,
                        *dn,
                        res.1@,
                    ));
                }
                res.0
            },
            NodeWrapper::Action(tn) => tn.tick(bb),
        }
    }

    /// Cancels the subtree: the kind state is reset and every descendant is
    /// returned to `Idle`.  Halting a subtree that is already fully reset
    /// changes nothing besides, possibly, the private state of user-defined
    /// action leaves.
    pub fn halt(&mut self)
        requires
            old(self).wf(),
        ensures
            final(self).wf(),
            final(self).halted_below(),
            final(self).proxy() == old(self).proxy(),
            final(self).height() == old(self).height(),
            forall|n: int| old(self).scopes_lt(n) ==> #[trigger] final(self).scopes_lt(n),
            old(self).halted_below() ==> same_framework(*old(self), *final(self)),
        decreases old(self).height(), 2int,
    {
        match &mut self.node_wrapper {
            NodeWrapper::Composite(cp) => cp.halt(),
            NodeWrapper::Decorator(dn) => dn.halt(),
            NodeWrapper::Action(tn) => tn.halt(),
        }
    }
}


/// The uids of the first `i` nodes' subtrees, in order.
pub open spec fn uid_seq_children<A>(s: Seq<TreeNodeWrapper<A>>, i: int) -> Seq<u16>
    decreases s, i,
{
    if i <= 0 || i > s.len() {
        Seq::empty()
    } else {
        uid_seq_children(s, i - 1) + s[i - 1].uid_seq()
    }
}

impl<A> TreeNodeWrapper<A> {
    /// All uids of the subtree, in preorder.
    pub open spec fn uid_seq(self) -> Seq<u16>
        decreases self, 0int,
    {
        seq![self.proxy().uid] + (match self.node_wrapper {
            NodeWrapper::Composite(c) => uid_seq_children(
                c.child_nodes@,
                c.child_nodes@.len() as int,
            ),
            NodeWrapper::Decorator(d) => (*d.inner_node).uid_seq(),
            NodeWrapper::Action(_) => Seq::empty(),
        })
    }

    /// Every node's full path extends `base` by one slash-free element
    /// name, and every child's path extends its parent's path after a
    /// slash: paths are the slash-joined element names from the root.
    pub open spec fn paths_from(self, base: Seq<char>) -> bool
        decreases self, 0int,
    {
        let full = self.proxy().full_path@;
        &&& full.len() >= base.len()
        &&& full.take(base.len() as int) == base
        &&& forall|k: int| base.len() <= k < full.len() ==> full[k] != '/'
        &&& match self.node_wrapper {
            NodeWrapper::Composite(c) => forall|i: int|
                0 <= i < c.child_nodes@.len() ==> (#[trigger] c.child_nodes@[i]).paths_from(
                    full.push('/'),
                ),
            NodeWrapper::Decorator(d) => (*d.inner_node).paths_from(full.push('/')),
            NodeWrapper::Action(_) => true,
        }
    }
}

/// Every listed uid lies in `[lo, hi)`.
pub open spec fn uids_in_range(s: Seq<u16>, lo: int, hi: int) -> bool {
    forall|k: int| 0 <= k < s.len() ==> lo <= #[trigger] s[k] < hi
}

/// Concatenating duplicate-free uid runs from disjoint ranges gives a
/// duplicate-free run.
pub proof fn lemma_no_dup_concat(a: Seq<u16>, b: Seq<u16>, la: int, ha: int, lb: int, hb: int)
    requires
        a.no_duplicates(),
        b.no_duplicates(),
        uids_in_range(a, la, ha),
        uids_in_range(b, lb, hb),
        la <= ha,
        ha <= lb,
        lb <= hb,
    ensures
        (a + b).no_duplicates(),
        uids_in_range(a + b, la, hb),
    decreases a.len(),
{
    let c = a + b;
    assert forall|i: int, j: int| 0 <= i < j < c.len() implies c[i] != c[j] by {
        if i < a.len() && j < a.len() {
            assert(c[i] == a[i] && c[j] == a[j]);
        } else if i < a.len() {
            assert(c[i] == a[i] && c[j] == b[j - a.len()]);
            assert(c[i] < ha && lb <= c[j]);
        } else {
            assert(c[i] == b[i - a.len()] && c[j] == b[j - a.len()]);
        }
    }
    assert forall|k: int| 0 <= k < c.len() implies la <= #[trigger] c[k] < hb by {
        if k < a.len() {
            assert(c[k] == a[k]);
        } else {
            assert(c[k] == b[k - a.len()]);
        }
    }
}

/// The uid run of a child prefix depends only on those children.
pub proof fn lemma_uid_seq_children_congruent<A>(
    s1: Seq<TreeNodeWrapper<A>>,
    s2: Seq<TreeNodeWrapper<A>>,
    i: int,
)
    requires
        i <= s1.len(),
        i <= s2.len(),
        forall|j: int| 0 <= j < i ==> #[trigger] s1[j] == s2[j],
    ensures
        uid_seq_children(s1, i) == uid_seq_children(s2, i),
    decreases i,
{
    if i > 0 {
        lemma_uid_seq_children_congruent(s1, s2, i - 1);
    }
}

/// A built tree together with its blackboard scopes, ready to tick.
pub struct BtTree<A> {
    root: TreeNodeWrapper<A>,
    blackboards: Blackboards,
}

impl<A> BtTree<A> {
    /// The tree is well-formed and every node reads an existing scope.
    /// Construction establishes this and every method keeps it.
    pub closed spec fn inv(self) -> bool {
        &&& self.root.wf()
        &&& self.blackboards.wf()
        &&& self.root.scopes_lt(self.blackboards.n_scopes())
    }

    /// The root node.
    pub closed spec fn spec_root(self) -> TreeNodeWrapper<A> {
        self.root
    }

    /// The blackboard scopes.
    pub closed spec fn spec_blackboards(self) -> Blackboards {
        self.blackboards
    }
}

impl<A: ActionNodeImpl> BtTree<A> {
    /// Packs a built root with its scopes.
    pub fn assemble(root: TreeNodeWrapper<A>, blackboards: Blackboards) -> (r: BtTree<A>)
        requires
            root.wf(),
            blackboards.wf(),
            root.scopes_lt(blackboards.n_scopes()),
        ensures
            r.inv(),
            r.spec_root() == root,
            r.spec_blackboards() == blackboards,
    {
        BtTree { root, blackboards }
    }

    /// A shared borrow of the root node.
    pub fn root(&self) -> (r: &TreeNodeWrapper<A>)
        ensures
            *r == self.spec_root(),
    {
        &self.root
    }

    /// One tick of the whole tree.
    pub fn tick(&mut self) -> (r: NodeStatus)
        requires
            old(self).inv(),
        ensures
            final(self).inv(),
            r == final(self).spec_root().spec_status(),
            (r == NodeStatus::Success || r == NodeStatus::Failure)
                ==> final(self).spec_root().halted_below(),
            final(self).spec_root().proxy().tick_trace@ == old(self).spec_root().proxy().tick_trace@.push(r),
            (match (old(self).spec_root().node_wrapper, final(self).spec_root().node_wrapper) {
                (NodeWrapper::Composite(c0), NodeWrapper::Composite(c1)) => exists|obs: Seq<
                    NodeStatus,
                >|
                    r == composite_result(c0, old(self).spec_blackboards(), obs)
                        && #[trigger] composite_children_traces(c0, c1.child_nodes@, obs, r),
                (NodeWrapper::Decorator(d0), NodeWrapper::Decorator(d1)) => exists|obs: Seq<
                    NodeStatus,
                >|
                    r == decorator_result(d0, old(self).spec_blackboards(), obs)
                        && #[trigger] decorator_inner_trace(d0, d1, obs),
                (NodeWrapper::Action(_), NodeWrapper::Action(_)) => true,
                _ => false,
            }),
    {
        self.root.tick(&mut self.blackboards)
    }

    /// Cancels the whole tree.
    pub fn halt(&mut self)
        requires
            old(self).inv(),
        ensures
            final(self).inv(),
            final(self).spec_root().halted_below(),
    {
        self.root.halt();
    }

    /// The root's current status.
    pub fn status(&self) -> (r: NodeStatus)
        ensures
            r == self.spec_root().spec_status(),
    {
        self.root.status()
    }

    /// Halts the tree and returns it to `Idle`: a node leaves a completed
    /// status only via an explicit reset after halting.
    pub fn reset_status(&mut self)
        requires
            old(self).inv(),
        ensures
            final(self).inv(),
            final(self).spec_root().subtree_idle(),
    {
        self.root.halt();
        self.root.reset_status();
    }

    /// Looks `key` up in the blackboard scope `scope`, walking parents.
    pub fn get_entry(&self, scope: usize, key: &str) -> (r: Option<crate::value::BtValue>)
        requires
            self.inv(),
        ensures
            scope < self.spec_blackboards().n_scopes() ==> (match r {
                Some(v) => self.spec_blackboards().spec_get_entry(scope as int, key@) == Some(v@),
                None => self.spec_blackboards().spec_get_entry(scope as int, key@) is None,
            }),
            scope >= self.spec_blackboards().n_scopes() ==> r is None,
    {
        if scope < self.blackboards.scopes.len() {
            self.blackboards.get_entry(scope, key)
        } else {
            None
        }
    }

    /// Writes `value` under `key` into the blackboard scope `scope`;
    /// false when the scope does not exist.
    pub fn set_entry(&mut self, scope: usize, key: String, value: crate::value::BtValue) -> (r:
        bool)
        requires
            old(self).inv(),
        ensures
            final(self).inv(),
            r == (scope < old(self).spec_blackboards().n_scopes()),
            final(self).spec_root() == old(self).spec_root(),
    {
        if scope < self.blackboards.scopes.len() {
            let ghost pre = self.blackboards.n_scopes();
            self.blackboards.set(scope, key, value);
            proof {
                lemma_scopes_lt_mono(self.root, pre, self.blackboards.n_scopes());
            }
            true
        } else {
            false
        }
    }

    /// How many blackboard scopes the tree has.
    pub fn n_scopes(&self) -> (r: usize)
        ensures
            r as int == self.spec_blackboards().n_scopes(),
    {
        self.blackboards.scopes.len()
    }
}


/// The depth passed on to children: one more, saturating.
pub open spec fn spec_next_layer(layer: int) -> int {
    if layer < u16::MAX {
        layer + 1
    } else {
        layer
    }
}

/// `layer` tab characters.
pub open spec fn spec_tabs(layer: int) -> Seq<char>
    decreases layer,
{
    if layer <= 0 {
        Seq::empty()
    } else {
        spec_tabs(layer - 1) + "\t"@
    }
}

/// The textual dump of one subtree: one line per node in preorder, each
/// starting on a fresh line, indented one tab per level, reading
/// `uid= <uid> path= <full path>`.
pub open spec fn spec_node_info<A>(t: TreeNodeWrapper<A>, layer: int) -> Seq<char>
    decreases t, 0int,
{
    "\n"@ + spec_tabs(layer) + "uid= "@ + crate::value::spec_decimal(t.proxy().uid as int)
        + " path= "@ + t.proxy().full_path@ + (match t.node_wrapper {
        NodeWrapper::Composite(c) => spec_children_info(
            c.child_nodes@,
            c.child_nodes@.len() as int,
            spec_next_layer(layer),
        ),
        NodeWrapper::Decorator(d) => spec_node_info(*d.inner_node, spec_next_layer(layer)),
        NodeWrapper::Action(_) => Seq::empty(),
    })
}

/// The concatenated dumps of the first `i` children.
pub open spec fn spec_children_info<A>(
    s: Seq<TreeNodeWrapper<A>>,
    i: int,
    layer: int,
) -> Seq<char>
    decreases s, i,
{
    if i <= 0 || i > s.len() {
        Seq::empty()
    } else {
        spec_children_info(s, i - 1, layer) + spec_node_info(s[i - 1], layer)
    }
}

/// A node's label in the graph dump: its uid and element name, quoted.
pub open spec fn spec_dot_label<A>(t: TreeNodeWrapper<A>) -> Seq<char> {
    "\""@ + crate::value::spec_decimal(t.proxy().uid as int) + "_"@
        + crate::node::spec_tail_after_slash(t.proxy().full_path@) + "\""@
}

/// The edges of the subtree rooted at `t`, each parent label pointing at
/// its child's label; a self-edge at the root is left out.
pub open spec fn spec_dot_edges<A>(t: TreeNodeWrapper<A>, parent_label: Seq<char>) -> Seq<char>
    decreases t, 0int,
{
    (if parent_label == spec_dot_label(t) {
        Seq::empty()
    } else {
        parent_label + " -> "@ + spec_dot_label(t) + ";\n"@
    }) + (match t.node_wrapper {
        NodeWrapper::Composite(c) => spec_dot_children(
            c.child_nodes@,
            c.child_nodes@.len() as int,
            spec_dot_label(t),
        ),
        NodeWrapper::Decorator(d) => spec_dot_edges(*d.inner_node, spec_dot_label(t)),
        NodeWrapper::Action(_) => Seq::empty(),
    })
}

/// The concatenated edge runs of the first `i` children.
pub open spec fn spec_dot_children<A>(
    s: Seq<TreeNodeWrapper<A>>,
    i: int,
    parent_label: Seq<char>,
) -> Seq<char>
    decreases s, i,
{
    if i <= 0 || i > s.len() {
        Seq::empty()
    } else {
        spec_dot_children(s, i - 1, parent_label) + spec_dot_edges(s[i - 1], parent_label)
    }
}

impl<A: ActionNodeImpl> TreeNodeWrapper<A> {
    /// The node's own element name: the tail of its full path.
    pub fn path(&self) -> (r: &str)
        ensures
            r@ == crate::node::spec_tail_after_slash(self.proxy().full_path@),
    {
        self.data_proxy_ref().path()
    }

    /// A multi-line description of the subtree: one line per node, in
    /// preorder, indented one tab per level, reading
    /// `uid= <uid> path= <full path>`.
    pub fn node_info(&self) -> (r: String)
        ensures
            r@ == spec_node_info(*self, 0),
    {
        let mut info = String::new();
        self.node_info_rec(0, &mut info);
        proof {
            assert(info@ =~= spec_node_info(*self, 0));
        }
        info
    }

    fn node_info_rec(&self, layer: u16, out: &mut String)
        ensures
            final(out)@ == old(out)@ + spec_node_info(*self, layer as int),
        decreases self.height(),
    {
        out.append("\n");
        let mut k: u16 = 0;
        proof {
            assert(spec_tabs(0) =~= Seq::<char>::empty());
        }
        while k < layer
            invariant
                k <= layer,
                out@ == old(out)@ + "\n"@ + spec_tabs(k as int),
            decreases layer - k,
        {
            out.append("\t");
            k = k + 1;
        }
        out.append("uid= ");
        let u = u16_to_string(self.data_proxy_ref().uid());
        out.append(u.as_str());
        out.append(" path= ");
        out.append(self.data_proxy_ref().full_path());
        let ghost header = old(out)@ + "\n"@ + spec_tabs(layer as int) + "uid= "@
            + crate::value::spec_decimal(self.proxy().uid as int) + " path= "@
            + self.proxy().full_path@;
        proof {
            assert(out@ =~= header);
        }
        let next_layer = if layer < u16::MAX {
            layer + 1
        } else {
            layer
        };
        match &self.node_wrapper {
            NodeWrapper::Composite(c) => {
                let n = c.child_nodes.len();
                let mut i: usize = 0;
                proof {
                    assert(spec_children_info(c.child_nodes@, 0, next_layer as int) =~= Seq::<
                        char,
                    >::empty());
                }
                while i < n
                    invariant
                        i <= n,
                        n == c.child_nodes@.len(),
                        self.node_wrapper matches NodeWrapper::Composite(cc) && cc == *c,
                        next_layer as int == spec_next_layer(layer as int),
                        out@ == header + spec_children_info(c.child_nodes@, i as int, next_layer as int),
                    decreases n - i,
                {
                    proof {
                        lemma_child_height_le(c.child_nodes@, n as int, i as int);
                    }
                    c.child_nodes[i].node_info_rec(next_layer, out);
                    proof {
                        assert(out@ =~= header + spec_children_info(
                            c.child_nodes@,
                            i + 1,
                            next_layer as int,
                        ));
                    }
                    i = i + 1;
                }
                proof {
                    assert(out@ =~= old(out)@ + spec_node_info(*self, layer as int));
                }
            },
            NodeWrapper::Decorator(d) => {
                d.inner_node.node_info_rec(next_layer, out);
                proof {
                    assert(out@ =~= old(out)@ + spec_node_info(*self, layer as int));
                }
            },
            NodeWrapper::Action(_) => {
                proof {
                    assert(out@ =~= old(out)@ + spec_node_info(*self, layer as int));
                }
            },
        }
    }

    /// The node's label in the graph dump: `"<uid>_<name>"`.
    fn dot_label(&self) -> (r: String)
        ensures
            r@ == spec_dot_label(*self),
    {
        let mut l = String::new();
        l.append("\"");
        let u = u16_to_string(self.data_proxy_ref().uid());
        l.append(u.as_str());
        l.append("_");
        l.append(self.path());
        l.append("\"");
        proof {
            assert(l@ =~= spec_dot_label(*self));
        }
        l
    }

    /// The tree in the DOT graph format: `digraph G { ... }` with one edge
    /// per parent-child pair, labelled `"<uid>_<name>"`.
    pub fn dot_info(&self) -> (r: String)
        ensures
            r@ == "digraph G {"@ + spec_dot_edges(*self, spec_dot_label(*self)) + "}"@,
    {
        let mut dot_s = String::new();
        dot_s.append("digraph G {");
        proof {
            assert(dot_s@ =~= "digraph G {"@);
        }
        self.dot_info_construct(self, &mut dot_s);
        dot_s.append("}");
        proof {
            assert(dot_s@ =~= "digraph G {"@ + spec_dot_edges(*self, spec_dot_label(*self))
                + "}"@);
        }
        dot_s
    }

    fn dot_info_construct(&self, parent: &TreeNodeWrapper<A>, content: &mut String)
        ensures
            final(content)@ == old(content)@ + spec_dot_edges(*self, spec_dot_label(*parent)),
        decreases self.height(),
    {
        let p = parent.dot_label();
        let node_s = self.dot_label();
        if !crate::text::str_eq(p.as_str(), node_s.as_str()) {
            content.append(p.as_str());
            content.append(" -> ");
            content.append(node_s.as_str());
            content.append(";\n");
        }
        let ghost header = old(content)@ + (if spec_dot_label(*parent) == spec_dot_label(*self) {
            Seq::<char>::empty()
        } else {
            spec_dot_label(*parent) + " -> "@ + spec_dot_label(*self) + ";\n"@
        });
        proof {
            assert(content@ =~= header);
        }
        match &self.node_wrapper {
            NodeWrapper::Composite(c) => {
                let n = c.child_nodes.len();
                let mut i: usize = 0;
                proof {
                    assert(spec_dot_children(c.child_nodes@, 0, spec_dot_label(*self)) =~= Seq::<
                        char,
                    >::empty());
                }
                while i < n
                    invariant
                        i <= n,
                        n == c.child_nodes@.len(),
                        self.node_wrapper matches NodeWrapper::Composite(cc) && cc == *c,
                        content@ == header + spec_dot_children(
                            c.child_nodes@,
                            i as int,
                            spec_dot_label(*self),
                        ),
                    decreases n - i,
                {
                    proof {
                        lemma_child_height_le(c.child_nodes@, n as int, i as int);
                    }
                    c.child_nodes[i].dot_info_construct(self, content);
                    proof {
                        assert(content@ =~= header + spec_dot_children(
                            c.child_nodes@,
                            i + 1,
                            spec_dot_label(*self),
                        ));
                    }
                    i = i + 1;
                }
                proof {
                    assert(content@ =~= old(content)@ + spec_dot_edges(
                        *self,
                        spec_dot_label(*parent),
                    ));
                }
            },
            NodeWrapper::Decorator(d) => {
                d.inner_node.dot_info_construct(self, content);
                proof {
                    assert(content@ =~= old(content)@ + spec_dot_edges(
                        *self,
                        spec_dot_label(*parent),
                    ));
                }
            },
            NodeWrapper::Action(_) => {
                proof {
                    assert(content@ =~= old(content)@ + spec_dot_edges(
                        *self,
                        spec_dot_label(*parent),
                    ));
                }
            },
        }
    }
}


impl<A: ActionNodeImpl> crate::TreeNode for TreeNodeWrapper<A> {
    open spec fn tick_ready(&self, bb: &Blackboards) -> bool {
        self.wf() && bb.wf() && self.scopes_lt(bb.n_scopes())
    }

    open spec fn halt_ready(&self) -> bool {
        self.wf()
    }

    fn tick(&mut self, bb: &mut Blackboards) -> NodeStatus {
        let r = TreeNodeWrapper::<A>::tick(self, bb);
        r
    }

    fn halt(&mut self) {
        TreeNodeWrapper::<A>::halt(self);
    }
}


/// What a traversal of the tree implements: one call per node, preorder,
/// with the node's depth below the root.
pub trait NodeVisitor<A> {
    /// Called once for every node.
    fn visit(&mut self, node: &TreeNodeWrapper<A>, depth: u16);
}

impl<A: ActionNodeImpl> TreeNodeWrapper<A> {
    /// Walks the subtree in preorder, handing each node and its depth to
    /// the visitor.
    pub fn apply_recursive_visitor<V: NodeVisitor<A>>(&self, visitor: &mut V) {
        self.apply_recursive_visitor_impl(0, visitor);
    }

    fn apply_recursive_visitor_impl<V: NodeVisitor<A>>(&self, layer: u16, visitor: &mut V)
        decreases self.height(),
    {
        visitor.visit(self, layer);
        let next_layer = if layer < u16::MAX {
            layer + 1
        } else {
            layer
        };
        match &self.node_wrapper {
            NodeWrapper::Composite(c) => {
                let n = c.child_nodes.len();
                let mut i: usize = 0;
                while i < n
                    invariant
                        i <= n,
                        n == c.child_nodes@.len(),
                        self.node_wrapper matches NodeWrapper::Composite(cc) && cc == *c,
                    decreases n - i,
                {
                    proof {
                        lemma_child_height_le(c.child_nodes@, n as int, i as int);
                    }
                    c.child_nodes[i].apply_recursive_visitor_impl(next_layer, visitor);
                    i = i + 1;
                }
            },
            NodeWrapper::Decorator(d) => {
                d.inner_node.apply_recursive_visitor_impl(next_layer, visitor);
            },
            NodeWrapper::Action(_) => {},
        }
    }
}

} // verus!
