//! Per-node runtime data: the [`DataProxy`] binding a node to its blackboard
//! scope, its input ports, status, identity (uid and path), and the observer
//! channel on which status changes are published.

use vstd::prelude::*;
use vstd::string::StrSliceExecFns;
use tokio::sync::watch;
use crate::NodeStatus;
use crate::blackboard::Blackboards;
use crate::text::{assoc_set_str, assoc_find_str, push_char, spec_find_str};
use crate::value::{
    parse_usize, spec_model_as_usize, spec_parse_usize, BtValue, ValueModel,
};

pub mod action;
pub mod composite;
pub mod decorator;

verus! {

#[verifier::external_type_specification]
#[verifier::external_body]
#[verifier::reject_recursive_types(T)]
pub struct ExWatchSender<T>(watch::Sender<T>);

#[verifier::external_type_specification]
#[verifier::external_body]
#[verifier::reject_recursive_types(T)]
pub struct ExWatchReceiver<T>(watch::Receiver<T>);

/// One status change of one node, as published to observers.
#[derive(PartialEq, Eq, Structural, Debug, Clone, Copy)]
pub struct StateNotif {
    /// Wall-clock milliseconds; never decreasing for one node.
    pub ts: i64,
    pub uid: u16,
    pub prev_status: NodeStatus,
    pub new_status: NodeStatus,
}

/// Relies on tokio's `watch::channel`: creates a latest-value-wins channel
/// and returns its sender; the initial receiver is dropped, observers
/// subscribe on demand.
#[verifier::external_body]
fn watch_sender(init: StateNotif) -> watch::Sender<StateNotif> {
    let (tx, _rx) = watch::channel(init);
    tx
}

/// Relies on tokio's `watch::Sender::subscribe`: a new receiver that sees
/// the values sent after this call.
#[verifier::external_body]
fn watch_subscribe(s: &watch::Sender<StateNotif>) -> watch::Receiver<StateNotif> {
    s.subscribe()
}

/// Relies on tokio's `watch::Sender::receiver_count`: how many receivers
/// currently exist.
#[verifier::external_body]
fn watch_receiver_count(s: &watch::Sender<StateNotif>) -> usize {
    s.receiver_count()
}

/// Relies on tokio's `watch::Sender::send`: replaces the channel's value;
/// fails exactly when no receiver exists at that moment.
#[verifier::external_body]
fn watch_send(s: &watch::Sender<StateNotif>, n: StateNotif) -> bool {
    s.send(n).is_ok()
}

/// Relies on chrono's `Utc::now`: the current wall-clock time, converted by
/// chrono to milliseconds since the epoch.  Nothing is assumed of the value;
/// callers enforce monotonicity themselves.
#[verifier::external_body]
fn now_timestamp_millis() -> i64 {
    chrono::Utc::now().timestamp_millis()
}

/// True when a port spec is a blackboard reference of the form `{NAME}`.
pub open spec fn spec_is_ref(s: Seq<char>) -> bool {
    s.len() >= 2 && s.first() == '{' && s.last() == '}'
}

/// A port spec with every brace removed: the blackboard key a reference
/// denotes.
pub open spec fn spec_strip_ref(s: Seq<char>) -> Seq<char>
    decreases s.len(),
{
    if s.len() == 0 {
        Seq::empty()
    } else if s.last() == '{' || s.last() == '}' {
        spec_strip_ref(s.drop_last())
    } else {
        spec_strip_ref(s.drop_last()).push(s.last())
    }
}

/// True when `key` is a blackboard reference of the form `{NAME}`.
pub fn is_ref_key(key: &str) -> (r: bool)
    ensures
        r == spec_is_ref(key@),
{
    let n = key.unicode_len();
    n >= 2 && key.get_char(0) == '{' && key.get_char(n - 1) == '}'
}

/// Removes every brace from `key`.
pub fn strip_ref_tag(key: &str) -> (r: String)
    ensures
        r@ == spec_strip_ref(key@),
{
    let n = key.unicode_len();
    let mut out = String::new();
    let mut i: usize = 0;
    while i < n
        invariant
            n == key@.len(),
            i <= n,
            out@ == spec_strip_ref(key@.take(i as int)),
        decreases n - i,
    {
        let c = key.get_char(i);
        proof {
            assert(key@.take(i + 1).drop_last() =~= key@.take(i as int));
            assert(key@.take(i + 1).last() == key@[i as int]);
        }
        if c != '{' && c != '}' {
            push_char(&mut out, c);
        }
        i = i + 1;
    }
    proof {
        assert(key@.take(n as int) =~= key@);
    }
    out
}

/// What reading a string-typed input port yields: the port spec itself if
/// it is a literal, otherwise the string stored in the blackboard under the
/// referenced key.
pub open spec fn spec_get_input_str(
    ports: Seq<(String, String)>,
    bb: Blackboards,
    scope: int,
    key: Seq<char>,
) -> Option<Seq<char>> {
    match spec_find_str(ports, key) {
        None => None,
        Some(sp) => if spec_is_ref(sp) {
            match bb.spec_get_entry(scope, spec_strip_ref(sp)) {
                Some(ValueModel::Str(s)) => Some(s),
                _ => None,
            }
        } else {
            Some(sp)
        },
    }
}

/// What reading a numeric input port yields: the port spec parsed as a
/// decimal if it is a literal, otherwise the integer stored in the
/// blackboard under the referenced key, when it fits a `usize`.
pub open spec fn spec_get_input_usize(
    ports: Seq<(String, String)>,
    bb: Blackboards,
    scope: int,
    key: Seq<char>,
) -> Option<usize> {
    match spec_find_str(ports, key) {
        None => None,
        Some(sp) => if spec_is_ref(sp) {
            match bb.spec_get_entry(scope, spec_strip_ref(sp)) {
                Some(m) => spec_model_as_usize(m),
                None => None,
            }
        } else {
            match spec_parse_usize(sp) {
                Some(v) => Some(v as usize),
                None => None,
            }
        },
    }
}

/// The part of a path after its last slash; the whole path when it has
/// no slash.
pub open spec fn spec_tail_after_slash(s: Seq<char>) -> Seq<char>
    decreases s.len(),
{
    if s.len() == 0 {
        s
    } else if s.last() == '/' {
        Seq::empty()
    } else {
        spec_tail_after_slash(s.drop_last()).push(s.last())
    }
}

/// When everything from `i` on is slash-free and `i` sits just after a
/// slash (or at the start), the tail after the last slash is the suffix
/// from `i`.
proof fn lemma_tail_segment(s: Seq<char>, i: int)
    requires
        0 <= i <= s.len(),
        forall|k: int| i <= k < s.len() ==> s[k] != '/',
        i > 0 ==> s[i - 1] == '/',
    ensures
        spec_tail_after_slash(s) == s.subrange(i, s.len() as int),
    decreases s.len(),
{
    if i == s.len() {
        if s.len() > 0 {
            assert(s.last() == s[i - 1]);
        }
        assert(s.subrange(i, s.len() as int) =~= Seq::empty());
    } else {
        assert(s.last() == s[s.len() - 1]);
        assert(s.last() != '/');
        let pre = s.drop_last();
        assert(forall|k: int| i <= k < pre.len() ==> pre[k] == #[trigger] s[k]);
        lemma_tail_segment(pre, i);
        assert(pre.subrange(i, pre.len() as int).push(s.last()) =~= s.subrange(
            i,
            s.len() as int,
        ));
    }
}

/// Everything a node carries besides its children: its blackboard scope,
/// input ports, status, identity, and observer channel.
pub struct DataProxy {
    pub input_ports: Vec<(String, String)>,
    pub status: NodeStatus,
    pub uid: u16,
    pub full_path: String,
    pub scope: usize,
    pub state_observer: watch::Sender<StateNotif>,
    pub last_ts: i64,
    pub notif_log: Ghost<Seq<StateNotif>>,
    /// The results of this node's ticks, oldest first: the witness that a
    /// tick really consulted this node.  Only a node's own tick appends to
    /// it; halting and resetting leave it alone.
    pub tick_trace: Ghost<Seq<NodeStatus>>,
}

impl DataProxy {
    /// The published notifications carry non-decreasing timestamps, none
    /// newer than `last_ts`.
    pub open spec fn wf(self) -> bool {
        &&& forall|i: int|
            0 <= i < self.notif_log@.len() ==> (#[trigger] self.notif_log@[i]).ts <= self.last_ts
        &&& forall|i: int, j: int|
            0 <= i <= j < self.notif_log@.len() ==> (#[trigger] self.notif_log@[i]).ts <= (
            #[trigger] self.notif_log@[j]).ts
    }

    /// A proxy bound to `scope` with no ports, at `Idle`, uid 0.
    pub fn new(scope: usize) -> (r: DataProxy)
        ensures
            r.wf(),
            r.status == NodeStatus::Idle,
            r.uid == 0,
            r.scope == scope,
            r.input_ports@.len() == 0,
            r.full_path@.len() == 0,
            r.notif_log@.len() == 0,
            r.tick_trace@.len() == 0,
    {
        DataProxy::new_with_uid(0, scope, Vec::new())
    }

    /// A proxy bound to `scope` with the given uid and input ports.
    pub fn new_with_uid(uid: u16, scope: usize, input_ports: Vec<(String, String)>) -> (r:
        DataProxy)
        ensures
            r.wf(),
            r.status == NodeStatus::Idle,
            r.uid == uid,
            r.scope == scope,
            r.input_ports == input_ports,
            r.full_path@.len() == 0,
            r.notif_log@.len() == 0,
            r.tick_trace@.len() == 0,
    {
        let init = StateNotif {
            ts: 0,
            uid,
            prev_status: NodeStatus::Idle,
            new_status: NodeStatus::Idle,
        };
        DataProxy {
            input_ports,
            status: NodeStatus::Idle,
            uid,
            full_path: String::new(),
            scope,
            state_observer: watch_sender(init),
            last_ts: 0,
            notif_log: Ghost(Seq::empty()),
            tick_trace: Ghost(Seq::empty()),
        }
    }

    /// Sets the slash-joined path of this node within its tree.
    pub fn set_full_path(&mut self, full_path: String)
        ensures
            *final(self) == (DataProxy { full_path, ..*old(self) }),
    {
        self.full_path = full_path;
    }

    /// The slash-joined path of this node within its tree.
    pub fn full_path(&self) -> (r: &str)
        ensures
            r@ == self.full_path@,
    {
        self.full_path.as_str()
    }

    /// The node's own element name: the tail of its path after the last
    /// slash.
    pub fn path(&self) -> (r: &str)
        ensures
            r@ == spec_tail_after_slash(self.full_path@),
    {
        let fp = self.full_path.as_str();
        let n = fp.unicode_len();
        let mut i = n;
        while i > 0 && fp.get_char(i - 1) != '/'
            invariant
                i <= n,
                n == fp@.len(),
                fp@ == self.full_path@,
                forall|k: int| i <= k < n ==> fp@[k] != '/',
            decreases i,
        {
            i = i - 1;
        }
        proof {
            lemma_tail_segment(fp@, i as int);
        }
        fp.substring_char(i, n)
    }

    /// The blackboard scope this node reads and writes.
    pub fn scope(&self) -> (r: usize)
        ensures
            r == self.scope,
    {
        self.scope
    }

    /// Adds or overwrites one input port.
    pub fn add_input(&mut self, key: String, value: String)
        ensures
            final(self).status == old(self).status,
            final(self).uid == old(self).uid,
            final(self).full_path == old(self).full_path,
            final(self).scope == old(self).scope,
            final(self).state_observer == old(self).state_observer,
            final(self).last_ts == old(self).last_ts,
            final(self).notif_log == old(self).notif_log,
            final(self).tick_trace == old(self).tick_trace,
            forall|q: Seq<char>|
                spec_find_str(#[trigger] final(self).input_ports@, q) == (if q == key@ {
                    Some(value@)
                } else {
                    spec_find_str(old(self).input_ports@, q)
                }),
    {
        assoc_set_str(&mut self.input_ports, key, value);
    }

    /// Reads the input port `key` as a string: a literal spec is returned as
    /// written, a `{NAME}` spec is fetched from the blackboard.
    pub fn get_input_string(&self, bb: &Blackboards, key: &str) -> (r: Option<String>)
        requires
            bb.wf(),
            self.scope < bb.n_scopes(),
        ensures
            match r {
                Some(s) => spec_get_input_str(self.input_ports@, *bb, self.scope as int, key@)
                    == Some(s@),
                None => spec_get_input_str(self.input_ports@, *bb, self.scope as int, key@)
                    is None,
            },
    {
        match assoc_find_str(&self.input_ports, key) {
            None => None,
            Some(sp) => {
                if is_ref_key(sp.as_str()) {
                    let stripped = strip_ref_tag(sp.as_str());
                    match bb.get_entry(self.scope, stripped.as_str()) {
                        Some(v) => v.as_string(),
                        None => None,
                    }
                } else {
                    Some(sp.clone())
                }
            },
        }
    }

    /// Reads the input port `key` as a `usize`: a literal spec is parsed as
    /// a decimal, a `{NAME}` spec is fetched from the blackboard.
    pub fn get_input_usize(&self, bb: &Blackboards, key: &str) -> (r: Option<usize>)
        requires
            bb.wf(),
            self.scope < bb.n_scopes(),
        ensures
            r == spec_get_input_usize(self.input_ports@, *bb, self.scope as int, key@),
    {
        match assoc_find_str(&self.input_ports, key) {
            None => None,
            Some(sp) => {
                if is_ref_key(sp.as_str()) {
                    let stripped = strip_ref_tag(sp.as_str());
                    match bb.get_entry(self.scope, stripped.as_str()) {
                        Some(v) => v.as_usize(),
                        None => None,
                    }
                } else {
                    parse_usize(sp.as_str())
                }
            },
        }
    }

    /// Sets this node's uid.
    pub fn set_uid(&mut self, uid: u16)
        ensures
            *final(self) == (DataProxy { uid, ..*old(self) }),
    {
        self.uid = uid;
    }

    /// This node's uid.
    pub fn uid(&self) -> (r: u16)
        ensures
            r == self.uid,
    {
        self.uid
    }

    /// A new observer of this node's status changes.
    pub fn add_observer(&self) -> watch::Receiver<StateNotif> {
        watch_subscribe(&self.state_observer)
    }

    /// Sets the status back to `Idle`, notifying observers as
    /// [`Self::set_status`] does.
    pub fn reset_status(&mut self)
        ensures
            final(self).status == NodeStatus::Idle,
            final(self).uid == old(self).uid,
            final(self).full_path == old(self).full_path,
            final(self).scope == old(self).scope,
            final(self).input_ports == old(self).input_ports,
            final(self).state_observer == old(self).state_observer,
            final(self).tick_trace == old(self).tick_trace,
            old(self).wf() ==> final(self).wf(),
            final(self).last_ts >= old(self).last_ts,
            old(self).status == NodeStatus::Idle ==> *final(self) == *old(self),
    {
        self.set_status(NodeStatus::Idle);
    }

    /// Records `new_status`; on an actual change with observers attached,
    /// publishes a [`StateNotif`] stamped no earlier than any previous one.
    pub fn set_status(&mut self, new_status: NodeStatus)
        ensures
            final(self).status == new_status,
            final(self).uid == old(self).uid,
            final(self).full_path == old(self).full_path,
            final(self).scope == old(self).scope,
            final(self).input_ports == old(self).input_ports,
            final(self).state_observer == old(self).state_observer,
            final(self).tick_trace == old(self).tick_trace,
            old(self).wf() ==> final(self).wf(),
            final(self).last_ts >= old(self).last_ts,
            old(self).status == new_status ==> *final(self) == *old(self),
            final(self).notif_log@ == old(self).notif_log@ || final(self).notif_log@ == old(self).notif_log@.push(
                (StateNotif {
                    ts: final(self).last_ts,
                    uid: old(self).uid,
                    prev_status: old(self).status,
                    new_status,
                }),
            ),
    {
        if !status_eq(new_status, self.status) {
            if watch_receiver_count(&self.state_observer) > 0 {
                let now = now_timestamp_millis();
                let ts = if now > self.last_ts {
                    now
                } else {
                    self.last_ts
                };
                let notif = StateNotif {
                    ts,
                    uid: self.uid,
                    prev_status: self.status,
                    new_status,
                };
                let _delivered = watch_send(&self.state_observer, notif);
                self.last_ts = ts;
                proof {
                    self.notif_log@ = self.notif_log@.push(notif);
                }
            }
        }
        self.status = new_status;
    }

    /// The current status.
    pub fn status(&self) -> (r: NodeStatus)
        ensures
            r == self.status,
    {
        self.status
    }
}

/// Equality of two statuses.
fn status_eq(a: NodeStatus, b: NodeStatus) -> (r: bool)
    ensures
        r == (a == b),
{
    a == b
}

/// Successive notifications published by a single node carry non-decreasing
/// timestamps: observers see its status history in temporal order.
pub proof fn lemma_observer_monotonic(p: DataProxy, i: int, j: int)
    requires
        p.wf(),
        0 <= i <= j < p.notif_log@.len(),
    ensures
        p.notif_log@[i].ts <= p.notif_log@[j].ts,
{
}

} // verus!
