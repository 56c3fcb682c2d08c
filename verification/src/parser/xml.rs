//! The XML layer: a scanner turning an XML string into a flat list of
//! element events, and the builder that wires a behavior tree from them.
//!
//! The scanner covers the subset of XML the tree format uses: elements
//! with double- or single-quoted attributes, self-closing elements, text
//! content (skipped), comments, and declarations.  Entities are not
//! decoded; attribute values are taken as written.

use vstd::prelude::*;
use vstd::string::{StringExecFns, StrSliceExecFns};
use crate::BtError;
use crate::blackboard::Blackboards;
use crate::factory::Factory;
use crate::node::{strip_ref_tag, DataProxy};
use crate::node::action::ActionNodeImpl;
use crate::node::composite::{count_trues, CompositeNode};
use crate::node::decorator::DecoratorNode;
use crate::text::{assoc_find_str, push_char, str_eq, string_eq_str};
use crate::tree::{
    lemma_no_dup_concat, lemma_scopes_lt_mono, lemma_uid_seq_children_congruent, uid_seq_children,
    uids_in_range, BtTree, NodeWrapper, TreeNodeWrapper,
};
use crate::NodeStatus;

verus! {

/// One element event of the scanned document.
pub enum XmlEvent {
    /// `<name attrs...>`
    Start(String, Vec<(String, String)>),
    /// `<name attrs.../>`
    Empty(String, Vec<(String, String)>),
    /// `</name>`
    End(String),
}

/// No slash among the characters: element names never contain `/`, which
/// keeps node paths unambiguous.
pub open spec fn no_slash(n: Seq<char>) -> bool {
    forall|k: int| 0 <= k < n.len() ==> n[k] != '/'
}

/// The name opening an event carries no slash.
pub open spec fn event_name_ok(e: XmlEvent) -> bool {
    match e {
        XmlEvent::Start(n, _) => no_slash(n@),
        XmlEvent::Empty(n, _) => no_slash(n@),
        XmlEvent::End(_) => true,
    }
}

/// The characters of `s`, indexable.
fn chars_vec(s: &str) -> (v: Vec<char>)
    ensures
        v@ == s@,
{
    let n = s.unicode_len();
    let mut v: Vec<char> = Vec::new();
    let mut i: usize = 0;
    while i < n
        invariant
            n == s@.len(),
            i <= n,
            v@ == s@.take(i as int),
        decreases n - i,
    {
        v.push(s.get_char(i));
        proof {
            assert(s@.take(i + 1) =~= s@.take(i as int).push(s@[i as int]));
        }
        i = i + 1;
    }
    proof {
        assert(s@.take(n as int) =~= s@);
    }
    v
}

/// True on the XML whitespace characters.
fn is_ws(c: char) -> (r: bool) {
    c == ' ' || c == '\t' || c == '\n' || c == '\r'
}

/// The first position at or after `i` holding a non-whitespace character.
fn skip_ws(v: &Vec<char>, i: usize) -> (r: usize)
    requires
        i <= v@.len(),
    ensures
        i <= r <= v@.len(),
{
    let n = v.len();
    let mut j = i;
    while j < n && is_ws(v[j])
        invariant
            i <= j <= n,
            n == v@.len(),
        decreases n - j,
    {
        j = j + 1;
    }
    j
}

/// True on the characters that end an element or attribute name.
fn is_name_end(c: char) -> (r: bool)
    ensures
        c == '/' ==> r,
{
    is_ws(c) || c == '>' || c == '/' || c == '=' || c == '<' || c == '"' || c == '\''
}

/// Scans a name starting at `i`: the run of characters up to the next
/// delimiter.  Names never contain a slash.
fn scan_name(v: &Vec<char>, i: usize) -> (r: (String, usize))
    requires
        i <= v@.len(),
    ensures
        i <= r.1 <= v@.len(),
        no_slash(r.0@),
{
    let n = v.len();
    let mut j = i;
    let mut out = String::new();
    while j < n && !is_name_end(v[j])
        invariant
            i <= j <= n,
            n == v@.len(),
            no_slash(out@),
        decreases n - j,
    {
        push_char(&mut out, v[j]);
        j = j + 1;
    }
    (out, j)
}

/// Scans the attribute list of an element, up to and including the closing
/// `>`; the boolean is true for a self-closing `/>` element.
fn parse_attrs(v: &Vec<char>, i: usize) -> (r: Result<(Vec<(String, String)>, usize, bool), BtError>)
    requires
        i <= v@.len(),
    ensures
        r matches Ok(t) ==> i <= t.1 <= v@.len(),
{
    let n = v.len();
    let mut attrs: Vec<(String, String)> = Vec::new();
    let mut cur = i;
    loop
        invariant
            i <= cur <= n,
            n == v@.len(),
        decreases n - cur,
    {
        let j = skip_ws(v, cur);
        if j >= n {
            return Err(BtError::Xml("unterminated element".to_owned()));
        }
        let c = v[j];
        if c == '>' {
            return Ok((attrs, j + 1, false));
        }
        if c == '/' {
            if j + 1 < n && v[j + 1] == '>' {
                return Ok((attrs, j + 2, true));
            }
            return Err(BtError::Xml("malformed element end".to_owned()));
        }
        let (key, j2) = scan_name(v, j);
        if j2 == j {
            return Err(BtError::Xml("malformed attribute name".to_owned()));
        }
        let j3 = skip_ws(v, j2);
        if j3 >= n || v[j3] != '=' {
            return Err(BtError::Xml("attribute without value".to_owned()));
        }
        let j4 = skip_ws(v, j3 + 1);
        if j4 >= n || (v[j4] != '"' && v[j4] != '\'') {
            return Err(BtError::Xml("attribute value without quote".to_owned()));
        }
        let quote = v[j4];
        let mut j5 = j4 + 1;
        let mut value = String::new();
        while j5 < n && v[j5] != quote
            invariant
                j4 < j5 <= n,
                n == v@.len(),
            decreases n - j5,
        {
            push_char(&mut value, v[j5]);
            j5 = j5 + 1;
        }
        if j5 >= n {
            return Err(BtError::Xml("unterminated attribute value".to_owned()));
        }
        attrs.push((key, value));
        cur = j5 + 1;
    }
}

/// Scans the whole document into element events.  Text content, comments
/// and declarations are dropped; what remains are the `Start`, `Empty` and
/// `End` events of the elements, in document order, their names free of
/// slashes.
pub fn tokenize(s: &str) -> (r: Result<Vec<XmlEvent>, BtError>)
    ensures
        r matches Ok(events) ==> forall|k: int|
            0 <= k < events@.len() ==> event_name_ok(#[trigger] events@[k]),
{
    let v = chars_vec(s);
    let n = v.len();
    let mut out: Vec<XmlEvent> = Vec::new();
    let mut i: usize = 0;
    while i < n
        invariant
            i <= n,
            n == v@.len(),
            forall|k: int| 0 <= k < out@.len() ==> event_name_ok(#[trigger] out@[k]),
        decreases n - i,
    {
        if v[i] != '<' {
            i = i + 1;
            continue;
        }
        if i + 1 < n && v[i + 1] == '?' {
            // declaration: skip to the closing `?>`
            let mut j = i + 2;
            while j < n - 1 && !(v[j] == '?' && v[j + 1] == '>')
                invariant
                    2 <= n,
                    i + 2 <= j <= n,
                    n == v@.len(),
                decreases n - j,
            {
                j = j + 1;
            }
            if j >= n - 1 {
                return Err(BtError::Xml("unterminated declaration".to_owned()));
            }
            i = j + 2;
        } else if n - i > 3 && v[i + 1] == '!' && v[i + 2] == '-' && v[i + 3] == '-' {
            // comment: skip to the closing `-->`
            let mut j = i + 4;
            while j < n - 2 && !(v[j] == '-' && v[j + 1] == '-' && v[j + 2] == '>')
                invariant
                    4 <= n,
                    i + 4 <= j <= n,
                    n == v@.len(),
                decreases n - j,
            {
                j = j + 1;
            }
            if j >= n - 2 {
                return Err(BtError::Xml("unterminated comment".to_owned()));
            }
            i = j + 3;
        } else if i + 1 < n && v[i + 1] == '!' {
            // doctype or other markup declaration: skip to `>`
            let mut j = i + 2;
            while j < n && v[j] != '>'
                invariant
                    i + 2 <= j <= n,
                    n == v@.len(),
                decreases n - j,
            {
                j = j + 1;
            }
            if j >= n {
                return Err(BtError::Xml("unterminated markup declaration".to_owned()));
            }
            i = j + 1;
        } else if i + 1 < n && v[i + 1] == '/' {
            // end tag
            let (name, j) = scan_name(&v, i + 2);
            let j2 = skip_ws(&v, j);
            if j2 >= n || v[j2] != '>' {
                return Err(BtError::Xml("malformed end tag".to_owned()));
            }
            out.push(XmlEvent::End(name));
            i = j2 + 1;
        } else {
            // start tag
            if i + 1 >= n {
                return Err(BtError::Xml("unterminated element".to_owned()));
            }
            let (name, j) = scan_name(&v, i + 1);
            if j == i + 1 {
                return Err(BtError::Xml("missing element name".to_owned()));
            }
            match parse_attrs(&v, j) {
                Ok((attrs, j2, self_closing)) => {
                    if self_closing {
                        out.push(XmlEvent::Empty(name, attrs));
                    } else {
                        out.push(XmlEvent::Start(name, attrs));
                    }
                    if j2 <= i {
                        return Err(BtError::Xml("malformed element".to_owned()));
                    }
                    i = j2;
                },
                Err(e) => {
                    return Err(e);
                },
            }
        }
    }
    Ok(out)
}


/// The element name an event carries.
pub open spec fn spec_event_name(e: XmlEvent) -> Seq<char> {
    match e {
        XmlEvent::Start(n, _) => n@,
        XmlEvent::Empty(n, _) => n@,
        XmlEvent::End(n) => n@,
    }
}

/// The event range holding one `BehaviorTree` body, keyed by its `ID`.
pub struct TreeRange {
    pub id: String,
    pub start: usize,
    pub end: usize,
}

/// Every range lies within the event list.
pub open spec fn ranges_ok(ranges: Seq<TreeRange>, n: int) -> bool {
    forall|k: int|
        0 <= k < ranges.len() ==> ((#[trigger] ranges[k]).start <= ranges[k].end && ranges[k].end
            <= n)
}

/// The first range registered under `id`, if any.
fn find_tree_range<'a>(ranges: &'a Vec<TreeRange>, id: &str) -> (r: Option<&'a TreeRange>)
    ensures
        r matches Some(t) ==> exists|k: int| 0 <= k < ranges@.len() && ranges@[k] == *t,
{
    let n = ranges.len();
    let mut i: usize = 0;
    while i < n
        invariant
            i <= n,
            n == ranges@.len(),
        decreases n - i,
    {
        if string_eq_str(&ranges[i].id, id) {
            proof {
                assert(ranges@[i as int] == ranges@[i as int]);
            }
            return Some(&ranges[i]);
        }
        i = i + 1;
    }
    None
}

/// The index of the `End` event closing the `Start` event at `start_pos`,
/// strictly below `limit`.
fn find_matching_end(events: &Vec<XmlEvent>, start_pos: usize, limit: usize) -> (r: Result<
    usize,
    BtError,
>)
    requires
        start_pos < limit <= events@.len(),
    ensures
        r matches Ok(e) ==> start_pos < e < limit,
{
    let mut depth: usize = 0;
    let mut k = start_pos + 1;
    while k < limit
        invariant
            start_pos < k <= limit,
            limit <= events@.len(),
            depth < k,
        decreases limit - k,
    {
        match &events[k] {
            XmlEvent::Start(_, _) => {
                depth = depth + 1;
            },
            XmlEvent::End(_) => {
                if depth == 0 {
                    return Ok(k);
                }
                depth = depth - 1;
            },
            XmlEvent::Empty(_, _) => {},
        }
        k = k + 1;
    }
    Err(BtError::Xml("unterminated element".to_owned()))
}

/// Draws the next uid from the shared counter.
fn alloc_uid(counter: &mut u16) -> (r: Result<u16, BtError>)
    ensures
        r matches Ok(u) ==> u == *old(counter) && *final(counter) == *old(counter) + 1,
        r is Err ==> *final(counter) == *old(counter),
{
    if *counter == u16::MAX {
        Err(BtError::Raw("tree has too many nodes".to_owned()))
    } else {
        let u = *counter;
        *counter = u + 1;
        Ok(u)
    }
}

/// The full path of a node: its parent prefix followed by its own name.
fn node_path(prefix: &str, name: &str) -> (r: String)
    ensures
        r@ == prefix@ + name@,
{
    let mut p = String::new();
    p.append(prefix);
    p.append(name);
    proof {
        assert(p@ =~= prefix@ + name@);
    }
    p
}

/// The prefix a node hands its children: its own path and a slash.
fn child_prefix(path: &str) -> (r: String)
    ensures
        r@ == path@.push('/'),
{
    let mut p = String::new();
    p.append(path);
    p.append("/");
    proof {
        reveal_strlit("/");
        assert(p@ =~= path@.push('/'));
    }
    p
}

/// A path made of a prefix and a slash-free name extends the prefix by one
/// element.
proof fn lemma_path_shape(prefix: Seq<char>, name: Seq<char>)
    requires
        no_slash(name),
    ensures
        (prefix + name).len() >= prefix.len(),
        (prefix + name).take(prefix.len() as int) == prefix,
        forall|k: int| prefix.len() <= k < (prefix + name).len() ==> (prefix + name)[k] != '/',
{
    assert((prefix + name).take(prefix.len() as int) =~= prefix);
    assert forall|k: int|
        prefix.len() <= k < (prefix + name).len() implies (prefix + name)[k] != '/' by {
        assert((prefix + name)[k] == name[k - prefix.len()]);
    }
}

/// A fresh proxy for a node being built.
fn make_proxy(scope: usize, uid: u16, path: String) -> (r: DataProxy)
    ensures
        r.wf(),
        r.status == NodeStatus::Idle,
        r.uid == uid,
        r.scope == scope,
        r.full_path == path,
        r.notif_log@.len() == 0,
{
    let mut p = DataProxy::new(scope);
    p.set_full_path(path);
    p.set_uid(uid);
    proof {
        assert(p.wf());
    }
    p
}

/// A copy of the attribute list.
fn clone_attrs(attrs: &Vec<(String, String)>) -> (r: Vec<(String, String)>)
    ensures
        r@ == attrs@,
{
    let n = attrs.len();
    let mut out: Vec<(String, String)> = Vec::new();
    let mut i: usize = 0;
    while i < n
        invariant
            i <= n,
            n == attrs@.len(),
            out@ =~= attrs@.take(i as int),
        decreases n - i,
    {
        out.push((attrs[i].0.clone(), attrs[i].1.clone()));
        proof {
            assert(attrs@.take(i + 1) =~= attrs@.take(i as int).push(attrs@[i as int]));
        }
        i = i + 1;
    }
    proof {
        assert(attrs@.take(n as int) =~= attrs@);
    }
    out
}

/// The remappings a `SubTree` element installs: every attribute except
/// `ID`, its value stripped of braces.
fn collect_remappings(attrs: &Vec<(String, String)>) -> (r: Vec<(String, String)>) {
    let n = attrs.len();
    let mut out: Vec<(String, String)> = Vec::new();
    let mut i: usize = 0;
    while i < n
        invariant
            i <= n,
            n == attrs@.len(),
        decreases n - i,
    {
        if !string_eq_str(&attrs[i].0, "ID") {
            out.push((attrs[i].0.clone(), strip_ref_tag(attrs[i].1.as_str())));
        }
        i = i + 1;
    }
    out
}

/// Builds the node whose opening event stands at `pos`, and everything
/// below it.  Freshly built nodes are idle and reset; their uids are drawn
/// consecutively from `counter`, so they are distinct; their full paths
/// extend `prefix` with the slash-joined element names.
#[verifier::rlimit(30)]
fn build_node<A: ActionNodeImpl>(
    factory: &Factory,
    events: &Vec<XmlEvent>,
    pos: usize,
    end: usize,
    ranges: &Vec<TreeRange>,
    prefix: &str,
    scope: usize,
    bb: &mut Blackboards,
    counter: &mut u16,
    fuel: usize,
) -> (r: Result<(TreeNodeWrapper<A>, usize), BtError>)
    requires
        pos < end <= events@.len(),
        forall|k: int| 0 <= k < events@.len() ==> event_name_ok(#[trigger] events@[k]),
        ranges_ok(ranges@, events@.len() as int),
        old(bb).wf(),
        scope < old(bb).n_scopes(),
    ensures
        final(bb).wf(),
        final(bb).n_scopes() >= old(bb).n_scopes(),
        *final(counter) >= *old(counter),
        r matches Ok(p) ==> {
            &&& pos < p.1 <= end
            &&& p.0.wf()
            &&& p.0.subtree_idle()
            &&& p.0.scopes_lt(final(bb).n_scopes())
            &&& p.0.uid_seq().no_duplicates()
            &&& uids_in_range(p.0.uid_seq(), *old(counter) as int, *final(counter) as int)
            &&& p.0.paths_from(prefix@)
            &&& p.0.proxy().full_path@ == prefix@ + spec_event_name(events@[pos as int])
            &&& (crate::factory::is_composite_name(spec_event_name(events@[pos as int]))
                ==> p.0.node_wrapper is Composite)
            &&& (!crate::factory::is_composite_name(spec_event_name(events@[pos as int]))
                && crate::factory::is_decorator_name(spec_event_name(events@[pos as int]))
                ==> p.0.node_wrapper is Decorator)
            &&& (!crate::factory::is_composite_name(spec_event_name(events@[pos as int]))
                && !crate::factory::is_decorator_name(spec_event_name(events@[pos as int]))
                ==> p.0.node_wrapper is Action)
        },
    decreases fuel, end - pos, 1int,
{
    match &events[pos] {
        XmlEvent::End(_) => Err(BtError::Raw("unexpected end".to_owned())),
        XmlEvent::Empty(name, attrs) => {
            if factory.is_composite(name.as_str()) {
                let uid = alloc_uid(counter)?;
                let path = node_path(prefix, name.as_str());
                let ghost pathv = path@;
                let proxy = make_proxy(scope, uid, path);
                match factory.build_composite::<A>(name.as_str(), proxy, clone_attrs(attrs)) {
                    Some(cw) => {
                        let node = TreeNodeWrapper::new(NodeWrapper::Composite(cw));
                        proof {
                            composite_node_facts(
                                node,
                                pathv,
                                prefix@,
                                name@,
                                uid,
                                uid as int + 1,
                                scope as int,
                                bb.n_scopes(),
                            );
                        }
                        Ok((node, pos + 1))
                    },
                    None => Err(BtError::Raw("can't create node".to_owned())),
                }
            } else if factory.is_decorator(name.as_str()) {
                if str_eq(name.as_str(), "SubTree") {
                    let node = build_subtree(
                        factory,
                        events,
                        name.as_str(),
                        attrs,
                        ranges,
                        prefix,
                        scope,
                        bb,
                        counter,
                        fuel,
                    )?;
                    Ok((node, pos + 1))
                } else {
                    Err(BtError::Raw("no subtree node created".to_owned()))
                }
            } else {
                let uid = alloc_uid(counter)?;
                let path = node_path(prefix, name.as_str());
                let ghost pathv = path@;
                let proxy = make_proxy(scope, uid, path);
                match factory.build_action::<A>(name.as_str(), proxy, clone_attrs(attrs)) {
                    Some(node) => {
                        proof {
                            action_node_facts(node, pathv, prefix@, name@, uid, scope as int, bb.n_scopes());
                        }
                        Ok((node, pos + 1))
                    },
                    None => Err(BtError::Raw("can't create node".to_owned())),
                }
            }
        },
        XmlEvent::Start(name, attrs) => {
            if factory.is_composite(name.as_str()) {
                let uid = alloc_uid(counter)?;
                let path = node_path(prefix, name.as_str());
                let ghost pathv = path@;
                let cpfx = child_prefix(path.as_str());
                let proxy = make_proxy(scope, uid, path);
                let mut cw = match factory.build_composite::<A>(
                    name.as_str(),
                    proxy,
                    clone_attrs(attrs),
                ) {
                    Some(c) => c,
                    None => {
                        return Err(BtError::Raw("can't create node".to_owned()));
                    },
                };
                let ghost px = cw.data_proxy;
                let ghost ni = cw.node_impl;
                let mut cur = pos + 1;
                loop
                    invariant
                        pos < cur <= end,
                        end <= events@.len(),
                        forall|k: int|
                            0 <= k < events@.len() ==> event_name_ok(#[trigger] events@[k]),
                        ranges_ok(ranges@, events@.len() as int),
                        bb.wf(),
                        bb.n_scopes() >= old(bb).n_scopes(),
                        scope < bb.n_scopes(),
                        *counter >= uid as int + 1,
                        cw.data_proxy == px,
                        cw.node_impl == ni,
                        px.wf(),
                        px.status == NodeStatus::Idle,
                        px.uid == uid,
                        px.scope == scope,
                        px.full_path@ == pathv,
                        pathv == prefix@ + name@,
                        cpfx@ == pathv.push('/'),
                        uid == *old(counter),
                        no_slash(name@),
                        name@ == spec_event_name(events@[pos as int]),
                        crate::factory::is_composite_name(name@),
                        px.full_path@ == prefix@ + name@,
                        (ni matches CompositeNode::Sequence(st) ==> st.current_child_idx == 0),
                        (ni matches CompositeNode::Selector(st) ==> st.current_child_idx == 0),
                        (ni matches CompositeNode::Parallel(p) ==> p.success_count == 0
                            && p.failure_count == 0 && p.completed_list@.len() == 0),
                        forall|j: int|
                            0 <= j < cw.child_nodes@.len() ==> (#[trigger] cw.child_nodes@[j]).wf(),
                        forall|j: int|
                            0 <= j < cw.child_nodes@.len() ==> (#[trigger] cw.child_nodes@[j]).subtree_idle(),
                        forall|j: int|
                            0 <= j < cw.child_nodes@.len() ==> (#[trigger] cw.child_nodes@[j]).scopes_lt(
                                bb.n_scopes(),
                            ),
                        forall|j: int|
                            0 <= j < cw.child_nodes@.len() ==> (#[trigger] cw.child_nodes@[j]).paths_from(
                                pathv.push('/'),
                            ),
                        uid_seq_children(
                            cw.child_nodes@,
                            cw.child_nodes@.len() as int,
                        ).no_duplicates(),
                        uids_in_range(
                            uid_seq_children(cw.child_nodes@, cw.child_nodes@.len() as int),
                            uid as int + 1,
                            *counter as int,
                        ),
                    decreases end - cur,
                {
                    if cur >= end {
                        return Err(BtError::Xml("unterminated element".to_owned()));
                    }
                    let is_end = match &events[cur] {
                        XmlEvent::End(_) => true,
                        _ => false,
                    };
                    if is_end {
                        let matches_name = match &events[cur] {
                            XmlEvent::End(n2) => string_eq_str(n2, name.as_str()),
                            _ => false,
                        };
                        if !matches_name {
                            return Err(BtError::Raw("unexpected end".to_owned()));
                        }
                        let node = TreeNodeWrapper::new(NodeWrapper::Composite(cw));
                        proof {
                            composite_node_facts(
                                node,
                                pathv,
                                prefix@,
                                name@,
                                uid,
                                *counter as int,
                                scope as int,
                                bb.n_scopes(),
                            );
                        }
                        return Ok((node, cur + 1));
                    }
                    let ghost pre_counter = *counter;
                    let ghost pre_scopes = bb.n_scopes();
                    let ghost pre_children = cw.child_nodes@;
                    let child_res = build_node(
                        factory,
                        events,
                        cur,
                        end,
                        ranges,
                        cpfx.as_str(),
                        scope,
                        bb,
                        counter,
                        fuel,
                    );
                    match child_res {
                        Ok((child, next)) => {
                            cw.add_child(child);
                            proof {
                                let cs = cw.child_nodes@;
                                let i = pre_children.len() as int;
                                assert(cs == pre_children.push(child));
                                assert(cs[i] == child);
                                lemma_uid_seq_children_congruent(cs, pre_children, i);
                                assert(uid_seq_children(cs, i + 1) == uid_seq_children(cs, i)
                                    + child.uid_seq());
                                lemma_no_dup_concat(
                                    uid_seq_children(pre_children, i),
                                    child.uid_seq(),
                                    uid as int + 1,
                                    pre_counter as int,
                                    pre_counter as int,
                                    *counter as int,
                                );
                                assert forall|j: int| 0 <= j < cs.len() implies (
                                #[trigger] cs[j]).scopes_lt(bb.n_scopes()) by {
                                    if j < i {
                                        lemma_scopes_lt_mono(cs[j], pre_scopes, bb.n_scopes());
                                    }
                                }
                            }
                            cur = next;
                        },
                        Err(e) => {
                            return Err(e);
                        },
                    }
                }
            } else if factory.is_decorator(name.as_str()) {
                if str_eq(name.as_str(), "SubTree") {
                    let node = build_subtree(
                        factory,
                        events,
                        name.as_str(),
                        attrs,
                        ranges,
                        prefix,
                        scope,
                        bb,
                        counter,
                        fuel,
                    )?;
                    if pos + 1 >= end {
                        return Err(BtError::Xml("unterminated element".to_owned()));
                    }
                    let closed = match &events[pos + 1] {
                        XmlEvent::End(n2) => string_eq_str(n2, name.as_str()),
                        _ => false,
                    };
                    if !closed {
                        return Err(BtError::Raw("subtree element with a body".to_owned()));
                    }
                    Ok((node, pos + 2))
                } else {
                    let uid = alloc_uid(counter)?;
                    let path = node_path(prefix, name.as_str());
                    let ghost pathv = path@;
                    let cpfx = child_prefix(path.as_str());
                    if pos + 1 >= end {
                        return Err(BtError::Xml("unterminated element".to_owned()));
                    }
                    let ghost pre_counter = *counter;
                    let (inner, next) = build_node(
                        factory,
                        events,
                        pos + 1,
                        end,
                        ranges,
                        cpfx.as_str(),
                        scope,
                        bb,
                        counter,
                        fuel,
                    )?;
                    if next >= end {
                        return Err(BtError::Xml("unterminated element".to_owned()));
                    }
                    let closed = match &events[next] {
                        XmlEvent::End(n2) => string_eq_str(n2, name.as_str()),
                        _ => false,
                    };
                    if !closed {
                        return Err(BtError::Raw("decorator with more than one child".to_owned()));
                    }
                    let proxy = make_proxy(scope, uid, path);
                    match factory.build_decorator::<A>(
                        name.as_str(),
                        proxy,
                        clone_attrs(attrs),
                        inner,
                    ) {
                        Some(dw) => {
                            let node = TreeNodeWrapper::new(NodeWrapper::Decorator(dw));
                            proof {
                                decorator_node_facts(
                                    node,
                                    pathv,
                                    prefix@,
                                    name@,
                                    uid,
                                    *counter as int,
                                    scope as int,
                                    bb.n_scopes(),
                                );
                            }
                            Ok((node, next + 1))
                        },
                        None => Err(BtError::Raw("can't create decorator node".to_owned())),
                    }
                }
            } else {
                // an action leaf written with a separate end tag
                let uid = alloc_uid(counter)?;
                let path = node_path(prefix, name.as_str());
                let ghost pathv = path@;
                if pos + 1 >= end {
                    return Err(BtError::Xml("unterminated element".to_owned()));
                }
                let closed = match &events[pos + 1] {
                    XmlEvent::End(n2) => string_eq_str(n2, name.as_str()),
                    _ => false,
                };
                if !closed {
                    return Err(BtError::Raw("action element with children".to_owned()));
                }
                let proxy = make_proxy(scope, uid, path);
                match factory.build_action::<A>(name.as_str(), proxy, clone_attrs(attrs)) {
                    Some(node) => {
                        proof {
                            action_node_facts(node, pathv, prefix@, name@, uid, scope as int, bb.n_scopes());
                        }
                        Ok((node, pos + 2))
                    },
                    None => Err(BtError::Raw("can't create node".to_owned())),
                }
            }
        },
    }
}

/// Builds the subtree a `SubTree` element refers to, under a fresh
/// blackboard scope whose parent is the surrounding scope, and wraps it in
/// the `SubTree` decorator.
#[verifier::rlimit(30)]
fn build_subtree<A: ActionNodeImpl>(
    factory: &Factory,
    events: &Vec<XmlEvent>,
    name: &str,
    attrs: &Vec<(String, String)>,
    ranges: &Vec<TreeRange>,
    prefix: &str,
    scope: usize,
    bb: &mut Blackboards,
    counter: &mut u16,
    fuel: usize,
) -> (r: Result<TreeNodeWrapper<A>, BtError>)
    requires
        forall|k: int| 0 <= k < events@.len() ==> event_name_ok(#[trigger] events@[k]),
        ranges_ok(ranges@, events@.len() as int),
        old(bb).wf(),
        scope < old(bb).n_scopes(),
        name@ == "SubTree"@,
        no_slash(name@),
    ensures
        final(bb).wf(),
        final(bb).n_scopes() >= old(bb).n_scopes(),
        *final(counter) >= *old(counter),
        r matches Ok(t) ==> {
            &&& t.wf()
            &&& t.subtree_idle()
            &&& t.scopes_lt(final(bb).n_scopes())
            &&& t.uid_seq().no_duplicates()
            &&& uids_in_range(t.uid_seq(), *old(counter) as int, *final(counter) as int)
            &&& t.paths_from(prefix@)
            &&& t.proxy().full_path@ == prefix@ + name@
            &&& t.node_wrapper is Decorator
        },
    decreases fuel, 0int, 0int,
{
    if fuel == 0 {
        return Err(BtError::Raw("subtree nesting too deep".to_owned()));
    }
    let id = match assoc_find_str(attrs, "ID") {
        Some(i) => i.clone(),
        None => {
            return Err(BtError::Raw("no ID found for SubTree".to_owned()));
        },
    };
    let range = match find_tree_range(ranges, id.as_str()) {
        Some(t) => (t.start, t.end),
        None => {
            return Err(BtError::Raw("can't find range for tree".to_owned()));
        },
    };
    if range.0 >= range.1 {
        return Err(BtError::Raw("no subtree node created".to_owned()));
    }
    let uid = alloc_uid(counter)?;
    let ghost pre_counter = *counter;
    let path = node_path(prefix, name);
    let ghost pathv = path@;
    let cpfx = child_prefix(path.as_str());
    let child_scope = bb.new_with_parent(scope);
    let remappings = collect_remappings(attrs);
    bb.extend_parent_remappings(child_scope, remappings);
    let (inner, _rest) = build_node(
        factory,
        events,
        range.0,
        range.1,
        ranges,
        cpfx.as_str(),
        child_scope,
        bb,
        counter,
        fuel - 1,
    )?;
    let proxy = make_proxy(scope, uid, path);
    match factory.build_decorator::<A>(name, proxy, clone_attrs(attrs), inner) {
        Some(dw) => {
            let node = TreeNodeWrapper::new(NodeWrapper::Decorator(dw));
            proof {
                decorator_node_facts(
                    node,
                    pathv,
                    prefix@,
                    name@,
                    uid,
                    *counter as int,
                    scope as int,
                    bb.n_scopes(),
                );
            }
            Ok(node)
        },
        None => Err(BtError::Raw("can't create decorator node".to_owned())),
    }
}

/// What a freshly built composite node satisfies, given what its proxy,
/// kind state and children satisfy.
proof fn composite_node_facts<A>(
    node: TreeNodeWrapper<A>,
    pathv: Seq<char>,
    prefix: Seq<char>,
    name: Seq<char>,
    uid: u16,
    hi: int,
    scope: int,
    n_scopes: int,
)
    requires
        node.node_wrapper matches NodeWrapper::Composite(c) && {
            &&& c.data_proxy.wf()
            &&& c.data_proxy.status == NodeStatus::Idle
            &&& c.data_proxy.uid == uid
            &&& c.data_proxy.scope == scope
            &&& c.data_proxy.full_path@ == pathv
            &&& (c.node_impl matches CompositeNode::Sequence(s) ==> s.current_child_idx == 0)
            &&& (c.node_impl matches CompositeNode::Selector(s) ==> s.current_child_idx == 0)
            &&& (c.node_impl matches CompositeNode::Parallel(p) ==> p.success_count == 0
                && p.failure_count == 0 && p.completed_list@.len() == 0)
            &&& forall|j: int| 0 <= j < c.child_nodes@.len() ==> (#[trigger] c.child_nodes@[j]).wf()
            &&& forall|j: int|
                0 <= j < c.child_nodes@.len() ==> (#[trigger] c.child_nodes@[j]).subtree_idle()
            &&& forall|j: int|
                0 <= j < c.child_nodes@.len() ==> (#[trigger] c.child_nodes@[j]).scopes_lt(n_scopes)
            &&& forall|j: int|
                0 <= j < c.child_nodes@.len() ==> (#[trigger] c.child_nodes@[j]).paths_from(
                    pathv.push('/'),
                )
            &&& uid_seq_children(c.child_nodes@, c.child_nodes@.len() as int).no_duplicates()
            &&& uids_in_range(
                uid_seq_children(c.child_nodes@, c.child_nodes@.len() as int),
                uid as int + 1,
                hi,
            )
        },
        pathv == prefix + name,
        no_slash(name),
        uid as int + 1 <= hi,
        scope < n_scopes,
    ensures
        node.wf(),
        node.subtree_idle(),
        node.scopes_lt(n_scopes),
        node.uid_seq().no_duplicates(),
        uids_in_range(node.uid_seq(), uid as int, hi),
        node.paths_from(prefix),
{
    let c = node.node_wrapper->Composite_0;
    assert(count_trues(Seq::<bool>::empty(), 0) == 0);
    assert(node.kind_state_reset());
    assert(node.kind_bounds());
    assert(node.halted_below());
    assert(node.wf());
    assert(node.subtree_idle());
    assert(node.scopes_lt(n_scopes));
    let acc = uid_seq_children(c.child_nodes@, c.child_nodes@.len() as int);
    assert(node.uid_seq() == seq![uid] + acc);
    assert(seq![uid].no_duplicates());
    assert(uids_in_range(seq![uid], uid as int, uid as int + 1)) by {
        assert(seq![uid][0] == uid);
    }
    lemma_no_dup_concat(seq![uid], acc, uid as int, uid as int + 1, uid as int + 1, hi);
    lemma_path_shape(prefix, name);
    assert(node.paths_from(prefix));
}

/// What a freshly built decorator node satisfies.
proof fn decorator_node_facts<A>(
    node: TreeNodeWrapper<A>,
    pathv: Seq<char>,
    prefix: Seq<char>,
    name: Seq<char>,
    uid: u16,
    hi: int,
    scope: int,
    n_scopes: int,
)
    requires
        node.node_wrapper matches NodeWrapper::Decorator(d) && {
            &&& d.data_proxy.wf()
            &&& d.data_proxy.status == NodeStatus::Idle
            &&& d.data_proxy.uid == uid
            &&& d.data_proxy.scope == scope
            &&& d.data_proxy.full_path@ == pathv
            &&& (d.node_impl matches DecoratorNode::Repeat(p) ==> p.repeat_count == 0)
            &&& (d.node_impl matches DecoratorNode::Retry(p) ==> p.try_count == 0)
            &&& (*d.inner_node).wf()
            &&& (*d.inner_node).subtree_idle()
            &&& (*d.inner_node).scopes_lt(n_scopes)
            &&& (*d.inner_node).paths_from(pathv.push('/'))
            &&& (*d.inner_node).uid_seq().no_duplicates()
            &&& uids_in_range((*d.inner_node).uid_seq(), uid as int + 1, hi)
        },
        pathv == prefix + name,
        no_slash(name),
        uid as int + 1 <= hi,
        scope < n_scopes,
    ensures
        node.wf(),
        node.subtree_idle(),
        node.scopes_lt(n_scopes),
        node.uid_seq().no_duplicates(),
        uids_in_range(node.uid_seq(), uid as int, hi),
        node.paths_from(prefix),
{
    let d = node.node_wrapper->Decorator_0;
    assert(node.kind_state_reset());
    assert(node.wf());
    assert(node.subtree_idle());
    assert(node.scopes_lt(n_scopes));
    let acc = (*d.inner_node).uid_seq();
    assert(node.uid_seq() == seq![uid] + acc);
    assert(seq![uid].no_duplicates());
    assert(uids_in_range(seq![uid], uid as int, uid as int + 1)) by {
        assert(seq![uid][0] == uid);
    }
    lemma_no_dup_concat(seq![uid], acc, uid as int, uid as int + 1, uid as int + 1, hi);
    lemma_path_shape(prefix, name);
    assert(node.paths_from(prefix));
}

/// What a freshly built action leaf satisfies.
proof fn action_node_facts<A>(
    node: TreeNodeWrapper<A>,
    pathv: Seq<char>,
    prefix: Seq<char>,
    name: Seq<char>,
    uid: u16,
    scope: int,
    n_scopes: int,
)
    requires
        node.node_wrapper is Action,
        node.proxy().wf(),
        node.proxy().status == NodeStatus::Idle,
        node.proxy().uid == uid,
        node.proxy().scope == scope,
        node.proxy().full_path@ == pathv,
        pathv == prefix + name,
        no_slash(name),
        scope < n_scopes,
    ensures
        node.wf(),
        node.subtree_idle(),
        node.scopes_lt(n_scopes),
        node.uid_seq().no_duplicates(),
        uids_in_range(node.uid_seq(), uid as int, uid as int + 1),
        node.paths_from(prefix),
{
    assert(node.uid_seq() =~= seq![uid]);
    assert(node.uid_seq()[0] == uid);
    lemma_path_shape(prefix, name);
    assert(node.paths_from(prefix));
}

/// Builds the main behavior tree of the XML document `s`: the `root`
/// element's `main_tree_to_execute` attribute names the main
/// `BehaviorTree`; absent that, the first one is taken.  An element name
/// no registry recognizes fails the build, the stricter of the two
/// policies the format allows.  The built tree's node uids are pairwise
/// distinct and every node's full path is the slash-joined run of element
/// names from the tree root down to it.
pub fn create_bt_tree_from_xml_str<A: ActionNodeImpl>(factory: &Factory, s: &str) -> (r: Result<
    Option<BtTree<A>>,
    BtError,
>)
    ensures
        r matches Ok(Some(t)) ==> {
            &&& t.inv()
            &&& t.spec_root().subtree_idle()
            &&& t.spec_root().uid_seq().no_duplicates()
            &&& t.spec_root().paths_from(Seq::empty())
        },
{
    let events = match tokenize(s) {
        Ok(e) => e,
        Err(e) => {
            return Err(e);
        },
    };
    let n = events.len();
    // find the root element and its closing tag
    let mut root_start: usize = 0;
    let mut found_root = false;
    let mut main_id: Option<String> = None;
    let mut i: usize = 0;
    while i < n && !found_root
        invariant
            i <= n,
            n == events@.len(),
            found_root ==> root_start < n,
        decreases n - i, (if found_root { 0int } else { 1int }),
    {
        match &events[i] {
            XmlEvent::Start(nm, attrs) => {
                if string_eq_str(nm, "root") {
                    root_start = i;
                    found_root = true;
                    main_id = match assoc_find_str(attrs, "main_tree_to_execute") {
                        Some(v) => Some(v.clone()),
                        None => None,
                    };
                } else {
                    i = i + 1;
                }
            },
            _ => {
                i = i + 1;
            },
        }
    }
    if !found_root {
        return Err(BtError::Raw("no root range found".to_owned()));
    }
    let root_end = match find_matching_end(&events, root_start, n) {
        Ok(e) => e,
        Err(e) => {
            return Err(e);
        },
    };
    // collect the BehaviorTree bodies
    let mut ranges: Vec<TreeRange> = Vec::new();
    let mut k = root_start + 1;
    while k < root_end
        invariant
            root_start < k,
            root_end < n,
            n == events@.len(),
            ranges_ok(ranges@, n as int),
        decreases root_end - k,
    {
        match &events[k] {
            XmlEvent::Start(nm, attrs) => {
                let e = match find_matching_end(&events, k, root_end) {
                    Ok(e) => e,
                    Err(err) => {
                        return Err(err);
                    },
                };
                if string_eq_str(nm, "BehaviorTree") {
                    let id = match assoc_find_str(attrs, "ID") {
                        Some(v) => v.clone(),
                        None => {
                            return Err(BtError::Raw(
                                "no ID found in BehaviorTree element".to_owned(),
                            ));
                        },
                    };
                    ranges.push(TreeRange { id, start: k + 1, end: e });
                }
                k = e + 1;
            },
            XmlEvent::Empty(nm, attrs) => {
                if string_eq_str(nm, "BehaviorTree") {
                    let id = match assoc_find_str(attrs, "ID") {
                        Some(v) => v.clone(),
                        None => {
                            return Err(BtError::Raw(
                                "no ID found in BehaviorTree element".to_owned(),
                            ));
                        },
                    };
                    ranges.push(TreeRange { id, start: k + 1, end: k + 1 });
                }
                k = k + 1;
            },
            XmlEvent::End(_) => {
                return Err(BtError::Raw("unexpected end".to_owned()));
            },
        }
    }
    // select the main tree
    let main_range: (usize, usize) = match &main_id {
        Some(id) => {
            match find_tree_range(&ranges, id.as_str()) {
                Some(t) => (t.start, t.end),
                None => {
                    return Err(BtError::Raw("no main bt tree found".to_owned()));
                },
            }
        },
        None => {
            if ranges.len() == 0 {
                return Err(BtError::Raw("no main bt tree found".to_owned()));
            }
            (ranges[0].start, ranges[0].end)
        },
    };
    if main_range.0 >= main_range.1 {
        return Ok(None);
    }
    let mut bb = Blackboards::new();
    let root_scope = bb.new_root();
    let mut counter: u16 = 0;
    let fuel = if ranges.len() < usize::MAX {
        ranges.len() + 1
    } else {
        ranges.len()
    };
    let built = build_node::<A>(
        factory,
        &events,
        main_range.0,
        main_range.1,
        &ranges,
        "",
        root_scope,
        &mut bb,
        &mut counter,
        fuel,
    );
    match built {
        Ok((root, _next)) => {
            proof {
                reveal_strlit("");
                assert(""@ =~= Seq::<char>::empty());
            }
            Ok(Some(BtTree::assemble(root, bb)))
        },
        Err(e) => Err(e),
    }
}

} // verus!
