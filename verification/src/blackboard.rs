//! Scoped key-value stores shared by the nodes of a tree.
//!
//! Every subtree scope owns one [`Blackboard`]; all scopes of a tree live in
//! a single [`Blackboards`] arena and refer to their parent scope by index.
//! A scope's parent always has a smaller index, so parent chains cannot form
//! cycles.  Lookup of a key first tries the scope itself, then rewrites the
//! key through the scope's internal-to-external remapping and recurses into
//! the parent; writes are always local to one scope.

use vstd::prelude::*;
use crate::text::{assoc_find_str, assoc_set_str, spec_find_str, string_eq_str, vec_index_mut};
use crate::value::{BtValue, ValueModel};

verus! {

/// One blackboard scope: local entries, key remappings for lookups routed
/// to the parent, and the parent scope's index, if any.
pub struct Blackboard {
    pub entries: Vec<(String, BtValue)>,
    pub internal_to_external: Vec<(String, String)>,
    pub parent: Option<usize>,
}

/// All blackboard scopes of one tree, in creation order.
pub struct Blackboards {
    pub scopes: Vec<Blackboard>,
}

/// The value stored under `k`, by the first matching entry.
pub open spec fn spec_find_value(entries: Seq<(String, BtValue)>, k: Seq<char>) -> Option<
    ValueModel,
>
    decreases entries.len(),
{
    if entries.len() == 0 {
        None
    } else if entries[0].0@ == k {
        Some(entries[0].1@)
    } else {
        spec_find_value(entries.skip(1), k)
    }
}

/// Last-wins lookup over a batch of remappings about to be installed.
pub open spec fn spec_remap_of(adds: Seq<(String, String)>, k: Seq<char>) -> Option<Seq<char>>
    decreases adds.len(),
{
    if adds.len() == 0 {
        None
    } else if adds.last().0@ == k {
        Some(adds.last().1@)
    } else {
        spec_remap_of(adds.drop_last(), k)
    }
}

/// Replacing the first entry for a key changes exactly that key's lookup.
proof fn lemma_find_value_update(
    pre: Seq<(String, BtValue)>,
    post: Seq<(String, BtValue)>,
    i: int,
    k: Seq<char>,
    v: BtValue,
    q: Seq<char>,
)
    requires
        0 <= i < pre.len(),
        post =~= pre.update(i, (pre[i].0, v)),
        pre[i].0@ == k,
        forall|j: int| 0 <= j < i ==> (#[trigger] pre[j]).0@ != k,
    ensures
        spec_find_value(post, q) == (if q == k {
            Some(v@)
        } else {
            spec_find_value(pre, q)
        }),
    decreases i,
{
    if i == 0 {
        assert(post[0] == (pre[0].0, v));
        if q != k {
            assert(post.skip(1) =~= pre.skip(1));
        }
    } else {
        assert(post[0] == pre[0]);
        assert(pre[0].0@ != k);
        if q == pre[0].0@ {
        } else {
            assert(post.skip(1) =~= pre.skip(1).update(i - 1, (pre.skip(1)[i - 1].0, v)));
            lemma_find_value_update(pre.skip(1), post.skip(1), i - 1, k, v, q);
        }
    }
}

/// Appending an entry for an absent key changes exactly that key's lookup.
proof fn lemma_find_value_push(pre: Seq<(String, BtValue)>, k: String, v: BtValue, q: Seq<char>)
    requires
        forall|j: int| 0 <= j < pre.len() ==> (#[trigger] pre[j]).0@ != k@,
    ensures
        spec_find_value(pre.push((k, v)), q) == (if q == k@ {
            Some(v@)
        } else {
            spec_find_value(pre, q)
        }),
    decreases pre.len(),
{
    reveal_with_fuel(spec_find_value, 3);
    let post = pre.push((k, v));
    assert(post.len() == pre.len() + 1);
    if pre.len() == 0 {
        assert(post[0] == (k, v));
        assert(post.skip(1) =~= Seq::<(String, BtValue)>::empty());
    } else {
        assert(post[0] == pre[0]);
        assert(pre[0].0@ != k@);
        if q != pre[0].0@ {
            assert(post.skip(1) =~= pre.skip(1).push((k, v)));
            lemma_find_value_push(pre.skip(1), k, v, q);
        }
    }
}

impl Blackboard {
    /// Parent indices point strictly downwards in the arena.
    pub open spec fn parent_ok(self, i: int) -> bool {
        match self.parent {
            Some(p) => 0 <= p < i,
            None => true,
        }
    }

    /// A borrow of the first value stored under `key`, if any.
    fn find_value(&self, key: &str) -> (r: Option<&BtValue>)
        ensures
            match r {
                Some(v) => spec_find_value(self.entries@, key@) == Some(v@),
                None => spec_find_value(self.entries@, key@) is None,
            },
    {
        let n = self.entries.len();
        let mut i: usize = 0;
        proof {
            assert(self.entries@.skip(0) =~= self.entries@);
        }
        while i < n
            invariant
                i <= n,
                n == self.entries@.len(),
                spec_find_value(self.entries@, key@) == spec_find_value(
                    self.entries@.skip(i as int),
                    key@,
                ),
            decreases n - i,
        {
            proof {
                assert(self.entries@.skip(i as int)[0] == self.entries@[i as int]);
            }
            if string_eq_str(&self.entries[i].0, key) {
                return Some(&self.entries[i].1);
            }
            proof {
                assert(self.entries@.skip(i as int).skip(1) =~= self.entries@.skip(i + 1));
            }
            i = i + 1;
        }
        proof {
            assert(self.entries@.skip(n as int) =~= Seq::<(String, BtValue)>::empty());
        }
        None
    }

    /// A borrow of the external key `key` is remapped to, if any.
    fn find_remap(&self, key: &str) -> (r: Option<&String>)
        ensures
            match r {
                Some(e) => spec_find_str(self.internal_to_external@, key@) == Some(e@),
                None => spec_find_str(self.internal_to_external@, key@) is None,
            },
    {
        assoc_find_str(&self.internal_to_external, key)
    }

    /// Writes `value` under `key` in this scope: the first existing entry
    /// for the key is replaced, otherwise the entry is appended.
    fn set_value(&mut self, key: String, value: BtValue)
        ensures
            final(self).parent == old(self).parent,
            final(self).internal_to_external == old(self).internal_to_external,
            forall|q: Seq<char>|
                spec_find_value(#[trigger] final(self).entries@, q) == (if q == key@ {
                    Some(value@)
                } else {
                    spec_find_value(old(self).entries@, q)
                }),
    {
        let ghost pre = self.entries@;
        let ghost v = value;
        let n = self.entries.len();
        let mut i: usize = 0;
        while i < n
            invariant
                i <= n,
                n == self.entries@.len(),
                self.entries@ == pre,
                pre == old(self).entries@,
                v == value,
                self.parent == old(self).parent,
                self.internal_to_external == old(self).internal_to_external,
                forall|j: int| 0 <= j < i ==> (#[trigger] pre[j]).0@ != key@,
            decreases n - i,
        {
            if string_eq_str(&self.entries[i].0, key.as_str()) {
                let pair = self.entries.remove(i);
                let replacement = (pair.0, value);
                let ghost re = replacement;
                proof {
                    assert(re == (pre[i as int].0, v));
                }
                self.entries.insert(i, replacement);
                proof {
                    let post = self.entries@;
                    pre.remove_ensures(i as int);
                    pre.remove(i as int).insert_ensures(i as int, re);
                    assert(post.len() == pre.len());
                    assert(post[i as int] == (pre[i as int].0, v));
                    assert(forall|j: int| 0 <= j < pre.len() && j != i ==> post[j] == pre[j]);
                    assert(self.entries@ =~= pre.update(i as int, (pre[i as int].0, v)));
                    assert forall|q: Seq<char>|
                        spec_find_value(self.entries@, q) == (if q == key@ {
                            Some(v@)
                        } else {
                            spec_find_value(pre, q)
                        }) by {
                        lemma_find_value_update(pre, self.entries@, i as int, key@, v, q);
                    }
                }
                return;
            }
            i = i + 1;
        }
        proof {
            assert forall|q: Seq<char>|
                spec_find_value(pre.push((key, v)), q) == (if q == key@ {
                    Some(v@)
                } else {
                    spec_find_value(pre, q)
                }) by {
                lemma_find_value_push(pre, key, v, q);
            }
        }
        self.entries.push((key, value));
    }

    /// Installs one remapping `internal -> external`, replacing any earlier
    /// remapping of the same internal key.
    fn set_remap(&mut self, internal: String, external: String)
        ensures
            final(self).parent == old(self).parent,
            final(self).entries == old(self).entries,
            forall|q: Seq<char>|
                spec_find_str(#[trigger] final(self).internal_to_external@, q) == (if q
                    == internal@ {
                    Some(external@)
                } else {
                    spec_find_str(old(self).internal_to_external@, q)
                }),
    {
        assoc_set_str(&mut self.internal_to_external, internal, external);
    }
}

impl Blackboards {
    /// The number of scopes.
    pub open spec fn n_scopes(self) -> int {
        self.scopes@.len() as int
    }

    /// Every scope's parent has a smaller index.
    pub open spec fn wf(self) -> bool {
        forall|i: int| 0 <= i < self.scopes@.len() ==> (#[trigger] self.scopes@[i]).parent_ok(i)
    }

    /// The result of the scoped lookup of `k` starting at `scope`: the local
    /// entry if present, otherwise the parent's entry under the remapped key.
    pub open spec fn spec_get_entry(self, scope: int, k: Seq<char>) -> Option<ValueModel>
        decreases scope,
    {
        let sc = self.scopes@[scope];
        match spec_find_value(sc.entries@, k) {
            Some(v) => Some(v),
            None => {
                let pk = match spec_find_str(sc.internal_to_external@, k) {
                    Some(e) => e,
                    None => k,
                };
                match sc.parent {
                    Some(p) => if 0 <= p < scope {
                        self.spec_get_entry(p as int, pk)
                    } else {
                        None
                    },
                    None => None,
                }
            },
        }
    }

    /// Scope `target` lies on the parent chain starting at `from`.
    pub open spec fn spec_chain_reaches(self, from: int, target: int) -> bool
        decreases from,
    {
        from == target || (match self.scopes@[from].parent {
            Some(p) => 0 <= p < from && self.spec_chain_reaches(p as int, target),
            None => false,
        })
    }

    /// An empty arena.
    pub fn new() -> (r: Blackboards)
        ensures
            r.wf(),
            r.n_scopes() == 0,
    {
        Blackboards { scopes: Vec::new() }
    }

    /// Adds a fresh root scope and returns its index.
    pub fn new_root(&mut self) -> (r: usize)
        requires
            old(self).wf(),
        ensures
            final(self).wf(),
            final(self).n_scopes() == old(self).n_scopes() + 1,
            r as int == old(self).n_scopes(),
            forall|i: int|
                0 <= i < old(self).n_scopes() ==> final(self).scopes@[i] == old(self).scopes@[i],
            final(self).scopes@[r as int].entries@.len() == 0,
            final(self).scopes@[r as int].internal_to_external@.len() == 0,
            final(self).scopes@[r as int].parent is None,
    {
        let r = self.scopes.len();
        self.scopes.push(
            Blackboard { entries: Vec::new(), internal_to_external: Vec::new(), parent: None },
        );
        r
    }

    /// Adds an empty scope whose parent is `parent` and returns its index.
    pub fn new_with_parent(&mut self, parent: usize) -> (r: usize)
        requires
            old(self).wf(),
            parent < old(self).n_scopes(),
        ensures
            final(self).wf(),
            final(self).n_scopes() == old(self).n_scopes() + 1,
            r as int == old(self).n_scopes(),
            forall|i: int|
                0 <= i < old(self).n_scopes() ==> final(self).scopes@[i] == old(self).scopes@[i],
            final(self).scopes@[r as int].entries@.len() == 0,
            final(self).scopes@[r as int].internal_to_external@.len() == 0,
            final(self).scopes@[r as int].parent == Some(parent),
    {
        let r = self.scopes.len();
        self.scopes.push(
            Blackboard {
                entries: Vec::new(),
                internal_to_external: Vec::new(),
                parent: Some(parent),
            },
        );
        r
    }

    /// Looks `key` up starting at `scope`, walking the parent chain with
    /// remapping, and returns a copy of the value found.
    pub fn get_entry(&self, scope: usize, key: &str) -> (r: Option<BtValue>)
        requires
            self.wf(),
            scope < self.n_scopes(),
        ensures
            match r {
                Some(v) => self.spec_get_entry(scope as int, key@) == Some(v@),
                None => self.spec_get_entry(scope as int, key@) is None,
            },
        decreases scope,
    {
        let sc = &self.scopes[scope];
        match sc.find_value(key) {
            Some(v) => Some(v.duplicate()),
            None => {
                let remapped = sc.find_remap(key);
                match &sc.parent {
                    Some(p) => {
                        proof {
                            assert(self.scopes@[scope as int].parent_ok(scope as int));
                        }
                        match remapped {
                            Some(e) => self.get_entry(*p, e.as_str()),
                            None => self.get_entry(*p, key),
                        }
                    },
                    None => None,
                }
            },
        }
    }

    /// Writes `value` under `key`, locally in `scope`.
    pub fn set(&mut self, scope: usize, key: String, value: BtValue)
        requires
            scope < old(self).n_scopes(),
        ensures
            final(self).n_scopes() == old(self).n_scopes(),
            old(self).wf() ==> final(self).wf(),
            forall|i: int|
                0 <= i < old(self).n_scopes() && i != scope ==> final(self).scopes@[i] == old(self).scopes@[i],
            final(self).scopes@[scope as int].parent == old(self).scopes@[scope as int].parent,
            final(self).scopes@[scope as int].internal_to_external == old(self).scopes@[scope as int].internal_to_external,
            forall|q: Seq<char>|
                spec_find_value(#[trigger] final(self).scopes@[scope as int].entries@, q) == (if q
                    == key@ {
                    Some(value@)
                } else {
                    spec_find_value(old(self).scopes@[scope as int].entries@, q)
                }),
    {
        let sc = vec_index_mut(&mut self.scopes, scope);
        sc.set_value(key, value);
    }

    /// Installs a batch of remappings in `scope`; later entries of the batch
    /// win over earlier ones and over remappings already installed.
    pub fn extend_parent_remappings(&mut self, scope: usize, remappings: Vec<(String, String)>)
        requires
            scope < old(self).n_scopes(),
        ensures
            final(self).n_scopes() == old(self).n_scopes(),
            old(self).wf() ==> final(self).wf(),
            forall|i: int|
                0 <= i < old(self).n_scopes() && i != scope ==> final(self).scopes@[i] == old(self).scopes@[i],
            final(self).scopes@[scope as int].parent == old(self).scopes@[scope as int].parent,
            final(self).scopes@[scope as int].entries == old(self).scopes@[scope as int].entries,
            forall|q: Seq<char>|
                spec_find_str(
                    #[trigger] final(self).scopes@[scope as int].internal_to_external@,
                    q,
                ) == (match spec_remap_of(remappings@, q) {
                    Some(e) => Some(e),
                    None => spec_find_str(
                        old(self).scopes@[scope as int].internal_to_external@,
                        q,
                    ),
                }),
    {
        let ghost all = remappings@;
        let n = remappings.len();
        let mut k: usize = 0;
        proof {
            assert(all.take(0) =~= Seq::<(String, String)>::empty());
        }
        while k < n
            invariant
                n == all.len(),
                k <= n,
                remappings@ == all,
                scope < self.n_scopes(),
                self.n_scopes() == old(self).n_scopes(),
                old(self).wf() ==> self.wf(),
                forall|i: int|
                    0 <= i < old(self).n_scopes() && i != scope ==> self.scopes@[i] == old(self).scopes@[i],
                self.scopes@[scope as int].parent == old(self).scopes@[scope as int].parent,
                self.scopes@[scope as int].entries == old(self).scopes@[scope as int].entries,
                forall|q: Seq<char>|
                    spec_find_str(#[trigger] self.scopes@[scope as int].internal_to_external@, q)
                        == (match spec_remap_of(all.take(k as int), q) {
                        Some(e) => Some(e),
                        None => spec_find_str(
                            old(self).scopes@[scope as int].internal_to_external@,
                            q,
                        ),
                    }),
            decreases n - k,
        {
            let internal = remappings[k].0.clone();
            let external = remappings[k].1.clone();
            let sc = vec_index_mut(&mut self.scopes, scope);
            sc.set_remap(internal, external);
            proof {
                assert(all.take(k + 1).drop_last() =~= all.take(k as int));
                assert(all.take(k + 1).last() == all[k as int]);
            }
            k = k + 1;
        }
        proof {
            assert(all.take(n as int) =~= all);
        }
    }

    /// The remapping table of `scope`.
    pub fn port_remappings(&self, scope: usize) -> (r: &Vec<(String, String)>)
        requires
            scope < self.n_scopes(),
        ensures
            r == self.scopes@[scope as int].internal_to_external,
    {
        &self.scopes[scope].internal_to_external
    }

    /// Along a parent chain, scope indices never increase.
    pub proof fn lemma_chain_descends(self, from: int, target: int)
        requires
            self.wf(),
            0 <= from < self.n_scopes(),
            self.spec_chain_reaches(from, target),
        ensures
            target <= from,
        decreases from,
    {
        if from != target {
            match self.scopes@[from].parent {
                Some(p) => {
                    self.lemma_chain_descends(p as int, target);
                },
                None => {},
            }
        }
    }

    /// A lookup consults only the scopes on the parent chain, so a write
    /// into any other scope is invisible.  In particular a value written
    /// into a child subtree's scope is never visible to its parent scope.
    pub proof fn lemma_scoped_write_invisible(
        pre: Blackboards,
        post: Blackboards,
        written: int,
        reader: int,
        q: Seq<char>,
    )
        requires
            pre.wf(),
            post.wf(),
            pre.n_scopes() == post.n_scopes(),
            0 <= reader < pre.n_scopes(),
            0 <= written < pre.n_scopes(),
            !pre.spec_chain_reaches(reader, written),
            forall|i: int|
                0 <= i < pre.n_scopes() && i != written ==> post.scopes@[i] == pre.scopes@[i],
        ensures
            post.spec_get_entry(reader, q) == pre.spec_get_entry(reader, q),
        decreases reader,
    {
        assert(reader != written);
        assert(post.scopes@[reader] == pre.scopes@[reader]);
        let sc = pre.scopes@[reader];
        match spec_find_value(sc.entries@, q) {
            Some(_) => {},
            None => {
                let pk = match spec_find_str(sc.internal_to_external@, q) {
                    Some(e) => e,
                    None => q,
                };
                match sc.parent {
                    Some(p) => {
                        assert(pre.scopes@[reader].parent_ok(reader));
                        if 0 <= p < reader {
                            Self::lemma_scoped_write_invisible(pre, post, written, p as int, pk);
                        }
                    },
                    None => {},
                }
            },
        }
    }

    /// A key absent from a child scope but remapped there is looked up in
    /// the parent scope under the external key: that is how a parent value
    /// becomes visible to the child through an explicit remapping.
    pub proof fn lemma_remapped_visibility(self, child: int, q: Seq<char>, external: Seq<char>)
        requires
            self.wf(),
            0 <= child < self.n_scopes(),
            spec_find_value(self.scopes@[child].entries@, q) is None,
            spec_find_str(self.scopes@[child].internal_to_external@, q) == Some(external),
            self.scopes@[child].parent is Some,
        ensures
            self.spec_get_entry(child, q) == self.spec_get_entry(
                self.scopes@[child].parent->0 as int,
                external,
            ),
    {
        assert(self.scopes@[child].parent_ok(child));
    }
}

} // verus!
