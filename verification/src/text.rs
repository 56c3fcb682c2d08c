//! Small string helpers shared by the whole crate: pushing a single
//! character onto a `String` and deciding equality of two string slices.

use vstd::prelude::*;
use vstd::string::StrSliceExecFns;

verus! {

/// Relies on std's `String::push`: appends one character at the end.
#[verifier::external_body]
pub fn push_char(s: &mut String, c: char)
    ensures
        final(s)@ == old(s)@.push(c),
{
    s.push(c)
}

/// Character-for-character equality of two string slices.
pub fn str_eq(a: &str, b: &str) -> (r: bool)
    ensures
        r == (a@ == b@),
{
    let n = a.unicode_len();
    if n != b.unicode_len() {
        return false;
    }
    let mut i: usize = 0;
    while i < n
        invariant
            n == a@.len(),
            n == b@.len(),
            i <= n,
            forall|j: int| 0 <= j < i ==> a@[j] == b@[j],
        decreases n - i,
    {
        if a.get_char(i) != b.get_char(i) {
            return false;
        }
        i = i + 1;
    }
    proof {
        assert(a@ =~= b@);
    }
    true
}

/// A mutable borrow of one vector element, with the rest of the vector
/// unchanged when the borrow ends.
pub fn vec_index_mut<T>(v: &mut Vec<T>, i: usize) -> (element: &mut T)
    requires
        i < old(v).len(),
    ensures
        *element == old(v)@[i as int],
        final(v)@ == old(v)@.update(i as int, *final(element)),
{
    &mut v[i]
}

/// Equality of a `String` against a string slice.
pub fn string_eq_str(a: &String, b: &str) -> (r: bool)
    ensures
        r == (a@ == b@),
{
    str_eq(a.as_str(), b)
}

/// The value paired with the first occurrence of key `k`.
pub open spec fn spec_find_str(pairs: Seq<(String, String)>, k: Seq<char>) -> Option<Seq<char>>
    decreases pairs.len(),
{
    if pairs.len() == 0 {
        None
    } else if pairs[0].0@ == k {
        Some(pairs[0].1@)
    } else {
        spec_find_str(pairs.skip(1), k)
    }
}

/// Replacing the first pair for a key changes exactly that key's lookup.
proof fn lemma_find_str_update(
    pre: Seq<(String, String)>,
    post: Seq<(String, String)>,
    i: int,
    k: Seq<char>,
    v: String,
    q: Seq<char>,
)
    requires
        0 <= i < pre.len(),
        post =~= pre.update(i, (pre[i].0, v)),
        pre[i].0@ == k,
        forall|j: int| 0 <= j < i ==> (#[trigger] pre[j]).0@ != k,
    ensures
        spec_find_str(post, q) == (if q == k {
            Some(v@)
        } else {
            spec_find_str(pre, q)
        }),
    decreases i,
{
    if i == 0 {
        assert(post[0] == (pre[0].0, v));
        if q != k {
            assert(post.skip(1) =~= pre.skip(1));
        }
    } else {
        assert(post[0] == pre[0]);
        assert(pre[0].0@ != k);
        if q == pre[0].0@ {
        } else {
            assert(post.skip(1) =~= pre.skip(1).update(i - 1, (pre.skip(1)[i - 1].0, v)));
            lemma_find_str_update(pre.skip(1), post.skip(1), i - 1, k, v, q);
        }
    }
}

/// Appending a pair for an absent key changes exactly that key's lookup.
proof fn lemma_find_str_push(pre: Seq<(String, String)>, k: String, v: String, q: Seq<char>)
    requires
        forall|j: int| 0 <= j < pre.len() ==> (#[trigger] pre[j]).0@ != k@,
    ensures
        spec_find_str(pre.push((k, v)), q) == (if q == k@ {
            Some(v@)
        } else {
            spec_find_str(pre, q)
        }),
    decreases pre.len(),
{
    reveal_with_fuel(spec_find_str, 3);
    let post = pre.push((k, v));
    assert(post.len() == pre.len() + 1);
    if pre.len() == 0 {
        assert(post[0] == (k, v));
        assert(post.skip(1) =~= Seq::<(String, String)>::empty());
    } else {
        assert(post[0] == pre[0]);
        assert(pre[0].0@ != k@);
        if q != pre[0].0@ {
            assert(post.skip(1) =~= pre.skip(1).push((k, v)));
            lemma_find_str_push(pre.skip(1), k, v, q);
        }
    }
}

/// A borrow of the value paired with the first occurrence of `key`.
pub fn assoc_find_str<'a>(pairs: &'a Vec<(String, String)>, key: &str) -> (r: Option<&'a String>)
    ensures
        match r {
            Some(v) => spec_find_str(pairs@, key@) == Some(v@),
            None => spec_find_str(pairs@, key@) is None,
        },
{
    let n = pairs.len();
    let mut i: usize = 0;
    proof {
        assert(pairs@.skip(0) =~= pairs@);
    }
    while i < n
        invariant
            i <= n,
            n == pairs@.len(),
            spec_find_str(pairs@, key@) == spec_find_str(pairs@.skip(i as int), key@),
        decreases n - i,
    {
        proof {
            assert(pairs@.skip(i as int)[0] == pairs@[i as int]);
        }
        if string_eq_str(&pairs[i].0, key) {
            return Some(&pairs[i].1);
        }
        proof {
            assert(pairs@.skip(i as int).skip(1) =~= pairs@.skip(i + 1));
        }
        i = i + 1;
    }
    proof {
        assert(pairs@.skip(n as int) =~= Seq::<(String, String)>::empty());
    }
    None
}

/// Stores `value` under `key`: the first existing pair for the key is
/// replaced, otherwise the pair is appended.
pub fn assoc_set_str(pairs: &mut Vec<(String, String)>, key: String, value: String)
    ensures
        forall|q: Seq<char>|
            spec_find_str(#[trigger] final(pairs)@, q) == (if q == key@ {
                Some(value@)
            } else {
                spec_find_str(old(pairs)@, q)
            }),
{
    let ghost pre = pairs@;
    let ghost v = value;
    let n = pairs.len();
    let mut i: usize = 0;
    while i < n
        invariant
            i <= n,
            n == pairs@.len(),
            pairs@ == pre,
            pre == old(pairs)@,
            v == value,
            forall|j: int| 0 <= j < i ==> (#[trigger] pre[j]).0@ != key@,
        decreases n - i,
    {
        if string_eq_str(&pairs[i].0, key.as_str()) {
            let pair = pairs.remove(i);
            let replacement = (pair.0, value);
            let ghost re = replacement;
            proof {
                assert(re == (pre[i as int].0, v));
            }
            pairs.insert(i, replacement);
            proof {
                let post = pairs@;
                pre.remove_ensures(i as int);
                pre.remove(i as int).insert_ensures(i as int, re);
                assert(post.len() == pre.len());
                assert(post[i as int] == (pre[i as int].0, v));
                assert(forall|j: int| 0 <= j < pre.len() && j != i ==> post[j] == pre[j]);
                assert(pairs@ =~= pre.update(i as int, (pre[i as int].0, v)));
                assert forall|q: Seq<char>|
                    spec_find_str(pairs@, q) == (if q == key@ {
                        Some(v@)
                    } else {
                        spec_find_str(pre, q)
                    }) by {
                    lemma_find_str_update(pre, pairs@, i as int, key@, v, q);
                }
            }
            return;
        }
        i = i + 1;
    }
    proof {
        assert forall|q: Seq<char>|
            spec_find_str(pre.push((key, v)), q) == (if q == key@ {
                Some(v@)
            } else {
                spec_find_str(pre, q)
            }) by {
            lemma_find_str_push(pre, key, v, q);
        }
    }
    pairs.push((key, value));
}

} // verus!
