//! Dynamically typed values stored in blackboards, and the literal parsing
//! used when a port spec is read as a number.
//!
//! A value is JSON-like but schema-less: null, boolean, integer or string.
//! Reading a value at some expected type yields nothing on a mismatch; the
//! consuming node decides what that means.

use vstd::prelude::*;
use vstd::string::StrSliceExecFns;

verus! {

/// A dynamically typed blackboard value.
pub enum BtValue {
    Null,
    Bool(bool),
    Int(i64),
    Str(String),
    Arr(Vec<BtValue>),
    Obj(Vec<(String, BtValue)>),
}

/// The mathematical model of a [`BtValue`].
pub enum ValueModel {
    Null,
    Bool(bool),
    Int(int),
    Str(Seq<char>),
    Arr(Seq<ValueModel>),
    Obj(Seq<(Seq<char>, ValueModel)>),
}

/// The model a value denotes, recursively.
pub open spec fn value_model(v: BtValue) -> ValueModel
    decreases v,
{
    match v {
        BtValue::Null => ValueModel::Null,
        BtValue::Bool(b) => ValueModel::Bool(b),
        BtValue::Int(i) => ValueModel::Int(i as int),
        BtValue::Str(s) => ValueModel::Str(s@),
        BtValue::Arr(items) => ValueModel::Arr(
            Seq::new(
                items@.len(),
                |i: int|
                    if 0 <= i < items@.len() {
                        value_model(items@[i])
                    } else {
                        ValueModel::Null
                    },
            ),
        ),
        BtValue::Obj(fields) => ValueModel::Obj(
            Seq::new(
                fields@.len(),
                |i: int|
                    if 0 <= i < fields@.len() {
                        (fields@[i].0@, value_model(fields@[i].1))
                    } else {
                        (Seq::empty(), ValueModel::Null)
                    },
            ),
        ),
    }
}

impl View for BtValue {
    type V = ValueModel;

    open spec fn view(&self) -> ValueModel {
        value_model(*self)
    }
}

impl BtValue {
    /// A copy of this value, equal under the view.
    pub fn duplicate(&self) -> (r: BtValue)
        ensures
            r@ == self@,
        decreases *self,
    {
        match self {
            BtValue::Null => BtValue::Null,
            BtValue::Bool(b) => BtValue::Bool(*b),
            BtValue::Int(i) => BtValue::Int(*i),
            BtValue::Str(s) => BtValue::Str(s.clone()),
            BtValue::Arr(items) => {
                let n = items.len();
                let mut out: Vec<BtValue> = Vec::new();
                let mut i: usize = 0;
                while i < n
                    invariant
                        i <= n,
                        n == items@.len(),
                        out@.len() == i,
                        forall|k: int| 0 <= k < i ==> (#[trigger] out@[k])@ == items@[k]@,
                        *self matches BtValue::Arr(xs) && xs == *items,
                    decreases n - i,
                {
                    out.push(items[i].duplicate());
                    i = i + 1;
                }
                let r = BtValue::Arr(out);
                proof {
                    reveal_with_fuel(value_model, 2);
                    let s1 = r@->Arr_0;
                    let s2 = self@->Arr_0;
                    assert(s1.len() == out@.len());
                    assert(s2.len() == items@.len());
                    assert forall|j: int| 0 <= j < s1.len() implies s1[j] == s2[j] by {
                        assert(0 <= j < s2.len());
                        assert(s1[j] == out@[j]@);
                        assert(s2[j] == items@[j]@);
                    }
                    assert(s1 =~= s2);
                }
                r
            },
            BtValue::Obj(fields) => {
                let n = fields.len();
                let mut out: Vec<(String, BtValue)> = Vec::new();
                let mut i: usize = 0;
                while i < n
                    invariant
                        i <= n,
                        n == fields@.len(),
                        out@.len() == i,
                        forall|k: int|
                            0 <= k < i ==> (#[trigger] out@[k]).0@ == fields@[k].0@ && out@[k].1@
                                == fields@[k].1@,
                        *self matches BtValue::Obj(xs) && xs == *fields,
                    decreases n - i,
                {
                    out.push((fields[i].0.clone(), fields[i].1.duplicate()));
                    i = i + 1;
                }
                let r = BtValue::Obj(out);
                proof {
                    reveal_with_fuel(value_model, 2);
                    let s1 = r@->Obj_0;
                    let s2 = self@->Obj_0;
                    assert(s1.len() == out@.len());
                    assert(s2.len() == fields@.len());
                    assert forall|j: int| 0 <= j < s1.len() implies s1[j] == s2[j] by {
                        assert(0 <= j < s2.len());
                        assert(s1[j] == (out@[j].0@, out@[j].1@));
                        assert(s2[j] == (fields@[j].0@, fields@[j].1@));
                    }
                    assert(s1 =~= s2);
                }
                r
            },
        }
    }

    /// The string held by this value, if it is a string.
    pub fn as_string(&self) -> (r: Option<String>)
        ensures
            r matches Some(s) ==> self@ == ValueModel::Str(s@),
            r is None ==> !(self@ is Str),
    {
        match self {
            BtValue::Str(s) => Some(s.clone()),
            _ => None,
        }
    }

    /// The value as a `usize`, if it is an integer in range.
    pub fn as_usize(&self) -> (r: Option<usize>)
        ensures
            r == spec_value_as_usize(*self),
    {
        match self {
            BtValue::Int(i) => {
                if *i >= 0 && (*i as u64) <= (usize::MAX as u64) {
                    Some(*i as usize)
                } else {
                    None
                }
            },
            _ => None,
        }
    }
}

/// The integer behind a value model, if it is one that fits in a `usize`.
pub open spec fn spec_model_as_usize(m: ValueModel) -> Option<usize> {
    match m {
        ValueModel::Int(i) => if 0 <= i <= usize::MAX as int {
            Some(i as usize)
        } else {
            None
        },
        _ => Option::<usize>::None,
    }
}

/// What [`BtValue::as_usize`] yields: the integer if it fits, nothing
/// otherwise.
pub open spec fn spec_value_as_usize(v: BtValue) -> Option<usize> {
    spec_model_as_usize(v@)
}

/// True on the ten decimal digit characters.
pub open spec fn spec_is_digit(c: char) -> bool {
    48 <= c as u32 <= 57
}

/// The numeric value of one digit character.
pub open spec fn spec_digit_val(c: char) -> int {
    c as u32 - 48
}

/// True when every character of `s` is a decimal digit.
pub open spec fn spec_all_digits(s: Seq<char>) -> bool {
    forall|i: int| 0 <= i < s.len() ==> spec_is_digit(#[trigger] s[i])
}

/// The number denoted by a digit string, most significant digit first.
pub open spec fn spec_digits_val(s: Seq<char>) -> int
    decreases s.len(),
{
    if s.len() == 0 {
        0
    } else {
        spec_digits_val(s.drop_last()) * 10 + spec_digit_val(s.last())
    }
}

/// What parsing a `usize` out of a string yields: an optional leading `+`,
/// then one or more digits whose value fits in a `usize`.
pub open spec fn spec_parse_usize(s: Seq<char>) -> Option<int> {
    let body = if s.len() > 0 && s[0] == '+' {
        s.skip(1)
    } else {
        s
    };
    if body.len() > 0 && spec_all_digits(body) && spec_digits_val(body) <= usize::MAX as int {
        Some(spec_digits_val(body))
    } else {
        None
    }
}

proof fn lemma_digits_val_nonneg(s: Seq<char>)
    requires
        spec_all_digits(s),
    ensures
        spec_digits_val(s) >= 0,
    decreases s.len(),
{
    if s.len() > 0 {
        lemma_digits_val_nonneg(s.drop_last());
    }
}

/// Appending digits never shrinks the denoted number.
proof fn lemma_digits_val_prefix(s: Seq<char>, i: int)
    requires
        spec_all_digits(s),
        0 <= i <= s.len(),
    ensures
        spec_digits_val(s) >= spec_digits_val(s.take(i)),
    decreases s.len() - i,
{
    if i < s.len() {
        lemma_digits_val_prefix(s, i + 1);
        assert(s.take(i + 1).drop_last() =~= s.take(i));
        assert(s.take(i + 1).last() == s[i]);
        lemma_digits_val_nonneg(s.take(i));
        assert(spec_digits_val(s.take(i + 1)) == spec_digits_val(s.take(i)) * 10 + spec_digit_val(
            s[i],
        ));
        assert(spec_digits_val(s.take(i)) * 10 >= spec_digits_val(s.take(i))) by (nonlinear_arith)
            requires
                spec_digits_val(s.take(i)) >= 0,
        ;
    } else {
        assert(s.take(i) =~= s);
    }
}

/// Parse a decimal `usize` from a string slice, as a port literal is read.
pub fn parse_usize(s: &str) -> (r: Option<usize>)
    ensures
        match spec_parse_usize(s@) {
            Some(v) => r == Some(v as usize),
            None => r is None,
        },
{
    let n = s.unicode_len();
    let mut i: usize = 0;
    if n > 0 && s.get_char(0) == '+' {
        i = 1;
    }
    let ghost body = if s@.len() > 0 && s@[0] == '+' {
        s@.skip(1)
    } else {
        s@
    };
    let ghost start = i as int;
    if i >= n {
        return None;
    }
    let mut acc: usize = 0;
    while i < n
        invariant
            n == s@.len(),
            0 <= start <= i <= n,
            start < n,
            body == (if s@.len() > 0 && s@[0] == '+' {
                s@.skip(1)
            } else {
                s@
            }),
            body =~= s@.skip(start),
            forall|j: int| start <= j < i ==> spec_is_digit(#[trigger] s@[j]),
            acc as int == spec_digits_val(s@.subrange(start, i as int)),
        decreases n - i,
    {
        let c = s.get_char(i);
        let u = c as u32;
        if u < 48 || u > 57 {
            proof {
                assert(body[i - start] == s@[i as int]);
                assert(!spec_is_digit(body[i - start]));
                assert(!spec_all_digits(body));
                assert(spec_parse_usize(s@) is None);
            }
            return None;
        }
        let d: usize = (u - 48) as usize;
        let ghost pre = s@.subrange(start, i as int);
        let ghost cur = s@.subrange(start, i + 1);
        proof {
            assert(cur.drop_last() =~= pre);
            assert(cur.last() == s@[i as int]);
            assert(spec_digits_val(cur) == spec_digits_val(pre) * 10 + spec_digit_val(
                s@[i as int],
            ));
        }
        match acc.checked_mul(10) {
            Some(m) => {
                match m.checked_add(d) {
                    Some(a) => {
                        acc = a;
                    },
                    None => {
                        proof {
                            digits_overflow(s@, start, i as int, body);
                        }
                        return None;
                    },
                }
            },
            None => {
                proof {
                    lemma_digits_val_nonneg(pre);
                    assert(spec_digits_val(cur) > usize::MAX as int) by (nonlinear_arith)
                        requires
                            spec_digits_val(cur) == spec_digits_val(pre) * 10 + spec_digit_val(
                                s@[i as int],
                            ),
                            spec_is_digit(s@[i as int]),
                            spec_digits_val(pre) >= 0,
                            spec_digits_val(pre) * 10 > usize::MAX as int,
                    ;
                    digits_overflow(s@, start, i as int, body);
                }
                return None;
            },
        }
        i = i + 1;
    }
    proof {
        assert(s@.subrange(start, n as int) =~= body);
        assert(forall|j: int| 0 <= j < body.len() ==> body[j] == s@[start + j]);
        assert(spec_all_digits(body));
    }
    Some(acc)
}

/// If the number denoted by the first `i + 1` digits after `start` already
/// exceeds `usize::MAX`, the whole digit string does too, so parsing fails.
proof fn digits_overflow(s: Seq<char>, start: int, i: int, body: Seq<char>)
    requires
        0 <= start <= i < s.len(),
        body =~= s.skip(start),
        spec_digits_val(s.subrange(start, i + 1)) > usize::MAX as int,
    ensures
        spec_all_digits(body) ==> spec_digits_val(body) > usize::MAX as int,
{
    if spec_all_digits(body) {
        assert(body.take(i + 1 - start) =~= s.subrange(start, i + 1));
        lemma_digits_val_prefix(body, i + 1 - start);
        assert(body.take(body.len() as int) =~= body);
    }
}


/// The canonical decimal rendering of a non-negative number.
pub open spec fn spec_decimal(v: int) -> Seq<char>
    decreases v,
{
    if v < 0 {
        Seq::empty()
    } else if v < 10 {
        seq![((48 + v) as u8) as char]
    } else {
        spec_decimal(v / 10).push(((48 + (v % 10)) as u8) as char)
    }
}

/// Renders `v` in decimal: digits only, no leading zero, denoting `v`.
pub fn u16_to_string(v: u16) -> (r: String)
    ensures
        r@ == spec_decimal(v as int),
        r@.len() >= 1,
        spec_all_digits(r@),
        spec_digits_val(r@) == v as int,
        v >= 1 ==> r@.first() != '0',
    decreases v,
{
    if v < 10 {
        let c = ((48 + v as u8)) as char;
        let mut r = String::new();
        crate::text::push_char(&mut r, c);
        proof {
            reveal_with_fuel(spec_digits_val, 2);
            assert(r@ =~= Seq::<char>::empty().push(c));
            assert(r@.last() == c);
            assert(r@.drop_last() =~= Seq::<char>::empty());
        }
        r
    } else {
        let mut r = u16_to_string(v / 10);
        let d = ((48 + (v % 10) as u8)) as char;
        push_char_keep_digits(&mut r, d);
        r
    }
}

/// Pushes one digit character, keeping the digit-string reading.
fn push_char_keep_digits(s: &mut String, c: char)
    requires
        spec_is_digit(c),
        spec_all_digits(old(s)@),
    ensures
        final(s)@ == old(s)@.push(c),
        spec_all_digits(final(s)@),
        spec_digits_val(final(s)@) == spec_digits_val(old(s)@) * 10 + spec_digit_val(c),
        final(s)@.len() == old(s)@.len() + 1,
        old(s)@.len() >= 1 ==> final(s)@.first() == old(s)@.first(),
{
    crate::text::push_char(s, c);
    proof {
        assert(s@.drop_last() =~= old(s)@);
        assert(s@.last() == c);
        assert forall|k: int| 0 <= k < s@.len() implies spec_is_digit(#[trigger] s@[k]) by {
            if k < s@.len() - 1 {
                assert(s@[k] == old(s)@[k]);
            }
        }
    }
}

} // verus!
