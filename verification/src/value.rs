//! The runtime value: a tagged scalar or list.
//!
//! Numbers are fixed-point decimals: an `i64` counting millionths, so the
//! literal `1.5` is held as `1_500_000`. Numeric equality tolerates a
//! difference of less than [`EPSILON_UNITS`] units, so repeated arithmetic
//! does not disturb comparisons.

use vstd::prelude::*;

verus! {

/// Fixed-point scale: number values count millionths.
pub const SCALE: i64 = 1_000_000;

/// Two numbers are equal when they differ by less than this many
/// fixed-point units.
pub const EPSILON_UNITS: i64 = 10;

/// A runtime value: boolean, fixed-point number, string, or list of values.
#[derive(Debug, PartialEq)]
pub enum Value {
    String(String),
    Number(i64),
    Bool(bool),
    List(Vec<Value>),
}

/// The mathematical model of a [`Value`].
pub enum ValueV {
    Str(Seq<char>),
    Num(int),
    Bool(bool),
    List(Seq<ValueV>),
}

/// The model of a value.
pub open spec fn vv(v: Value) -> ValueV
    decreases v, 0int,
{
    match v {
        Value::String(s) => ValueV::Str(s@),
        Value::Number(n) => ValueV::Num(n as int),
        Value::Bool(b) => ValueV::Bool(b),
        Value::List(l) => ValueV::List(vv_seq(l@)),
    }
}

/// The models of the values of `s` from index `i` on.
pub open spec fn vv_seq_from(s: Seq<Value>, i: int) -> Seq<ValueV>
    decreases s, s.len() - i,
{
    if 0 <= i < s.len() {
        seq![vv(s[i])] + vv_seq_from(s, i + 1)
    } else {
        Seq::empty()
    }
}

/// The models of the values of `s`.
pub open spec fn vv_seq(s: Seq<Value>) -> Seq<ValueV>
    decreases s, s.len() + 1,
{
    vv_seq_from(s, 0)
}

proof fn lemma_vv_seq_from(s: Seq<Value>, i: int)
    requires
        0 <= i <= s.len(),
    ensures
        vv_seq_from(s, i).len() == s.len() - i,
        forall|j: int| i <= j < s.len() ==> vv_seq_from(s, i)[j - i] == vv(#[trigger] s[j]),
    decreases s.len() - i,
{
    if i < s.len() {
        lemma_vv_seq_from(s, i + 1);
    }
}

/// The model of a sequence of values is the sequence of their models.
pub broadcast proof fn lemma_vv_seq(s: Seq<Value>)
    ensures
        (#[trigger] vv_seq(s)).len() == s.len(),
        forall|j: int| 0 <= j < s.len() ==> vv_seq(s)[j] == vv(#[trigger] s[j]),
{
    lemma_vv_seq_from(s, 0);
}

/// Boolean coercion: a boolean as itself, a number is true iff nonzero, a
/// string or list is true iff non-empty.
pub open spec fn spec_as_bool(v: ValueV) -> bool {
    match v {
        ValueV::Bool(b) => b,
        ValueV::Num(n) => n != 0,
        ValueV::Str(s) => s.len() != 0,
        ValueV::List(l) => l.len() != 0,
    }
}

/// Value equality: values of different kinds are never equal (and never an
/// error); numbers are equal when within [`EPSILON_UNITS`]; lists are equal
/// elementwise.
pub open spec fn spec_val_eq(a: ValueV, b: ValueV) -> bool
    decreases a,
{
    match (a, b) {
        (ValueV::Bool(x), ValueV::Bool(y)) => x == y,
        (ValueV::Num(x), ValueV::Num(y)) => -(EPSILON_UNITS as int) < x - y < EPSILON_UNITS as int,
        (ValueV::Str(x), ValueV::Str(y)) => x == y,
        (ValueV::List(x), ValueV::List(y)) => x.len() == y.len() && (forall|i: int|
            0 <= i < x.len() ==> spec_val_eq(x[i], #[trigger] y[i])),
        _ => false,
    }
}

impl Value {
    /// A deep copy: the copy has the same model as the original.
    pub fn deep_clone(&self) -> (r: Value)
        ensures
            vv(r) == vv(*self),
        decreases *self,
    {
        match self {
            Value::String(s) => Value::String(s.clone()),
            Value::Number(n) => Value::Number(*n),
            Value::Bool(b) => Value::Bool(*b),
            Value::List(l) => {
                let mut v: Vec<Value> = Vec::new();
                let mut i: usize = 0;
                while i < l.len()
                    invariant
                        i <= l@.len(),
                        v@.len() == i,
                        *self == Value::List(*l),
                        forall|j: int| 0 <= j < i ==> vv(#[trigger] v@[j]) == vv(l@[j]),
                    decreases l@.len() - i,
                {
                    proof {
                        assert(*l == self->List_0);
                        assert(decreases_to!(*self => self->List_0));
                        assert(decreases_to!(*l => l@[i as int]));
                        assert(decreases_to!(*self => l@[i as int]));
                    }
                    let c = l[i].deep_clone();
                    v.push(c);
                    i += 1;
                }
                proof {
                    lemma_vv_seq(v@);
                    lemma_vv_seq(l@);
                    assert forall|k: int| 0 <= k < v@.len() implies vv_seq(v@)[k] == vv_seq(
                        l@,
                    )[k] by {
                        assert(vv_seq(v@)[k] == vv(v@[k]));
                        assert(vv_seq(l@)[k] == vv(l@[k]));
                    }
                    assert(vv_seq(v@) =~= vv_seq(l@));
                }
                Value::List(v)
            },
        }
    }

    /// Coerces this value to a boolean.
    pub fn as_bool(&self) -> (r: bool)
        ensures
            r == spec_as_bool(vv(*self)),
    {
        proof {
            if let Value::List(l) = self {
                lemma_vv_seq(l@);
            }
        }
        match self {
            Value::Bool(v) => *v,
            Value::Number(v) => *v != 0,
            Value::String(v) => !v.as_str().is_empty(),
            Value::List(v) => v.len() != 0,
        }
    }
}

/// Decides [`spec_val_eq`] on two values.
pub fn value_eq(a: &Value, b: &Value) -> (r: bool)
    ensures
        r == spec_val_eq(vv(*a), vv(*b)),
    decreases *a,
{
    match (a, b) {
        (Value::Bool(x), Value::Bool(y)) => *x == *y,
        (Value::Number(x), Value::Number(y)) => {
            let d: i128 = (*x as i128) - (*y as i128);
            -(EPSILON_UNITS as i128) < d && d < EPSILON_UNITS as i128
        },
        (Value::String(x), Value::String(y)) => x.eq(y),
        (Value::List(x), Value::List(y)) => {
            proof {
                lemma_vv_seq(x@);
                lemma_vv_seq(y@);
            }
            if x.len() != y.len() {
                return false;
            }
            let mut i: usize = 0;
            while i < x.len()
                invariant
                    i <= x@.len(),
                    x@.len() == y@.len(),
                    *a == Value::List(*x),
                    *b == Value::List(*y),
                    forall|j: int| 0 <= j < i ==> spec_val_eq(vv(x@[j]), vv(#[trigger] y@[j])),
                decreases x@.len() - i,
            {
                proof {
                    assert(decreases_to!(*a => x@[i as int]));
                }
                if !value_eq(&x[i], &y[i]) {
                    proof {
                        lemma_vv_seq(x@);
                        lemma_vv_seq(y@);
                        assert(vv_seq(x@)[i as int] == vv(x@[i as int]));
                        assert(!spec_val_eq(vv_seq(x@)[i as int], vv_seq(y@)[i as int]));
                    }
                    return false;
                }
                i += 1;
            }
            proof {
                lemma_vv_seq(x@);
                lemma_vv_seq(y@);
                assert forall|k: int| 0 <= k < vv_seq(x@).len() implies spec_val_eq(
                    vv_seq(x@)[k],
                    vv_seq(y@)[k],
                ) by {
                    assert(vv_seq(x@)[k] == vv(x@[k]));
                    assert(vv_seq(y@)[k] == vv(y@[k]));
                }
            }
            true
        },
        _ => false,
    }
}

} // verus!
