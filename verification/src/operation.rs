//! Unary and binary operator semantics over [`Value`]s.
//!
//! Arithmetic works on fixed-point numbers (millionths): multiplication,
//! division and exponentiation truncate toward zero at the last digit, a
//! result outside the `i64` range is a [`SML_Error::BadOperation`], and so
//! is division by zero or a fractional or negative exponent.

use vstd::prelude::*;

use crate::error::{ErrK, SML_Error, SML_Result, err_kind};
use crate::util::str_eq;
use crate::value::{
    SCALE,
    Value,
    ValueV,
    lemma_vv_seq,
    spec_as_bool,
    spec_val_eq,
    value_eq,
    vv,
    vv_seq,
};

verus! {

/// Whether an integer fits in an `i64`.
pub open spec fn fits_i64(x: int) -> bool {
    i64::MIN <= x <= i64::MAX
}

/// The magnitude of an integer.
pub open spec fn spec_abs(a: int) -> int {
    if a < 0 {
        -a
    } else {
        a
    }
}

/// Division truncating toward zero, as machine division does.
pub open spec fn tdiv(a: int, b: int) -> int {
    if (a < 0) != (b < 0) {
        -(spec_abs(a) / spec_abs(b))
    } else {
        spec_abs(a) / spec_abs(b)
    }
}

/// The fixed-point product of `a` and `b`.
pub open spec fn fxp_mul(a: int, b: int) -> int {
    tdiv(a * b, SCALE as int)
}

/// The fixed-point quotient of `a` by `b`.
pub open spec fn fxp_div(a: int, b: int) -> int {
    tdiv(a * SCALE, b)
}

/// `a` raised to the whole power `n` in fixed point, multiplying one step
/// at a time; `None` where an intermediate result leaves the `i64` range.
pub open spec fn fxp_pow(a: int, n: nat) -> Option<int>
    decreases n,
{
    if n == 0 {
        Some(SCALE as int)
    } else {
        match fxp_pow(a, (n - 1) as nat) {
            Some(p) => {
                let q = fxp_mul(a, p);
                if fits_i64(q) {
                    Some(q)
                } else {
                    None
                }
            },
            None => None,
        }
    }
}

/// A unary operator.
#[derive(Clone, Copy, Debug, PartialEq, Eq, Structural)]
pub enum UnaryOperation {
    Increment,
    Decrement,
    Negate,
}

/// What a unary operator yields: negation wants a boolean, increment and
/// decrement want a number; anything else is a bad operation, as is a
/// result outside the `i64` range.
pub open spec fn spec_apply_unary(op: UnaryOperation, v: ValueV) -> Result<ValueV, ErrK> {
    match op {
        UnaryOperation::Negate => match v {
            ValueV::Bool(b) => Ok(ValueV::Bool(!b)),
            _ => Err(ErrK::BadOperation),
        },
        UnaryOperation::Increment => match v {
            ValueV::Num(n) => if fits_i64(n + SCALE) {
                Ok(ValueV::Num(n + SCALE))
            } else {
                Err(ErrK::BadOperation)
            },
            _ => Err(ErrK::BadOperation),
        },
        UnaryOperation::Decrement => match v {
            ValueV::Num(n) => if fits_i64(n - SCALE) {
                Ok(ValueV::Num(n - SCALE))
            } else {
                Err(ErrK::BadOperation)
            },
            _ => Err(ErrK::BadOperation),
        },
    }
}

impl UnaryOperation {
    /// Applies this operator to one operand.
    pub fn apply(&self, operand: &Value) -> (r: SML_Result<Value>)
        ensures
            ({
                let sp = spec_apply_unary(*self, vv(*operand));
                match r {
                    Ok(v) => sp == Ok::<ValueV, ErrK>(vv(v)),
                    Err(e) => sp == Err::<ValueV, ErrK>(err_kind(e)),
                }
            }),
    {
        match self {
            UnaryOperation::Negate => match operand {
                Value::Bool(b) => Ok(Value::Bool(!*b)),
                _ => Err(
                    SML_Error::BadOperation(
                        "negation only valid for boolean operands".to_owned(),
                    ),
                ),
            },
            UnaryOperation::Increment => match operand {
                Value::Number(n) => if *n <= i64::MAX - SCALE {
                    Ok(Value::Number(*n + SCALE))
                } else {
                    Err(SML_Error::BadOperation("number too large to increment".to_owned()))
                },
                _ => Err(
                    SML_Error::BadOperation(
                        "incr/decrement only valid for numerical operands".to_owned(),
                    ),
                ),
            },
            UnaryOperation::Decrement => match operand {
                Value::Number(n) => if *n >= i64::MIN + SCALE {
                    Ok(Value::Number(*n - SCALE))
                } else {
                    Err(SML_Error::BadOperation("number too small to decrement".to_owned()))
                },
                _ => Err(
                    SML_Error::BadOperation(
                        "incr/decrement only valid for numerical operands".to_owned(),
                    ),
                ),
            },
        }
    }
}

/// A binary operator.
#[derive(Clone, Copy, Debug, PartialEq, Eq, Structural)]
pub enum BinaryOperation {
    Assign,
    Add,
    Subtract,
    Divide,
    Multiply,
    Power,
    LessThan,
    LessThanOrEqual,
    GreaterThan,
    GreaterThanOrEqual,
    Equal,
    NotEqual,
    And,
    Or,
    Contains,
}

/// The operator a source token names, if any.
pub open spec fn spec_binop_of(s: Seq<char>) -> Result<BinaryOperation, ErrK> {
    if s == "="@ {
        Ok(BinaryOperation::Assign)
    } else if s == "+"@ {
        Ok(BinaryOperation::Add)
    } else if s == "-"@ {
        Ok(BinaryOperation::Subtract)
    } else if s == "*"@ {
        Ok(BinaryOperation::Multiply)
    } else if s == "/"@ {
        Ok(BinaryOperation::Divide)
    } else if s == "^"@ {
        Ok(BinaryOperation::Power)
    } else if s == "<"@ {
        Ok(BinaryOperation::LessThan)
    } else if s == "<="@ {
        Ok(BinaryOperation::LessThanOrEqual)
    } else if s == ">"@ {
        Ok(BinaryOperation::GreaterThan)
    } else if s == ">="@ {
        Ok(BinaryOperation::GreaterThanOrEqual)
    } else if s == "=="@ {
        Ok(BinaryOperation::Equal)
    } else if s == "!="@ {
        Ok(BinaryOperation::NotEqual)
    } else if s == "&&"@ {
        Ok(BinaryOperation::And)
    } else if s == "||"@ {
        Ok(BinaryOperation::Or)
    } else if s == "contains"@ {
        Ok(BinaryOperation::Contains)
    } else if s == "^="@ {
        Ok(BinaryOperation::Contains)
    } else {
        Err(ErrK::Syntax)
    }
}

/// Whether some element of `l` is value-equal to `b`.
pub open spec fn spec_list_contains(l: Seq<ValueV>, b: ValueV) -> bool {
    exists|i: int| 0 <= i < l.len() && spec_val_eq(#[trigger] l[i], b)
}

/// What a binary operator yields, per kind of operand pair.
///
/// Equality never errs: values of different kinds are simply unequal.
/// Assignment is handled by the evaluator, never here.
pub open spec fn spec_apply_binary(op: BinaryOperation, a: ValueV, b: ValueV) -> Result<
    ValueV,
    ErrK,
> {
    match op {
        BinaryOperation::Assign => Err(ErrK::BadOperation),
        BinaryOperation::Add => match (a, b) {
            (ValueV::Num(x), ValueV::Num(y)) => if fits_i64(x + y) {
                Ok(ValueV::Num(x + y))
            } else {
                Err(ErrK::BadOperation)
            },
            (ValueV::List(l), _) => Ok(ValueV::List(l.push(b))),
            _ => Err(ErrK::BadOperation),
        },
        BinaryOperation::Subtract => match (a, b) {
            (ValueV::Num(x), ValueV::Num(y)) => if fits_i64(x - y) {
                Ok(ValueV::Num(x - y))
            } else {
                Err(ErrK::BadOperation)
            },
            _ => Err(ErrK::BadOperation),
        },
        BinaryOperation::Multiply => match (a, b) {
            (ValueV::Num(x), ValueV::Num(y)) => if fits_i64(fxp_mul(x, y)) {
                Ok(ValueV::Num(fxp_mul(x, y)))
            } else {
                Err(ErrK::BadOperation)
            },
            _ => Err(ErrK::BadOperation),
        },
        BinaryOperation::Divide => match (a, b) {
            (ValueV::Num(x), ValueV::Num(y)) => if y == 0 {
                Err(ErrK::BadOperation)
            } else if fits_i64(fxp_div(x, y)) {
                Ok(ValueV::Num(fxp_div(x, y)))
            } else {
                Err(ErrK::BadOperation)
            },
            _ => Err(ErrK::BadOperation),
        },
        BinaryOperation::Power => match (a, b) {
            (ValueV::Num(x), ValueV::Num(y)) => if y < 0 || y % (SCALE as int) != 0 {
                Err(ErrK::BadOperation)
            } else {
                match fxp_pow(x, (y / (SCALE as int)) as nat) {
                    Some(p) => Ok(ValueV::Num(p)),
                    None => Err(ErrK::BadOperation),
                }
            },
            _ => Err(ErrK::BadOperation),
        },
        BinaryOperation::LessThan => match (a, b) {
            (ValueV::Num(x), ValueV::Num(y)) => Ok(ValueV::Bool(x < y)),
            _ => Err(ErrK::BadOperation),
        },
        BinaryOperation::LessThanOrEqual => match (a, b) {
            (ValueV::Num(x), ValueV::Num(y)) => Ok(ValueV::Bool(x <= y)),
            _ => Err(ErrK::BadOperation),
        },
        BinaryOperation::GreaterThan => match (a, b) {
            (ValueV::Num(x), ValueV::Num(y)) => Ok(ValueV::Bool(x > y)),
            _ => Err(ErrK::BadOperation),
        },
        BinaryOperation::GreaterThanOrEqual => match (a, b) {
            (ValueV::Num(x), ValueV::Num(y)) => Ok(ValueV::Bool(x >= y)),
            _ => Err(ErrK::BadOperation),
        },
        BinaryOperation::Equal => Ok(ValueV::Bool(spec_val_eq(a, b))),
        BinaryOperation::NotEqual => Ok(ValueV::Bool(!spec_val_eq(a, b))),
        BinaryOperation::And => Ok(ValueV::Bool(spec_as_bool(a) && spec_as_bool(b))),
        BinaryOperation::Or => Ok(ValueV::Bool(spec_as_bool(a) || spec_as_bool(b))),
        BinaryOperation::Contains => match a {
            ValueV::List(l) => Ok(ValueV::Bool(spec_list_contains(l, b))),
            _ => Err(ErrK::BadOperation),
        },
    }
}

impl BinaryOperation {
    /// The operator a source token names: a syntax error for any other
    /// token.
    pub fn from_str(s: String) -> (r: SML_Result<BinaryOperation>)
        ensures
            ({
                let sp = spec_binop_of(s@);
                match r {
                    Ok(op) => sp == Ok::<BinaryOperation, ErrK>(op),
                    Err(e) => sp == Err::<BinaryOperation, ErrK>(err_kind(e)),
                }
            }),
    {
        let t = s.as_str();
        if str_eq(t, "=") {
            Ok(BinaryOperation::Assign)
        } else if str_eq(t, "+") {
            Ok(BinaryOperation::Add)
        } else if str_eq(t, "-") {
            Ok(BinaryOperation::Subtract)
        } else if str_eq(t, "*") {
            Ok(BinaryOperation::Multiply)
        } else if str_eq(t, "/") {
            Ok(BinaryOperation::Divide)
        } else if str_eq(t, "^") {
            Ok(BinaryOperation::Power)
        } else if str_eq(t, "<") {
            Ok(BinaryOperation::LessThan)
        } else if str_eq(t, "<=") {
            Ok(BinaryOperation::LessThanOrEqual)
        } else if str_eq(t, ">") {
            Ok(BinaryOperation::GreaterThan)
        } else if str_eq(t, ">=") {
            Ok(BinaryOperation::GreaterThanOrEqual)
        } else if str_eq(t, "==") {
            Ok(BinaryOperation::Equal)
        } else if str_eq(t, "!=") {
            Ok(BinaryOperation::NotEqual)
        } else if str_eq(t, "&&") {
            Ok(BinaryOperation::And)
        } else if str_eq(t, "||") {
            Ok(BinaryOperation::Or)
        } else if str_eq(t, "contains") {
            Ok(BinaryOperation::Contains)
        } else if str_eq(t, "^=") {
            Ok(BinaryOperation::Contains)
        } else {
            Err(SML_Error::SyntaxError("invalid binary operation".to_owned()))
        }
    }
}

/// Truncating division of `a` by `b`, `None` where the quotient leaves the
/// `i64` range.
fn div_trunc(a: i128, b: i128) -> (r: Option<i64>)
    requires
        b != 0,
        a > i128::MIN,
        b > i128::MIN,
    ensures
        match r {
            Some(q) => fits_i64(tdiv(a as int, b as int)) && q as int == tdiv(a as int, b as int),
            None => !fits_i64(tdiv(a as int, b as int)),
        },
{
    let neg = (a < 0) != (b < 0);
    let ma: u128 = if a < 0 {
        (-a) as u128
    } else {
        a as u128
    };
    let mb: u128 = if b < 0 {
        (-b) as u128
    } else {
        b as u128
    };
    let q = ma / mb;
    if neg {
        if q == 0 {
            Some(0)
        } else if q <= 9223372036854775808u128 {
            Some((-(q as i128)) as i64)
        } else {
            None
        }
    } else {
        if q <= 9223372036854775807u128 {
            Some(q as i64)
        } else {
            None
        }
    }
}

proof fn lemma_mul_div_scale(p: int)
    ensures
        tdiv((SCALE as int) * p, SCALE as int) == p,
{
    let d = SCALE as int;
    if p >= 0 {
        assert(d * p >= 0) by (nonlinear_arith)
            requires
                d > 0,
                p >= 0,
        ;
        vstd::arithmetic::div_mod::lemma_div_multiples_vanish(p, d);
    } else {
        assert(d * p < 0) by (nonlinear_arith)
            requires
                d > 0,
                p < 0,
        ;
        assert(-(d * p) == d * (-p)) by (nonlinear_arith);
        vstd::arithmetic::div_mod::lemma_div_multiples_vanish(-p, d);
    }
}

proof fn lemma_fxp_pow_none(a: int, n: nat, m: nat)
    requires
        n <= m,
        fxp_pow(a, n) is None,
    ensures
        fxp_pow(a, m) is None,
    decreases m,
{
    if m > n {
        lemma_fxp_pow_none(a, n, (m - 1) as nat);
    }
}

proof fn lemma_fxp_pow_zero(a: int, n: nat, m: nat)
    requires
        n <= m,
        fxp_pow(a, n) == Some(0int),
    ensures
        fxp_pow(a, m) == Some(0int),
    decreases m,
{
    if m > n {
        lemma_fxp_pow_zero(a, n, (m - 1) as nat);
        assert(fxp_mul(a, 0) == 0) by {
            assert(a * 0 == 0);
        }
    }
}

proof fn lemma_fxp_pow_one(n: nat)
    ensures
        fxp_pow(SCALE as int, n) == Some(SCALE as int),
    decreases n,
{
    if n > 0 {
        lemma_fxp_pow_one((n - 1) as nat);
        lemma_mul_div_scale(SCALE as int);
    }
}

proof fn lemma_fxp_pow_neg_one(n: nat)
    ensures
        fxp_pow(-(SCALE as int), n) == Some(
            if n % 2 == 0 {
                SCALE as int
            } else {
                -(SCALE as int)
            },
        ),
    decreases n,
{
    if n > 0 {
        lemma_fxp_pow_neg_one((n - 1) as nat);
        let prev = if (n - 1) % 2 == 0 {
            SCALE as int
        } else {
            -(SCALE as int)
        };
        assert((-(SCALE as int)) * prev == (SCALE as int) * (-prev)) by (nonlinear_arith);
        lemma_mul_div_scale(-prev);
    }
}

impl BinaryOperation {
    /// Applies this operator to two operands. Assignment never reaches
    /// here: the evaluator handles it.
    pub fn apply(&self, left: &Value, right: &Value) -> (r: SML_Result<Value>)
        requires
            *self !== BinaryOperation::Assign,
        ensures
            ({
                let sp = spec_apply_binary(*self, vv(*left), vv(*right));
                match r {
                    Ok(v) => sp == Ok::<ValueV, ErrK>(vv(v)),
                    Err(e) => sp == Err::<ValueV, ErrK>(err_kind(e)),
                }
            }),
    {
        match self {
            BinaryOperation::Assign => Err(
                SML_Error::BadOperation("assignment handled elsewhere".to_owned()),
            ),
            BinaryOperation::Add => match (left, right) {
                (Value::Number(x), Value::Number(y)) => {
                    let s: i128 = (*x as i128) + (*y as i128);
                    if i64::MIN as i128 <= s && s <= i64::MAX as i128 {
                        Ok(Value::Number(s as i64))
                    } else {
                        Err(SML_Error::BadOperation("number out of range".to_owned()))
                    }
                },
                (Value::List(l), _) => {
                    let mut nl: Vec<Value> = Vec::new();
                    let mut i: usize = 0;
                    while i < l.len()
                        invariant
                            i <= l@.len(),
                            nl@.len() == i,
                            *left == Value::List(*l),
                            forall|j: int| 0 <= j < i ==> vv(#[trigger] nl@[j]) == vv(l@[j]),
                        decreases l@.len() - i,
                    {
                        let c = l[i].deep_clone();
                        nl.push(c);
                        i += 1;
                    }
                    let rc = right.deep_clone();
                    nl.push(rc);
                    proof {
                        lemma_vv_seq(nl@);
                        lemma_vv_seq(l@);
                        assert forall|k: int| 0 <= k < nl@.len() implies vv_seq(nl@)[k] == vv_seq(
                            l@,
                        ).push(vv(*right))[k] by {
                            assert(vv_seq(nl@)[k] == vv(nl@[k]));
                            if k < l@.len() {
                                assert(vv_seq(l@)[k] == vv(l@[k]));
                            }
                        }
                        assert(vv_seq(nl@) =~= vv_seq(l@).push(vv(*right)));
                    }
                    Ok(Value::List(nl))
                },
                _ => Err(
                    SML_Error::BadOperation(
                        "'+' only valid for numerical operands or to add a value to a list".to_owned(),
                    ),
                ),
            },
            BinaryOperation::Subtract => match (left, right) {
                (Value::Number(x), Value::Number(y)) => {
                    let s: i128 = (*x as i128) - (*y as i128);
                    if i64::MIN as i128 <= s && s <= i64::MAX as i128 {
                        Ok(Value::Number(s as i64))
                    } else {
                        Err(SML_Error::BadOperation("number out of range".to_owned()))
                    }
                },
                _ => Err(
                    SML_Error::BadOperation(
                        "arithmetic only valid for numerical operands".to_owned(),
                    ),
                ),
            },
            BinaryOperation::Multiply => match (left, right) {
                (Value::Number(x), Value::Number(y)) => {
                    proof {
                        assert((*x as int) * (*y as int) < i128::MAX && (*x as int) * (*y as int)
                            > i128::MIN) by (nonlinear_arith)
                            requires
                                i64::MIN <= *x <= i64::MAX,
                                i64::MIN <= *y <= i64::MAX,
                        ;
                    }
                    let p: i128 = (*x as i128) * (*y as i128);
                    match div_trunc(p, SCALE as i128) {
                        Some(q) => Ok(Value::Number(q)),
                        None => Err(SML_Error::BadOperation("number out of range".to_owned())),
                    }
                },
                _ => Err(
                    SML_Error::BadOperation(
                        "arithmetic only valid for numerical operands".to_owned(),
                    ),
                ),
            },
            BinaryOperation::Divide => match (left, right) {
                (Value::Number(x), Value::Number(y)) => {
                    if *y == 0 {
                        Err(SML_Error::BadOperation("division by zero".to_owned()))
                    } else {
                        proof {
                            assert((*x as int) * (SCALE as int) < i128::MAX && (*x as int) * (
                            SCALE as int) > i128::MIN) by (nonlinear_arith)
                                requires
                                    i64::MIN <= *x <= i64::MAX,
                            ;
                        }
                        let p: i128 = (*x as i128) * (SCALE as i128);
                        match div_trunc(p, *y as i128) {
                            Some(q) => Ok(Value::Number(q)),
                            None => Err(SML_Error::BadOperation("number out of range".to_owned())),
                        }
                    }
                },
                _ => Err(
                    SML_Error::BadOperation(
                        "arithmetic only valid for numerical operands".to_owned(),
                    ),
                ),
            },
            BinaryOperation::Power => match (left, right) {
                (Value::Number(x), Value::Number(y)) => Self::apply_power(*x, *y),
                _ => Err(
                    SML_Error::BadOperation(
                        "arithmetic only valid for numerical operands".to_owned(),
                    ),
                ),
            },
            BinaryOperation::LessThan => match (left, right) {
                (Value::Number(x), Value::Number(y)) => Ok(Value::Bool(*x < *y)),
                _ => Err(
                    SML_Error::BadOperation(
                        "comparison only valid for numerical operands".to_owned(),
                    ),
                ),
            },
            BinaryOperation::LessThanOrEqual => match (left, right) {
                (Value::Number(x), Value::Number(y)) => Ok(Value::Bool(*x <= *y)),
                _ => Err(
                    SML_Error::BadOperation(
                        "comparison only valid for numerical operands".to_owned(),
                    ),
                ),
            },
            BinaryOperation::GreaterThan => match (left, right) {
                (Value::Number(x), Value::Number(y)) => Ok(Value::Bool(*x > *y)),
                _ => Err(
                    SML_Error::BadOperation(
                        "comparison only valid for numerical operands".to_owned(),
                    ),
                ),
            },
            BinaryOperation::GreaterThanOrEqual => match (left, right) {
                (Value::Number(x), Value::Number(y)) => Ok(Value::Bool(*x >= *y)),
                _ => Err(
                    SML_Error::BadOperation(
                        "comparison only valid for numerical operands".to_owned(),
                    ),
                ),
            },
            BinaryOperation::Equal => Ok(Value::Bool(value_eq(left, right))),
            BinaryOperation::NotEqual => Ok(Value::Bool(!value_eq(left, right))),
            BinaryOperation::And => {
                let lb = left.as_bool();
                let rb = right.as_bool();
                Ok(Value::Bool(lb && rb))
            },
            BinaryOperation::Or => {
                let lb = left.as_bool();
                let rb = right.as_bool();
                Ok(Value::Bool(lb || rb))
            },
            BinaryOperation::Contains => match left {
                Value::List(l) => {
                    proof {
                        lemma_vv_seq(l@);
                    }
                    let ghost m = vv_seq(l@);
                    let mut i: usize = 0;
                    while i < l.len()
                        invariant
                            *self == BinaryOperation::Contains,
                            i <= l@.len(),
                            *left == Value::List(*l),
                            m == vv_seq(l@),
                            m.len() == l@.len(),
                            forall|j: int| 0 <= j < l@.len() ==> m[j] == vv(#[trigger] l@[j]),
                            forall|j: int| 0 <= j < i ==> !spec_val_eq(#[trigger] m[j], vv(*right)),
                        decreases l@.len() - i,
                    {
                        if value_eq(&l[i], right) {
                            proof {
                                assert(spec_val_eq(m[i as int], vv(*right)));
                                assert(spec_list_contains(m, vv(*right)));
                            }
                            return Ok(Value::Bool(true));
                        }
                        i += 1;
                    }
                    proof {
                        assert(!spec_list_contains(m, vv(*right)));
                    }
                    Ok(Value::Bool(false))
                },
                _ => Err(
                    SML_Error::BadOperation(
                        "invalid type: syntax is '<list> contains <value>'".to_owned(),
                    ),
                ),
            },
        }
    }

    /// Raises `x` to the power `y`, both fixed-point: the exponent must be
    /// a whole, non-negative number.
    fn apply_power(x: i64, y: i64) -> (r: SML_Result<Value>)
        ensures
            ({
                let sp = spec_apply_binary(
                    BinaryOperation::Power,
                    ValueV::Num(x as int),
                    ValueV::Num(y as int),
                );
                match r {
                    Ok(v) => sp == Ok::<ValueV, ErrK>(vv(v)),
                    Err(e) => sp == Err::<ValueV, ErrK>(err_kind(e)),
                }
            }),
    {
        if y < 0 {
            return Err(SML_Error::BadOperation("exponent must be non-negative".to_owned()));
        }
        let yu = y as u64;
        let e = yu / (SCALE as u64);
        let rem = yu % (SCALE as u64);
        if rem != 0 {
            return Err(SML_Error::BadOperation("exponent must be a whole number".to_owned()));
        }
        let ghost en = ((y as int) / (SCALE as int)) as nat;
        proof {
            assert(e as int == en);
        }
        if x == SCALE {
            proof {
                lemma_fxp_pow_one(en);
            }
            return Ok(Value::Number(SCALE));
        }
        if x == -SCALE {
            proof {
                lemma_fxp_pow_neg_one(en);
            }
            if e % 2 == 0 {
                return Ok(Value::Number(SCALE));
            } else {
                return Ok(Value::Number(-SCALE));
            }
        }
        let mut acc: i64 = SCALE;
        let mut k: u64 = 0;
        while k < e
            invariant
                k <= e,
                y >= 0,
                (y as int) % (SCALE as int) == 0,
                en == ((y as int) / (SCALE as int)) as nat,
                e as int == en,
                fxp_pow(x as int, k as nat) == Some(acc as int),
            decreases e - k,
        {
            if acc == 0 {
                proof {
                    lemma_fxp_pow_zero(x as int, k as nat, en);
                }
                return Ok(Value::Number(0));
            }
            proof {
                assert((x as int) * (acc as int) < i128::MAX && (x as int) * (acc as int)
                    > i128::MIN) by (nonlinear_arith)
                    requires
                        i64::MIN <= x <= i64::MAX,
                        i64::MIN <= acc <= i64::MAX,
                ;
            }
            let p: i128 = (x as i128) * (acc as i128);
            match div_trunc(p, SCALE as i128) {
                Some(q) => {
                    acc = q;
                },
                None => {
                    proof {
                        assert(fxp_pow(x as int, (k + 1) as nat) is None);
                        lemma_fxp_pow_none(x as int, (k + 1) as nat, en);
                    }
                    return Err(SML_Error::BadOperation("number out of range".to_owned()));
                },
            }
            k = k + 1;
        }
        Ok(Value::Number(acc))
    }
}

} // verus!
