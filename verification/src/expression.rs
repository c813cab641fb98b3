//! Expression trees and their evaluation against the three stores.
//!
//! Evaluation is effectful: assignments write into the output or global
//! store as they are reached, and a failure part-way leaves the writes
//! already made in place (there is no rollback).

use vstd::prelude::*;

use crate::error::{ErrK, SML_Error, SML_Result, err_kind};
use crate::identifier::{IdentV, Identifier, idv, spec_ident_get, spec_ident_set};
use crate::json::{Json, JsonV, jv};
use crate::operation::{
    BinaryOperation,
    UnaryOperation,
    spec_apply_binary,
    spec_apply_unary,
};
use crate::value::{Value, ValueV, vv};

verus! {

/// An expression: a literal, an identifier, or an operator application.
#[derive(Debug)]
pub enum Expression {
    Value(Value),
    Identifier(Identifier),
    Unary(UnaryOperation, Box<Expression>),
    Binary(BinaryOperation, Box<Expression>, Box<Expression>),
}

/// The mathematical model of an [`Expression`].
pub enum ExprV {
    Value(ValueV),
    Ident(IdentV),
    Unary(UnaryOperation, Box<ExprV>),
    Binary(BinaryOperation, Box<ExprV>, Box<ExprV>),
}

/// The model of an expression.
pub open spec fn ev(e: Expression) -> ExprV
    decreases e,
{
    match e {
        Expression::Value(v) => ExprV::Value(vv(v)),
        Expression::Identifier(id) => ExprV::Ident(idv(id)),
        Expression::Unary(op, a) => ExprV::Unary(op, Box::new(ev(*a))),
        Expression::Binary(op, a, b) => ExprV::Binary(op, Box::new(ev(*a)), Box::new(ev(*b))),
    }
}

/// What evaluating an expression yields: a result, and the output and
/// global stores as they stand afterwards (possibly changed even on
/// failure).
pub struct EvalOut {
    pub res: Result<ValueV, ErrK>,
    pub o: JsonV,
    pub g: JsonV,
}

/// Evaluates an expression against the stores. A literal is itself; an
/// identifier is read; a unary or binary operator evaluates its right
/// operand first, then its left, then applies; an assignment evaluates
/// its right side and writes it through the identifier on its left, and
/// is worth the assigned value.
pub open spec fn spec_eval(e: ExprV, i: JsonV, o: JsonV, g: JsonV) -> EvalOut
    decreases e,
{
    match e {
        ExprV::Value(v) => EvalOut { res: Ok(v), o, g },
        ExprV::Ident(id) => EvalOut { res: spec_ident_get(id, i, o, g), o, g },
        ExprV::Unary(op, a) => {
            let ra = spec_eval(*a, i, o, g);
            match ra.res {
                Ok(v) => EvalOut { res: spec_apply_unary(op, v), o: ra.o, g: ra.g },
                Err(_) => ra,
            }
        },
        ExprV::Binary(op, l, r) => {
            let rr = spec_eval(*r, i, o, g);
            match rr.res {
                Ok(rv) => {
                    if op == BinaryOperation::Assign {
                        match *l {
                            ExprV::Ident(id) => match spec_ident_set(id, rr.o, rr.g, rv) {
                                Ok((no, ng)) => EvalOut { res: Ok(rv), o: no, g: ng },
                                Err(e0) => EvalOut { res: Err(e0), o: rr.o, g: rr.g },
                            },
                            _ => EvalOut { res: Err(ErrK::BadOperation), o: rr.o, g: rr.g },
                        }
                    } else {
                        let rl = spec_eval(*l, i, rr.o, rr.g);
                        match rl.res {
                            Ok(lv) => EvalOut {
                                res: spec_apply_binary(op, lv, rv),
                                o: rl.o,
                                g: rl.g,
                            },
                            Err(_) => rl,
                        }
                    }
                },
                Err(_) => rr,
            }
        },
    }
}

impl Expression {
    /// Evaluates this expression against the stores, writing through
    /// assignments as they are reached.
    pub fn evaluate(&self, i: &Json, o: &mut Json, g: &mut Json) -> (r: SML_Result<Value>)
        ensures
            ({
                let out = spec_eval(ev(*self), jv(*i), jv(*old(o)), jv(*old(g)));
                out.o == jv(*final(o)) && out.g == jv(*final(g)) && (match r {
                    Ok(v) => out.res == Ok::<ValueV, ErrK>(vv(v)),
                    Err(e) => out.res == Err::<ValueV, ErrK>(err_kind(e)),
                })
            }),
        decreases *self,
    {
        match self {
            Expression::Value(value) => Ok(value.deep_clone()),
            Expression::Identifier(identifier) => identifier.get(i, o, g),
            Expression::Unary(op, operand) => {
                match operand.evaluate(i, o, g) {
                    Ok(v) => op.apply(&v),
                    Err(e) => Err(e),
                }
            },
            Expression::Binary(op, left, right) => {
                let rv = match right.evaluate(i, o, g) {
                    Ok(v) => v,
                    Err(e) => {
                        return Err(e);
                    },
                };
                if matches!(op, BinaryOperation::Assign) {
                    match &**left {
                        Expression::Identifier(identifier) => {
                            proof {
                                assert(ev(**left) == ExprV::Ident(idv(*identifier)));
                            }
                            match identifier.set(o, g, &rv) {
                                Ok(_) => Ok(rv),
                                Err(e) => Err(e),
                            }
                        },
                        _ => Err(
                            SML_Error::BadOperation("can only assign to an identifier".to_owned()),
                        ),
                    }
                } else {
                    let lv = match left.evaluate(i, o, g) {
                        Ok(v) => v,
                        Err(e) => {
                            return Err(e);
                        },
                    };
                    op.apply(&lv, &rv)
                }
            },
        }
    }
}

} // verus!
