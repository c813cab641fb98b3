//! The expression compiler: infix tokens to an expression tree.
//!
//! Three passes over one line. First the tokens are prepared: literals
//! become values, list literals (`[1, 2, 3]`, nesting allowed, commas
//! optional, never empty) are folded into one value, identifiers are
//! resolved to store paths. Then a shunting-yard scan turns infix into
//! postfix: `(` is pushed, `)` pops to its match, and an arriving operator
//! first pops every stacked operator that binds at least as tightly
//! (equal precedence pops, so operators of one level associate left); a
//! `-` where an operand was expected is the unary negation. Last, the
//! postfix run is folded into a tree: a binary operator takes the two
//! topmost operands (right popped first), and exactly one tree must
//! remain — none is "no expression", several are "too many".

use vstd::prelude::*;

use crate::error::{ErrK, SML_Error, SML_Result, err_kind};
use crate::expression::{ExprV, Expression, ev};
use crate::identifier::{IdentV, Identifier, idv, spec_ident_of};
use crate::lexer::{Token, TokenV, lex_line, spec_lex_line, tv, tvs};
use crate::operation::{BinaryOperation, UnaryOperation, spec_binop_of};
use crate::state::{evs, lemma_evs};
use crate::util::to_chars;
use crate::value::{Value, ValueV, lemma_vv_seq, vv, vv_seq};

verus! {

use vstd::string::StringExecFns;

/// A prepared token: a literal value, a resolved identifier, an operator,
/// or a parenthesis.
enum PTok {
    Val(Value),
    Id(Identifier),
    Op(String),
    LP,
    RP,
}

/// The model of a prepared token.
pub enum PTokV {
    Val(ValueV),
    Id(IdentV),
    Op(Seq<char>),
    LP,
    RP,
}

spec fn ptv(t: PTok) -> PTokV {
    match t {
        PTok::Val(v) => PTokV::Val(vv(v)),
        PTok::Id(id) => PTokV::Id(idv(id)),
        PTok::Op(s) => PTokV::Op(s@),
        PTok::LP => PTokV::LP,
        PTok::RP => PTokV::RP,
    }
}

spec fn ptvs(s: Seq<PTok>) -> Seq<PTokV> {
    Seq::new(s.len(), |i: int| ptv(s[i]))
}

/// An item of the postfix run.
enum PF {
    Val(Value),
    Id(Identifier),
    Un(UnaryOperation),
    Bin(BinaryOperation),
}

/// The model of a postfix item.
pub enum PFV {
    Val(ValueV),
    Id(IdentV),
    Un(UnaryOperation),
    Bin(BinaryOperation),
}

spec fn pfv(t: PF) -> PFV {
    match t {
        PF::Val(v) => PFV::Val(vv(v)),
        PF::Id(id) => PFV::Id(idv(id)),
        PF::Un(op) => PFV::Un(op),
        PF::Bin(op) => PFV::Bin(op),
    }
}

spec fn pfvs(s: Seq<PF>) -> Seq<PFV> {
    Seq::new(s.len(), |i: int| pfv(s[i]))
}

/// An operator-stack item: a binary operator, the unary negation, or an
/// open parenthesis.
#[derive(Clone, Copy, Debug)]
enum SIt {
    SBin(BinaryOperation),
    SUn,
    SParen,
}

/// The model of an operator-stack item.
pub enum SItV {
    SBin(BinaryOperation),
    SUn,
    SParen,
}

spec fn siv(t: SIt) -> SItV {
    match t {
        SIt::SBin(op) => SItV::SBin(op),
        SIt::SUn => SItV::SUn,
        SIt::SParen => SItV::SParen,
    }
}

spec fn sivs(s: Seq<SIt>) -> Seq<SItV> {
    Seq::new(s.len(), |i: int| siv(s[i]))
}

/// Operator precedence: lower binds tighter. Products and powers at 1,
/// sums at 2, comparisons, boolean connectives and `contains` at 3,
/// assignment loosest at 4.
pub open spec fn spec_prec(op: BinaryOperation) -> int {
    match op {
        BinaryOperation::Multiply => 1,
        BinaryOperation::Divide => 1,
        BinaryOperation::Power => 1,
        BinaryOperation::Add => 2,
        BinaryOperation::Subtract => 2,
        BinaryOperation::Assign => 4,
        _ => 3,
    }
}

/// The state of the token-preparation pass: the prepared tokens so far,
/// and the stack of list literals still open.
pub struct ConvSt {
    pub out: Seq<PTokV>,
    pub lists: Seq<Seq<ValueV>>,
}

/// One value token arriving during the preparation pass: an element of
/// the innermost open list, or a prepared token of its own.
pub open spec fn conv_value(st: ConvSt, v: ValueV) -> ConvSt {
    if st.lists.len() > 0 {
        ConvSt { lists: st.lists.update(st.lists.len() - 1, st.lists.last().push(v)), ..st }
    } else {
        ConvSt { out: st.out.push(PTokV::Val(v)), ..st }
    }
}

/// Prepares the tokens from index `i` on: literals become values, list
/// literals fold into one value (elements are literals, commas optional,
/// a list is never empty), identifiers resolve; operators and
/// parentheses may not stand inside a list literal, and every `[` needs
/// its `]`.
pub open spec fn spec_conv(ts: Seq<TokenV>, i: int, st: ConvSt) -> Result<Seq<PTokV>, ErrK>
    decreases ts.len() - i,
    when 0 <= i <= ts.len()
{
    if i >= ts.len() {
        if st.lists.len() == 0 {
            Ok(st.out)
        } else {
            Err(ErrK::Syntax)
        }
    } else {
        match ts[i] {
            TokenV::Num(n) => spec_conv(ts, i + 1, conv_value(st, ValueV::Num(n))),
            TokenV::Str(s) => spec_conv(ts, i + 1, conv_value(st, ValueV::Str(s))),
            TokenV::Bool(b) => spec_conv(ts, i + 1, conv_value(st, ValueV::Bool(b))),
            TokenV::Comma => {
                if st.lists.len() > 0 {
                    spec_conv(ts, i + 1, st)
                } else {
                    Err(ErrK::Syntax)
                }
            },
            TokenV::LBracket => spec_conv(ts, i + 1, ConvSt { lists: st.lists.push(Seq::empty()), ..st }),
            TokenV::RBracket => {
                if st.lists.len() == 0 {
                    Err(ErrK::Syntax)
                } else if st.lists.last().len() == 0 {
                    Err(ErrK::Syntax)
                } else {
                    let done = ValueV::List(st.lists.last());
                    let popped = ConvSt { lists: st.lists.drop_last(), ..st };
                    spec_conv(ts, i + 1, conv_value(popped, done))
                }
            },
            TokenV::Ident(s) => {
                if st.lists.len() > 0 {
                    Err(ErrK::Syntax)
                } else {
                    match spec_ident_of(s) {
                        Ok(id) => spec_conv(
                            ts,
                            i + 1,
                            ConvSt { out: st.out.push(PTokV::Id(id)), ..st },
                        ),
                        Err(e) => Err(e),
                    }
                }
            },
            TokenV::Op(s) => {
                if st.lists.len() > 0 {
                    Err(ErrK::Syntax)
                } else {
                    spec_conv(ts, i + 1, ConvSt { out: st.out.push(PTokV::Op(s)), ..st })
                }
            },
            TokenV::LParen => {
                if st.lists.len() > 0 {
                    Err(ErrK::Syntax)
                } else {
                    spec_conv(ts, i + 1, ConvSt { out: st.out.push(PTokV::LP), ..st })
                }
            },
            TokenV::RParen => {
                if st.lists.len() > 0 {
                    Err(ErrK::Syntax)
                } else {
                    spec_conv(ts, i + 1, ConvSt { out: st.out.push(PTokV::RP), ..st })
                }
            },
        }
    }
}

/// Pops stacked operators that bind at least as tightly as precedence
/// `p` onto the output (the unary negation binds tightest of all).
pub open spec fn spec_pop_ge(ops: Seq<SItV>, out: Seq<PFV>, p: int) -> (Seq<SItV>, Seq<PFV>)
    decreases ops.len(),
{
    if ops.len() == 0 {
        (ops, out)
    } else {
        match ops.last() {
            SItV::SBin(b) => if spec_prec(b) <= p {
                spec_pop_ge(ops.drop_last(), out.push(PFV::Bin(b)), p)
            } else {
                (ops, out)
            },
            SItV::SUn => spec_pop_ge(ops.drop_last(), out.push(PFV::Un(UnaryOperation::Negate)), p),
            SItV::SParen => (ops, out),
        }
    }
}

/// Pops stacked operators down to the matching `(`, which is discarded;
/// no `(` left is a syntax error.
pub open spec fn spec_pop_paren(ops: Seq<SItV>, out: Seq<PFV>) -> Result<(Seq<SItV>, Seq<PFV>), ErrK>
    decreases ops.len(),
{
    if ops.len() == 0 {
        Err(ErrK::Syntax)
    } else {
        match ops.last() {
            SItV::SBin(b) => spec_pop_paren(ops.drop_last(), out.push(PFV::Bin(b))),
            SItV::SUn => spec_pop_paren(ops.drop_last(), out.push(PFV::Un(UnaryOperation::Negate))),
            SItV::SParen => Ok((ops.drop_last(), out)),
        }
    }
}

/// Drains the operator stack at the end of the scan; a `(` still stacked
/// is unmatched and a syntax error.
pub open spec fn spec_drain(ops: Seq<SItV>, out: Seq<PFV>) -> Result<Seq<PFV>, ErrK>
    decreases ops.len(),
{
    if ops.len() == 0 {
        Ok(out)
    } else {
        match ops.last() {
            SItV::SBin(b) => spec_drain(ops.drop_last(), out.push(PFV::Bin(b))),
            SItV::SUn => spec_drain(ops.drop_last(), out.push(PFV::Un(UnaryOperation::Negate))),
            SItV::SParen => Err(ErrK::Syntax),
        }
    }
}

/// The shunting-yard state: output so far, operator stack, and whether an
/// operand is expected next (which makes a `-` the unary negation).
pub struct ShuntSt {
    pub out: Seq<PFV>,
    pub ops: Seq<SItV>,
    pub expect: bool,
}

/// The infix-to-postfix scan from prepared token `i` on.
pub open spec fn spec_shunt(ps: Seq<PTokV>, i: int, st: ShuntSt) -> Result<Seq<PFV>, ErrK>
    decreases ps.len() - i,
    when 0 <= i <= ps.len()
{
    if i >= ps.len() {
        spec_drain(st.ops, st.out)
    } else {
        match ps[i] {
            PTokV::Val(v) => spec_shunt(
                ps,
                i + 1,
                ShuntSt { out: st.out.push(PFV::Val(v)), expect: false, ..st },
            ),
            PTokV::Id(id) => spec_shunt(
                ps,
                i + 1,
                ShuntSt { out: st.out.push(PFV::Id(id)), expect: false, ..st },
            ),
            PTokV::LP => spec_shunt(
                ps,
                i + 1,
                ShuntSt { ops: st.ops.push(SItV::SParen), expect: true, ..st },
            ),
            PTokV::RP => match spec_pop_paren(st.ops, st.out) {
                Ok((ops2, out2)) => spec_shunt(
                    ps,
                    i + 1,
                    ShuntSt { ops: ops2, out: out2, expect: false },
                ),
                Err(e) => Err(e),
            },
            PTokV::Op(s) => {
                if st.expect && s == "-"@ {
                    spec_shunt(ps, i + 1, ShuntSt { ops: st.ops.push(SItV::SUn), ..st })
                } else {
                    match spec_binop_of(s) {
                        Ok(b) => {
                            let (ops2, out2) = spec_pop_ge(st.ops, st.out, spec_prec(b));
                            spec_shunt(
                                ps,
                                i + 1,
                                ShuntSt { ops: ops2.push(SItV::SBin(b)), out: out2, expect: true },
                            )
                        },
                        Err(e) => Err(e),
                    }
                }
            },
        }
    }
}

/// Folds the postfix run into one expression tree: operands push, a
/// unary operator takes one tree, a binary operator takes two (its right
/// operand popped first); exactly one tree must remain.
pub open spec fn spec_build(pf: Seq<PFV>, i: int, stack: Seq<ExprV>) -> Result<ExprV, ErrK>
    decreases pf.len() - i,
    when 0 <= i <= pf.len()
{
    if i >= pf.len() {
        if stack.len() == 1 {
            Ok(stack[0])
        } else {
            Err(ErrK::Syntax)
        }
    } else {
        match pf[i] {
            PFV::Val(v) => spec_build(pf, i + 1, stack.push(ExprV::Value(v))),
            PFV::Id(id) => spec_build(pf, i + 1, stack.push(ExprV::Ident(id))),
            PFV::Un(op) => {
                if stack.len() >= 1 {
                    let a = stack.last();
                    spec_build(pf, i + 1, stack.drop_last().push(ExprV::Unary(op, Box::new(a))))
                } else {
                    Err(ErrK::Syntax)
                }
            },
            PFV::Bin(op) => {
                if stack.len() >= 2 {
                    let r = stack.last();
                    let l = stack.drop_last().last();
                    spec_build(
                        pf,
                        i + 1,
                        stack.drop_last().drop_last().push(
                            ExprV::Binary(op, Box::new(l), Box::new(r)),
                        ),
                    )
                } else {
                    Err(ErrK::Syntax)
                }
            },
        }
    }
}

/// The expression a token run denotes.
pub open spec fn spec_expr_of_tokens(ts: Seq<TokenV>) -> Result<ExprV, ErrK> {
    match spec_conv(ts, 0, ConvSt { out: Seq::empty(), lists: Seq::empty() }) {
        Ok(ps) => match spec_shunt(
            ps,
            0,
            ShuntSt { out: Seq::empty(), ops: Seq::empty(), expect: true },
        ) {
            Ok(pf) => spec_build(pf, 0, Seq::empty()),
            Err(e) => Err(e),
        },
        Err(e) => Err(e),
    }
}

/// The expression a source line denotes.
pub open spec fn spec_expr_of_line(s: Seq<char>) -> Result<ExprV, ErrK> {
    match spec_lex_line(s) {
        Ok(ts) => spec_expr_of_tokens(ts),
        Err(e) => Err(e),
    }
}

/// The view of a stack of open list literals.
spec fn lvv(s: Seq<Vec<Value>>) -> Seq<Seq<ValueV>> {
    Seq::new(s.len(), |i: int| vv_seq(s[i]@))
}

/// Appends a value to the innermost open list, or emits it as a
/// prepared token; mirrors [`conv_value`].
fn conv_push_value(out: &mut Vec<PTok>, lists: &mut Vec<Vec<Value>>, v: Value)
    ensures
        ({
            let st2 = conv_value(
                ConvSt { out: ptvs(old(out)@), lists: lvv(old(lists)@) },
                vv(v),
            );
            ptvs(final(out)@) == st2.out && lvv(final(lists)@) == st2.lists
        }),
{
    let ghost st0 = ConvSt { out: ptvs(out@), lists: lvv(lists@) };
    if lists.len() > 0 {
        let mut top = match lists.pop() {
            Some(t) => t,
            None => {
                proof {
                    assert(false);
                }
                return ;
            },
        };
        let ghost topm = vv_seq(top@);
        let ghost oldtop = top@;
        top.push(v);
        proof {
            lemma_vv_seq(oldtop);
            lemma_vv_seq(top@);
            assert forall|k: int| 0 <= k < top@.len() implies vv_seq(top@)[k] == topm.push(
                vv(v),
            )[k] by {
                assert(vv_seq(top@)[k] == vv(top@[k]));
                if k < oldtop.len() {
                    assert(vv_seq(oldtop)[k] == vv(oldtop[k]));
                }
            }
            assert(vv_seq(top@) =~= topm.push(vv(v)));
        }
        lists.push(top);
        proof {
            assert(lvv(lists@) =~= st0.lists.update(st0.lists.len() - 1, st0.lists.last().push(
                vv(v),
            )));
        }
    } else {
        out.push(PTok::Val(v));
        proof {
            assert(ptvs(out@) =~= st0.out.push(PTokV::Val(vv(v))));
        }
    }
}

/// Prepares a token run, per [`spec_conv`].
fn conv_tokens(ts: &Vec<Token>) -> (r: SML_Result<Vec<PTok>>)
    ensures
        ({
            let sp = spec_conv(tvs(ts@), 0, ConvSt { out: Seq::empty(), lists: Seq::empty() });
            match r {
                Ok(ps) => sp == Ok::<Seq<PTokV>, ErrK>(ptvs(ps@)),
                Err(e) => sp == Err::<Seq<PTokV>, ErrK>(err_kind(e)),
            }
        }),
{
    let ghost m = tvs(ts@);
    let mut out: Vec<PTok> = Vec::new();
    let mut lists: Vec<Vec<Value>> = Vec::new();
    proof {
        assert(ptvs(out@) =~= Seq::<PTokV>::empty());
        assert(lvv(lists@) =~= Seq::<Seq<ValueV>>::empty());
    }
    let mut i: usize = 0;
    while i < ts.len()
        invariant
            i <= ts@.len(),
            m == tvs(ts@),
            m.len() == ts@.len(),
            spec_conv(m, 0, ConvSt { out: Seq::empty(), lists: Seq::empty() }) == spec_conv(
                m,
                i as int,
                ConvSt { out: ptvs(out@), lists: lvv(lists@) },
            ),
        decreases ts@.len() - i,
    {
        let ghost st_pre = ConvSt { out: ptvs(out@), lists: lvv(lists@) };
        proof {
            assert(m[i as int] == tv(ts@[i as int]));
        }
        match &ts[i] {
            Token::Number(n) => {
                conv_push_value(&mut out, &mut lists, Value::Number(*n));
            },
            Token::String(s) => {
                conv_push_value(&mut out, &mut lists, Value::String(s.clone()));
            },
            Token::Boolean(b) => {
                conv_push_value(&mut out, &mut lists, Value::Bool(*b));
            },
            Token::Comma => {
                if lists.len() == 0 {
                    return Err(
                        SML_Error::SyntaxError("comma outside a list literal".to_owned()),
                    );
                }
            },
            Token::OpenBracket => {
                lists.push(Vec::new());
                proof {
                    assert(vv_seq(Seq::<Value>::empty()) =~= Seq::<ValueV>::empty());
                    assert(lvv(lists@) =~= st_pre.lists.push(Seq::empty()));
                }
            },
            Token::CloseBracket => {
                let top = match lists.pop() {
                    Some(t) => t,
                    None => {
                        return Err(
                            SML_Error::SyntaxError("']' without a matching '['".to_owned()),
                        );
                    },
                };
                proof {
                    assert(lvv(lists@) =~= st_pre.lists.drop_last());
                    assert(vv_seq(top@) == st_pre.lists.last());
                }
                if top.len() == 0 {
                    proof {
                        lemma_vv_seq(top@);
                    }
                    return Err(SML_Error::SyntaxError("a list literal cannot be empty".to_owned()));
                }
                proof {
                    lemma_vv_seq(top@);
                }
                conv_push_value(&mut out, &mut lists, Value::List(top));
            },
            Token::Identifier(s) => {
                if lists.len() > 0 {
                    return Err(
                        SML_Error::SyntaxError(
                            "a list literal may hold only literal values".to_owned(),
                        ),
                    );
                }
                match Identifier::from_str(s.clone()) {
                    Ok(id) => {
                        out.push(PTok::Id(id));
                        proof {
                            assert(ptvs(out@) =~= st_pre.out.push(PTokV::Id(idv(id))));
                        }
                    },
                    Err(e) => {
                        return Err(e);
                    },
                }
            },
            Token::Operator(s) => {
                if lists.len() > 0 {
                    return Err(
                        SML_Error::SyntaxError(
                            "a list literal may hold only literal values".to_owned(),
                        ),
                    );
                }
                out.push(PTok::Op(s.clone()));
                proof {
                    assert(ptvs(out@) =~= st_pre.out.push(PTokV::Op(ts@[i as int]->Operator_0@)));
                }
            },
            Token::OpenParen => {
                if lists.len() > 0 {
                    return Err(
                        SML_Error::SyntaxError(
                            "a list literal may hold only literal values".to_owned(),
                        ),
                    );
                }
                out.push(PTok::LP);
                proof {
                    assert(ptvs(out@) =~= st_pre.out.push(PTokV::LP));
                }
            },
            Token::CloseParen => {
                if lists.len() > 0 {
                    return Err(
                        SML_Error::SyntaxError(
                            "a list literal may hold only literal values".to_owned(),
                        ),
                    );
                }
                out.push(PTok::RP);
                proof {
                    assert(ptvs(out@) =~= st_pre.out.push(PTokV::RP));
                }
            },
        }
        i += 1;
    }
    if lists.len() > 0 {
        return Err(SML_Error::SyntaxError("unclosed list literal".to_owned()));
    }
    proof {
        assert(lvv(lists@).len() == lists@.len());
    }
    Ok(out)
}

/// Operator precedence, per [`spec_prec`].
fn prec_exec(op: BinaryOperation) -> (r: u8)
    ensures
        r as int == spec_prec(op),
{
    match op {
        BinaryOperation::Multiply => 1,
        BinaryOperation::Divide => 1,
        BinaryOperation::Power => 1,
        BinaryOperation::Add => 2,
        BinaryOperation::Subtract => 2,
        BinaryOperation::Assign => 4,
        _ => 3,
    }
}

/// Pops operators binding at least as tightly as `p`, per
/// [`spec_pop_ge`].
fn pop_ge_exec(ops: &mut Vec<SIt>, out: &mut Vec<PF>, p: u8)
    ensures
        (sivs(final(ops)@), pfvs(final(out)@)) == spec_pop_ge(
            sivs(old(ops)@),
            pfvs(old(out)@),
            p as int,
        ),
{
    loop
        invariant
            spec_pop_ge(sivs(old(ops)@), pfvs(old(out)@), p as int) == spec_pop_ge(
                sivs(ops@),
                pfvs(out@),
                p as int,
            ),
        decreases ops@.len(),
    {
        let ghost ops_pre = sivs(ops@);
        let ghost out_pre = pfvs(out@);
        if ops.len() == 0 {
            proof {
                assert(spec_pop_ge(ops_pre, out_pre, p as int) == (ops_pre, out_pre));
            }
            return ;
        }
        let top = ops[ops.len() - 1];
        match top {
            SIt::SBin(b) => {
                if prec_exec(b) <= p {
                    ops.pop();
                    out.push(PF::Bin(b));
                    proof {
                        assert(sivs(ops@) =~= ops_pre.drop_last());
                        assert(pfvs(out@) =~= out_pre.push(PFV::Bin(b)));
                    }
                } else {
                    return ;
                }
            },
            SIt::SUn => {
                ops.pop();
                out.push(PF::Un(UnaryOperation::Negate));
                proof {
                    assert(sivs(ops@) =~= ops_pre.drop_last());
                    assert(pfvs(out@) =~= out_pre.push(PFV::Un(UnaryOperation::Negate)));
                }
            },
            SIt::SParen => {
                return ;
            },
        }
    }
}

/// Pops operators down to the matching `(`, per [`spec_pop_paren`]:
/// `false` reports no `(` on the stack.
fn pop_paren_exec(ops: &mut Vec<SIt>, out: &mut Vec<PF>) -> (r: bool)
    ensures
        ({
            let sp = spec_pop_paren(sivs(old(ops)@), pfvs(old(out)@));
            if r {
                sp == Ok::<(Seq<SItV>, Seq<PFV>), ErrK>((sivs(final(ops)@), pfvs(final(out)@)))
            } else {
                sp is Err
            }
        }),
{
    loop
        invariant
            spec_pop_paren(sivs(old(ops)@), pfvs(old(out)@)) == spec_pop_paren(
                sivs(ops@),
                pfvs(out@),
            ),
        decreases ops@.len(),
    {
        let ghost ops_pre = sivs(ops@);
        let ghost out_pre = pfvs(out@);
        if ops.len() == 0 {
            return false;
        }
        let top = ops[ops.len() - 1];
        ops.pop();
        proof {
            assert(sivs(ops@) =~= ops_pre.drop_last());
        }
        match top {
            SIt::SBin(b) => {
                out.push(PF::Bin(b));
                proof {
                    assert(pfvs(out@) =~= out_pre.push(PFV::Bin(b)));
                }
            },
            SIt::SUn => {
                out.push(PF::Un(UnaryOperation::Negate));
                proof {
                    assert(pfvs(out@) =~= out_pre.push(PFV::Un(UnaryOperation::Negate)));
                }
            },
            SIt::SParen => {
                return true;
            },
        }
    }
}

proof fn lemma_pop_paren_err(ops: Seq<SItV>, out: Seq<PFV>)
    ensures
        spec_pop_paren(ops, out) is Err ==> spec_pop_paren(ops, out) == Err::<
            (Seq<SItV>, Seq<PFV>),
            ErrK,
        >(ErrK::Syntax),
    decreases ops.len(),
{
    if ops.len() > 0 {
        match ops.last() {
            SItV::SBin(b) => lemma_pop_paren_err(ops.drop_last(), out.push(PFV::Bin(b))),
            SItV::SUn => lemma_pop_paren_err(
                ops.drop_last(),
                out.push(PFV::Un(UnaryOperation::Negate)),
            ),
            SItV::SParen => (),
        }
    }
}

proof fn lemma_drain_err(ops: Seq<SItV>, out: Seq<PFV>)
    ensures
        spec_drain(ops, out) is Err ==> spec_drain(ops, out) == Err::<Seq<PFV>, ErrK>(
            ErrK::Syntax,
        ),
    decreases ops.len(),
{
    if ops.len() > 0 {
        match ops.last() {
            SItV::SBin(b) => lemma_drain_err(ops.drop_last(), out.push(PFV::Bin(b))),
            SItV::SUn => lemma_drain_err(ops.drop_last(), out.push(PFV::Un(UnaryOperation::Negate))),
            SItV::SParen => (),
        }
    }
}

/// Drains the operator stack at the end of the scan, per [`spec_drain`]:
/// `false` reports an unmatched `(`.
fn drain_exec(ops: &mut Vec<SIt>, out: &mut Vec<PF>) -> (r: bool)
    ensures
        ({
            let sp = spec_drain(sivs(old(ops)@), pfvs(old(out)@));
            if r {
                sp == Ok::<Seq<PFV>, ErrK>(pfvs(final(out)@))
            } else {
                sp is Err
            }
        }),
{
    loop
        invariant
            spec_drain(sivs(old(ops)@), pfvs(old(out)@)) == spec_drain(sivs(ops@), pfvs(out@)),
        decreases ops@.len(),
    {
        let ghost ops_pre = sivs(ops@);
        let ghost out_pre = pfvs(out@);
        if ops.len() == 0 {
            return true;
        }
        let top = ops[ops.len() - 1];
        match top {
            SIt::SParen => {
                return false;
            },
            SIt::SBin(b) => {
                ops.pop();
                out.push(PF::Bin(b));
                proof {
                    assert(sivs(ops@) =~= ops_pre.drop_last());
                    assert(pfvs(out@) =~= out_pre.push(PFV::Bin(b)));
                }
            },
            SIt::SUn => {
                ops.pop();
                out.push(PF::Un(UnaryOperation::Negate));
                proof {
                    assert(sivs(ops@) =~= ops_pre.drop_last());
                    assert(pfvs(out@) =~= out_pre.push(PFV::Un(UnaryOperation::Negate)));
                }
            },
        }
    }
}

/// The infix-to-postfix scan, per [`spec_shunt`].
fn shunt_tokens(ps: &Vec<PTok>) -> (r: SML_Result<Vec<PF>>)
    ensures
        ({
            let sp = spec_shunt(
                ptvs(ps@),
                0,
                ShuntSt { out: Seq::empty(), ops: Seq::empty(), expect: true },
            );
            match r {
                Ok(pf) => sp == Ok::<Seq<PFV>, ErrK>(pfvs(pf@)),
                Err(e) => sp == Err::<Seq<PFV>, ErrK>(err_kind(e)),
            }
        }),
{
    let ghost m = ptvs(ps@);
    let mut out: Vec<PF> = Vec::new();
    let mut ops: Vec<SIt> = Vec::new();
    let mut expect = true;
    proof {
        assert(pfvs(out@) =~= Seq::<PFV>::empty());
        assert(sivs(ops@) =~= Seq::<SItV>::empty());
    }
    let mut i: usize = 0;
    while i < ps.len()
        invariant
            i <= ps@.len(),
            m == ptvs(ps@),
            m.len() == ps@.len(),
            spec_shunt(m, 0, ShuntSt { out: Seq::empty(), ops: Seq::empty(), expect: true })
                == spec_shunt(m, i as int, ShuntSt { out: pfvs(out@), ops: sivs(ops@), expect }),
        decreases ps@.len() - i,
    {
        let ghost st_pre = ShuntSt { out: pfvs(out@), ops: sivs(ops@), expect };
        proof {
            assert(m[i as int] == ptv(ps@[i as int]));
        }
        match &ps[i] {
            PTok::Val(v) => {
                let c = v.deep_clone();
                out.push(PF::Val(c));
                expect = false;
                proof {
                    assert(pfvs(out@) =~= st_pre.out.push(PFV::Val(vv(*v))));
                }
            },
            PTok::Id(id) => {
                let c = id.duplicate();
                out.push(PF::Id(c));
                expect = false;
                proof {
                    assert(pfvs(out@) =~= st_pre.out.push(PFV::Id(idv(*id))));
                }
            },
            PTok::LP => {
                ops.push(SIt::SParen);
                expect = true;
                proof {
                    assert(sivs(ops@) =~= st_pre.ops.push(SItV::SParen));
                }
            },
            PTok::RP => {
                if !pop_paren_exec(&mut ops, &mut out) {
                    proof {
                        lemma_pop_paren_err(st_pre.ops, st_pre.out);
                    }
                    return Err(SML_Error::SyntaxError("unmatched ')' in expression".to_owned()));
                }
                expect = false;
            },
            PTok::Op(s) => {
                let minus = crate::util::str_eq(s.as_str(), "-");
                if expect && minus {
                    ops.push(SIt::SUn);
                    proof {
                        assert(sivs(ops@) =~= st_pre.ops.push(SItV::SUn));
                    }
                } else {
                    let b = match BinaryOperation::from_str(s.clone()) {
                        Ok(b) => b,
                        Err(e) => {
                            return Err(e);
                        },
                    };
                    let p = prec_exec(b);
                    pop_ge_exec(&mut ops, &mut out, p);
                    ops.push(SIt::SBin(b));
                    expect = true;
                    proof {
                        let (ops2, out2) = spec_pop_ge(st_pre.ops, st_pre.out, spec_prec(b));
                        assert(sivs(ops@) =~= ops2.push(SItV::SBin(b)));
                    }
                }
            },
        }
        i += 1;
    }
    let ghost ops_end = sivs(ops@);
    let ghost out_end = pfvs(out@);
    if drain_exec(&mut ops, &mut out) {
        Ok(out)
    } else {
        proof {
            lemma_drain_err(ops_end, out_end);
        }
        Err(SML_Error::SyntaxError("unmatched '(' in expression".to_owned()))
    }
}

/// Folds the postfix run into one expression, per [`spec_build`].
fn build_tokens(pf: Vec<PF>) -> (r: SML_Result<Expression>)
    ensures
        ({
            let sp = spec_build(pfvs(pf@), 0, Seq::empty());
            match r {
                Ok(e) => sp == Ok::<ExprV, ErrK>(ev(e)),
                Err(e0) => sp == Err::<ExprV, ErrK>(err_kind(e0)),
            }
        }),
{
    let ghost m = pfvs(pf@);
    let mut stack: Vec<Expression> = Vec::new();
    proof {
        lemma_evs(stack@);
        assert(evs(stack@) =~= Seq::<ExprV>::empty());
    }
    let mut i: usize = 0;
    while i < pf.len()
        invariant
            i <= pf@.len(),
            m == pfvs(pf@),
            m.len() == pf@.len(),
            spec_build(m, 0, Seq::empty()) == spec_build(m, i as int, evs(stack@)),
        decreases pf@.len() - i,
    {
        let ghost sk_pre = evs(stack@);
        proof {
            assert(m[i as int] == pfv(pf@[i as int]));
            lemma_evs(stack@);
        }
        match &pf[i] {
            PF::Val(v) => {
                let c = v.deep_clone();
                let e = Expression::Value(c);
                stack.push(e);
                proof {
                    lemma_evs(stack@);
                    assert forall|k: int| 0 <= k < stack@.len() implies evs(stack@)[k]
                        == sk_pre.push(ev(e))[k] by {
                        assert(evs(stack@)[k] == ev(stack@[k]));
                        if k < sk_pre.len() {
                            assert(sk_pre[k] == ev(stack@[k]));
                        }
                    }
                    assert(evs(stack@) =~= sk_pre.push(ev(e)));
                }
            },
            PF::Id(id) => {
                let c = id.duplicate();
                let e = Expression::Identifier(c);
                stack.push(e);
                proof {
                    lemma_evs(stack@);
                    assert forall|k: int| 0 <= k < stack@.len() implies evs(stack@)[k]
                        == sk_pre.push(ev(e))[k] by {
                        assert(evs(stack@)[k] == ev(stack@[k]));
                        if k < sk_pre.len() {
                            assert(sk_pre[k] == ev(stack@[k]));
                        }
                    }
                    assert(evs(stack@) =~= sk_pre.push(ev(e)));
                }
            },
            PF::Un(op) => {
                let a = match stack.pop() {
                    Some(a) => a,
                    None => {
                        return Err(
                            SML_Error::SyntaxError(
                                "operator missing its operand (empty expression)".to_owned(),
                            ),
                        );
                    },
                };
                proof {
                    lemma_evs(stack@);
                    assert forall|k: int| 0 <= k < stack@.len() implies evs(stack@)[k]
                        == sk_pre.drop_last()[k] by {
                        assert(evs(stack@)[k] == ev(stack@[k]));
                        assert(sk_pre[k] == ev(stack@[k]));
                    }
                    assert(evs(stack@) =~= sk_pre.drop_last());
                    assert(sk_pre.last() == ev(a));
                }
                let ghost sk_mid = evs(stack@);
                let e = Expression::Unary(*op, Box::new(a));
                stack.push(e);
                proof {
                    lemma_evs(stack@);
                    assert forall|k: int| 0 <= k < stack@.len() implies evs(stack@)[k]
                        == sk_mid.push(ev(e))[k] by {
                        assert(evs(stack@)[k] == ev(stack@[k]));
                        if k < sk_mid.len() {
                            assert(sk_mid[k] == ev(stack@[k]));
                        }
                    }
                    assert(evs(stack@) =~= sk_mid.push(ev(e)));
                }
            },
            PF::Bin(op) => {
                let rgt = match stack.pop() {
                    Some(x) => x,
                    None => {
                        return Err(
                            SML_Error::SyntaxError(
                                "operator missing its operands (empty expression)".to_owned(),
                            ),
                        );
                    },
                };
                proof {
                    lemma_evs(stack@);
                    assert forall|k: int| 0 <= k < stack@.len() implies evs(stack@)[k]
                        == sk_pre.drop_last()[k] by {
                        assert(evs(stack@)[k] == ev(stack@[k]));
                        assert(sk_pre[k] == ev(stack@[k]));
                    }
                    assert(evs(stack@) =~= sk_pre.drop_last());
                    assert(sk_pre.last() == ev(rgt));
                }
                let ghost sk_mid1 = evs(stack@);
                let lft = match stack.pop() {
                    Some(x) => x,
                    None => {
                        return Err(
                            SML_Error::SyntaxError(
                                "operator missing its operands (empty expression)".to_owned(),
                            ),
                        );
                    },
                };
                proof {
                    lemma_evs(stack@);
                    assert forall|k: int| 0 <= k < stack@.len() implies evs(stack@)[k]
                        == sk_mid1.drop_last()[k] by {
                        assert(evs(stack@)[k] == ev(stack@[k]));
                        assert(sk_mid1[k] == ev(stack@[k]));
                    }
                    assert(evs(stack@) =~= sk_mid1.drop_last());
                    assert(sk_mid1.last() == ev(lft));
                }
                let ghost sk_mid2 = evs(stack@);
                let e = Expression::Binary(*op, Box::new(lft), Box::new(rgt));
                stack.push(e);
                proof {
                    lemma_evs(stack@);
                    assert forall|k: int| 0 <= k < stack@.len() implies evs(stack@)[k]
                        == sk_mid2.push(ev(e))[k] by {
                        assert(evs(stack@)[k] == ev(stack@[k]));
                        if k < sk_mid2.len() {
                            assert(sk_mid2[k] == ev(stack@[k]));
                        }
                    }
                    assert(evs(stack@) =~= sk_mid2.push(ev(e)));
                }
            },
        }
        i += 1;
    }
    proof {
        lemma_evs(stack@);
    }
    if stack.len() == 1 {
        let e = match stack.pop() {
            Some(e) => e,
            None => {
                return Err(SML_Error::SyntaxError("no expression".to_owned()));
            },
        };
        proof {
            assert(evs(stack@).len() == 0);
        }
        Ok(e)
    } else if stack.len() == 0 {
        Err(SML_Error::SyntaxError("no expression on line".to_owned()))
    } else {
        Err(SML_Error::SyntaxError("too many expressions on line".to_owned()))
    }
}

/// Compiles one source line to an expression, per [`spec_expr_of_line`];
/// errors carry the line number `lineno`.
pub fn expr_from_str(s: &str, lineno: usize) -> (r: SML_Result<Expression>)
    ensures
        ({
            let sp = spec_expr_of_line(s@);
            match r {
                Ok(e) => sp == Ok::<ExprV, ErrK>(ev(e)),
                Err(e0) => sp == Err::<ExprV, ErrK>(err_kind(e0)),
            }
        }),
{
    let cs = to_chars(s);
    let ts = match lex_line(&cs) {
        Ok(ts) => ts,
        Err(e) => {
            return Err(with_line(e, lineno));
        },
    };
    let ps = match conv_tokens(&ts) {
        Ok(ps) => ps,
        Err(e) => {
            return Err(with_line(e, lineno));
        },
    };
    let pf = match shunt_tokens(&ps) {
        Ok(pf) => pf,
        Err(e) => {
            return Err(with_line(e, lineno));
        },
    };
    match build_tokens(pf) {
        Ok(e) => Ok(e),
        Err(e) => Err(with_line(e, lineno)),
    }
}

/// Appends ` (line N)` to an error's message, keeping its kind.
pub(crate) fn with_line(e: SML_Error, lineno: usize) -> (r: SML_Error)
    ensures
        err_kind(r) == err_kind(e),
{
    let mut suffix: Vec<char> = to_chars(" (line ");
    let mut digits = crate::util::usize_to_chars(lineno);
    suffix.append(&mut digits);
    suffix.push(')');
    let tail = crate::util::chars_to_string(&suffix);
    match e {
        SML_Error::JsonFormatError(m) => SML_Error::JsonFormatError(m.concat(tail.as_str())),
        SML_Error::BadOperation(m) => SML_Error::BadOperation(m.concat(tail.as_str())),
        SML_Error::NonexistantState(m) => SML_Error::NonexistantState(m),
        SML_Error::IdentifierNameError(m) => SML_Error::IdentifierNameError(m),
        SML_Error::IdentifierError(m) => SML_Error::IdentifierError(m.concat(tail.as_str())),
        SML_Error::InputsWriteError => SML_Error::InputsWriteError,
        SML_Error::SyntaxError(m) => SML_Error::SyntaxError(m.concat(tail.as_str())),
        SML_Error::CompilerError(m) => SML_Error::CompilerError(m.concat(tail.as_str())),
    }
}

} // verus!
