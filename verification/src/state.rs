//! States: head expressions, ordered conditional branches, transitions.
//!
//! Running a state is one cycle: the shared default head runs first, then
//! the state's own head, then the first branch whose condition is truthy
//! (or the branch marked default, when advancing); the branch's transition
//! says where the machine goes next.

use vstd::prelude::*;

use crate::error::{ErrK, SML_Error, SML_Result, err_kind};
use crate::expression::{ExprV, Expression, ev, spec_eval};
use crate::json::{Json, JsonV, jv};
use crate::util::{chars_skip, chars_starts_with, chars_to_string, str_eq, to_chars};
use crate::value::spec_as_bool;

verus! {

/// A transition: stay in this state, change to a named state, or end.
#[derive(Debug)]
pub enum StateOp {
    Stay,
    ChangeTo(String),
    End,
}

/// The mathematical model of a [`StateOp`].
pub enum StateOpV {
    Stay,
    ChangeTo(Seq<char>),
    End,
}

/// The model of a transition.
pub open spec fn sov(op: StateOp) -> StateOpV {
    match op {
        StateOp::Stay => StateOpV::Stay,
        StateOp::ChangeTo(s) => StateOpV::ChangeTo(s@),
        StateOp::End => StateOpV::End,
    }
}

/// The transition a source line denotes: `stay`, `end`, or
/// `changeto <name>`.
pub open spec fn spec_stateop_of(s: Seq<char>) -> Result<StateOpV, ErrK> {
    if s.len() >= 9 && s.subrange(0, 9) == "changeto "@ {
        Ok(StateOpV::ChangeTo(s.skip(9)))
    } else if s == "stay"@ {
        Ok(StateOpV::Stay)
    } else if s == "end"@ {
        Ok(StateOpV::End)
    } else {
        Err(ErrK::Syntax)
    }
}

impl StateOp {
    /// A copy of this transition.
    pub fn duplicate(&self) -> (r: StateOp)
        ensures
            sov(r) == sov(*self),
    {
        match self {
            StateOp::Stay => StateOp::Stay,
            StateOp::ChangeTo(s) => StateOp::ChangeTo(s.clone()),
            StateOp::End => StateOp::End,
        }
    }

    /// Parses a transition line.
    pub fn from_str(s: &str) -> (r: SML_Result<StateOp>)
        ensures
            ({
                let sp = spec_stateop_of(s@);
                match r {
                    Ok(op) => sp == Ok::<StateOpV, ErrK>(sov(op)),
                    Err(e) => sp == Err::<StateOpV, ErrK>(err_kind(e)),
                }
            }),
    {
        let cs = to_chars(s);
        let prefix = to_chars("changeto ");
        proof {
            reveal_strlit("changeto ");
        }
        if chars_starts_with(&cs, &prefix) {
            let rest = chars_skip(&cs, prefix.len());
            return Ok(StateOp::ChangeTo(chars_to_string(&rest)));
        }
        if str_eq(s, "stay") {
            return Ok(StateOp::Stay);
        }
        if str_eq(s, "end") {
            return Ok(StateOp::End);
        }
        Err(SML_Error::SyntaxError("expected 'stay', 'end', or 'changeto <state>'".to_owned()))
    }
}

/// A branch: a condition, a body of expressions, and a transition.
pub type StateBranch = (Expression, Vec<Expression>, StateOp);

/// The model of a branch.
pub type StateBranchV = (ExprV, Seq<ExprV>, StateOpV);

/// The models of the expressions of `s` from index `i` on.
pub open spec fn evs_from(s: Seq<Expression>, i: int) -> Seq<ExprV>
    decreases s, s.len() - i,
{
    if 0 <= i < s.len() {
        seq![ev(s[i])] + evs_from(s, i + 1)
    } else {
        Seq::empty()
    }
}

/// The models of the expressions of `s`.
pub open spec fn evs(s: Seq<Expression>) -> Seq<ExprV>
    decreases s, s.len() + 1,
{
    evs_from(s, 0)
}

proof fn lemma_evs_from(s: Seq<Expression>, i: int)
    requires
        0 <= i <= s.len(),
    ensures
        evs_from(s, i).len() == s.len() - i,
        forall|j: int| i <= j < s.len() ==> evs_from(s, i)[j - i] == ev(#[trigger] s[j]),
    decreases s.len() - i,
{
    if i < s.len() {
        lemma_evs_from(s, i + 1);
    }
}

/// The model of a sequence of expressions is the sequence of their models.
pub broadcast proof fn lemma_evs(s: Seq<Expression>)
    ensures
        (#[trigger] evs(s)).len() == s.len(),
        forall|j: int| 0 <= j < s.len() ==> evs(s)[j] == ev(#[trigger] s[j]),
{
    lemma_evs_from(s, 0);
}

/// The models of the branches of `s` from index `i` on.
pub open spec fn bvs_from(s: Seq<StateBranch>, i: int) -> Seq<StateBranchV>
    decreases s, s.len() - i, 1int,
{
    if 0 <= i < s.len() {
        seq![(ev(s[i].0), evs(s[i].1@), sov(s[i].2))] + bvs_from(s, i + 1)
    } else {
        Seq::empty()
    }
}

/// The models of the branches of `s`.
pub open spec fn bvs(s: Seq<StateBranch>) -> Seq<StateBranchV>
    decreases s, s.len() + 1, 1int,
{
    bvs_from(s, 0)
}

proof fn lemma_bvs_from(s: Seq<StateBranch>, i: int)
    requires
        0 <= i <= s.len(),
    ensures
        bvs_from(s, i).len() == s.len() - i,
        forall|j: int|
            i <= j < s.len() ==> bvs_from(s, i)[j - i] == (ev((#[trigger] s[j]).0), evs(s[j].1@), sov(
                s[j].2,
            )),
    decreases s.len() - i,
{
    if i < s.len() {
        lemma_bvs_from(s, i + 1);
    }
}

/// The model of a sequence of branches is the sequence of their models.
pub broadcast proof fn lemma_bvs(s: Seq<StateBranch>)
    ensures
        (#[trigger] bvs(s)).len() == s.len(),
        forall|j: int|
            0 <= j < s.len() ==> bvs(s)[j] == (ev((#[trigger] s[j]).0), evs(s[j].1@), sov(s[j].2)),
{
    lemma_bvs_from(s, 0);
}

/// A named state: head expressions, branches, and perhaps a branch marked
/// default.
#[derive(Debug)]
pub struct State {
    name: String,
    head: Vec<Expression>,
    body: Vec<StateBranch>,
    default_branch: Option<usize>,
}

/// The mathematical model of a [`State`].
pub struct StateV {
    pub name: Seq<char>,
    pub head: Seq<ExprV>,
    pub body: Seq<StateBranchV>,
    pub default_branch: Option<int>,
}

/// The model of a state.
pub closed spec fn stv(s: State) -> StateV {
    StateV {
        name: s.name@,
        head: evs(s.head@),
        body: bvs(s.body@),
        default_branch: match s.default_branch {
            Some(i) => Some(i as int),
            None => None,
        },
    }
}

/// What evaluating a list of expressions in order does to the stores:
/// each expression sees the writes of those before it, and the first
/// failure stops the list with the writes so far kept.
pub struct ListOut {
    pub ok: Option<ErrK>,
    pub o: JsonV,
    pub g: JsonV,
}

/// Evaluates `es` in order against the stores.
pub open spec fn spec_eval_list(es: Seq<ExprV>, i: JsonV, o: JsonV, g: JsonV) -> ListOut
    decreases es.len(),
{
    if es.len() == 0 {
        ListOut { ok: None, o, g }
    } else {
        let r0 = spec_eval(es[0], i, o, g);
        match r0.res {
            Ok(_) => spec_eval_list(es.skip(1), i, r0.o, r0.g),
            Err(e) => ListOut { ok: Some(e), o: r0.o, g: r0.g },
        }
    }
}

/// What running the branch phase yields: the chosen transition (or an
/// error), and the stores afterwards.
pub struct BranchOut {
    pub res: Result<StateOpV, ErrK>,
    pub o: JsonV,
    pub g: JsonV,
}

/// Tries the branches in order: the first whose condition coerces to true
/// runs its body and supplies its transition; with no truthy branch the
/// machine stays.
pub open spec fn spec_run_branches(bs: Seq<StateBranchV>, i: JsonV, o: JsonV, g: JsonV) -> BranchOut
    decreases bs.len(),
{
    if bs.len() == 0 {
        BranchOut { res: Ok(StateOpV::Stay), o, g }
    } else {
        let c = spec_eval(bs[0].0, i, o, g);
        match c.res {
            Ok(v) => if spec_as_bool(v) {
                let lo = spec_eval_list(bs[0].1, i, c.o, c.g);
                match lo.ok {
                    None => BranchOut { res: Ok(bs[0].2), o: lo.o, g: lo.g },
                    Some(e) => BranchOut { res: Err(e), o: lo.o, g: lo.g },
                }
            } else {
                spec_run_branches(bs.skip(1), i, c.o, c.g)
            },
            Err(e) => BranchOut { res: Err(e), o: c.o, g: c.g },
        }
    }
}

/// What one cycle of a state yields: the outputs produced and the
/// transition to follow (or an error), and the globals afterwards.
pub struct RunOut {
    pub res: Result<(JsonV, StateOpV), ErrK>,
    pub g: JsonV,
}

/// One cycle: fresh empty outputs, the shared default head, the state's
/// own head, then the branch phase — the branch marked default when
/// advancing, the first truthy branch otherwise.
pub open spec fn spec_run_state(
    sv: StateV,
    i: JsonV,
    g: JsonV,
    dh: Seq<ExprV>,
    advance: bool,
) -> RunOut {
    let o0 = JsonV::Obj(Seq::empty());
    let d = spec_eval_list(dh, i, o0, g);
    match d.ok {
        Some(e) => RunOut { res: Err(e), g: d.g },
        None => {
            let h = spec_eval_list(sv.head, i, d.o, d.g);
            match h.ok {
                Some(e) => RunOut { res: Err(e), g: h.g },
                None => {
                    if advance {
                        match sv.default_branch {
                            Some(di) => if 0 <= di < sv.body.len() {
                                let lo = spec_eval_list(sv.body[di].1, i, h.o, h.g);
                                match lo.ok {
                                    None => RunOut { res: Ok((lo.o, sv.body[di].2)), g: lo.g },
                                    Some(e) => RunOut { res: Err(e), g: lo.g },
                                }
                            } else {
                                RunOut { res: Err(ErrK::Compiler), g: h.g }
                            },
                            None => RunOut { res: Err(ErrK::Compiler), g: h.g },
                        }
                    } else {
                        let b = spec_run_branches(sv.body, i, h.o, h.g);
                        match b.res {
                            Ok(op) => RunOut { res: Ok((b.o, op)), g: b.g },
                            Err(e) => RunOut { res: Err(e), g: b.g },
                        }
                    }
                },
            }
        },
    }
}

/// Evaluates `es` in order against the stores, per [`spec_eval_list`].
fn eval_list(es: &Vec<Expression>, i: &Json, o: &mut Json, g: &mut Json) -> (r: SML_Result<()>)
    ensures
        ({
            let lo = spec_eval_list(evs(es@), jv(*i), jv(*old(o)), jv(*old(g)));
            jv(*final(o)) == lo.o && jv(*final(g)) == lo.g && (match r {
                Ok(_) => lo.ok is None,
                Err(e) => lo.ok == Some(err_kind(e)),
            })
        }),
{
    proof {
        lemma_evs(es@);
    }
    let ghost m = evs(es@);
    let ghost o0 = jv(*o);
    let ghost g0 = jv(*g);
    proof {
        assert(m.skip(0) =~= m);
    }
    let mut k: usize = 0;
    while k < es.len()
        invariant
            k <= es@.len(),
            m == evs(es@),
            m.len() == es@.len(),
            forall|j: int| 0 <= j < es@.len() ==> m[j] == ev(#[trigger] es@[j]),
            o0 == jv(*old(o)),
            g0 == jv(*old(g)),
            spec_eval_list(m, jv(*i), o0, g0) == spec_eval_list(
                m.skip(k as int),
                jv(*i),
                jv(*o),
                jv(*g),
            ),
        decreases es@.len() - k,
    {
        let ghost rem = m.skip(k as int);
        proof {
            assert(rem[0] == m[k as int]);
        }
        match es[k].evaluate(i, o, g) {
            Ok(_) => {},
            Err(e) => {
                return Err(e);
            },
        }
        proof {
            assert(rem.skip(1) =~= m.skip(k + 1));
        }
        k += 1;
    }
    proof {
        assert(m.skip(k as int) =~= Seq::<ExprV>::empty());
    }
    Ok(())
}

impl State {
    /// A new state with no branch marked default.
    pub fn new(name: String, head: Vec<Expression>, body: Vec<StateBranch>) -> (r: State)
        ensures
            stv(r) == (StateV {
                name: name@,
                head: evs(head@),
                body: bvs(body@),
                default_branch: None::<int>,
            }),
    {
        State { name, head, body, default_branch: None }
    }

    /// Marks branch `i` as the default; an index past the branches is a
    /// compiler error and changes nothing.
    pub fn set_default(&mut self, i: usize) -> (r: SML_Result<()>)
        ensures
            ({
                if (i as int) < stv(*old(self)).body.len() {
                    r is Ok && stv(*final(self)) == (StateV {
                        default_branch: Some(i as int),
                        ..stv(*old(self))
                    })
                } else {
                    r is Err && err_kind(r->Err_0) == ErrK::Compiler && *final(self) == *old(self)
                }
            }),
    {
        proof {
            lemma_bvs(self.body@);
        }
        if i >= self.body.len() {
            Err(SML_Error::CompilerError("branch index out of range".to_owned()))
        } else {
            self.default_branch = Some(i);
            Ok(())
        }
    }

    /// This state's name.
    pub fn name(&self) -> (r: &String)
        ensures
            r@ == stv(*self).name,
    {
        &self.name
    }

    /// One cycle with branch conditions deciding.
    pub fn run(&self, i: &Json, g: &mut Json, default_head: &Vec<Expression>) -> (r: SML_Result<
        (Json, StateOp),
    >)
        ensures
            ({
                let ro = spec_run_state(stv(*self), jv(*i), jv(*old(g)), evs(default_head@), false);
                jv(*final(g)) == ro.g && (match r {
                    Ok((o, op)) => ro.res == Ok::<(JsonV, StateOpV), ErrK>((jv(o), sov(op))),
                    Err(e) => ro.res == Err::<(JsonV, StateOpV), ErrK>(err_kind(e)),
                })
            }),
    {
        self.run_or_advance(i, g, default_head, false)
    }

    /// One cycle that runs the branch marked default, conditions unread.
    pub fn run_default(&self, i: &Json, g: &mut Json, default_head: &Vec<Expression>) -> (r:
        SML_Result<(Json, StateOp)>)
        ensures
            ({
                let ro = spec_run_state(stv(*self), jv(*i), jv(*old(g)), evs(default_head@), true);
                jv(*final(g)) == ro.g && (match r {
                    Ok((o, op)) => ro.res == Ok::<(JsonV, StateOpV), ErrK>((jv(o), sov(op))),
                    Err(e) => ro.res == Err::<(JsonV, StateOpV), ErrK>(err_kind(e)),
                })
            }),
    {
        self.run_or_advance(i, g, default_head, true)
    }

    /// One cycle, per [`spec_run_state`].
    fn run_or_advance(
        &self,
        i: &Json,
        g: &mut Json,
        default_head: &Vec<Expression>,
        advance: bool,
    ) -> (r: SML_Result<(Json, StateOp)>)
        ensures
            ({
                let ro = spec_run_state(
                    stv(*self),
                    jv(*i),
                    jv(*old(g)),
                    evs(default_head@),
                    advance,
                );
                jv(*final(g)) == ro.g && (match r {
                    Ok((o, op)) => ro.res == Ok::<(JsonV, StateOpV), ErrK>((jv(o), sov(op))),
                    Err(e) => ro.res == Err::<(JsonV, StateOpV), ErrK>(err_kind(e)),
                })
            }),
    {
        let mut o = Json::new_object();
        match eval_list(default_head, i, &mut o, g) {
            Ok(_) => {},
            Err(e) => {
                return Err(e);
            },
        }
        proof {
            lemma_evs(self.head@);
        }
        match eval_list(&self.head, i, &mut o, g) {
            Ok(_) => {},
            Err(e) => {
                return Err(e);
            },
        }
        let ghost bm = stv(*self).body;
        proof {
            lemma_bvs(self.body@);
        }
        if advance {
            let di = match self.default_branch {
                Some(di) => di,
                None => {
                    return Err(
                        SML_Error::CompilerError("state has no branch marked default".to_owned()),
                    );
                },
            };
            if di >= self.body.len() {
                return Err(SML_Error::CompilerError("default branch out of range".to_owned()));
            }
            proof {
                lemma_evs(self.body@[di as int].1@);
                assert(bm[di as int].1 == evs(self.body@[di as int].1@));
            }
            match eval_list(&self.body[di].1, i, &mut o, g) {
                Ok(_) => {},
                Err(e) => {
                    return Err(e);
                },
            }
            let op = self.body[di].2.duplicate();
            return Ok((o, op));
        }
        let ghost o1 = jv(o);
        let ghost g1 = jv(*g);
        proof {
            assert(bm.skip(0) =~= bm);
        }
        let mut k: usize = 0;
        while k < self.body.len()
            invariant
                k <= self.body@.len(),
                bm == stv(*self).body,
                bm == bvs(self.body@),
                bm.len() == self.body@.len(),
                forall|j: int|
                    0 <= j < self.body@.len() ==> bm[j] == (ev((#[trigger] self.body@[j]).0), evs(
                        self.body@[j].1@,
                    ), sov(self.body@[j].2)),
                advance == false,
                ({
                    let ro = spec_run_state(
                        stv(*self),
                        jv(*i),
                        jv(*old(g)),
                        evs(default_head@),
                        false,
                    );
                    let b = spec_run_branches(bm, jv(*i), o1, g1);
                    ro == (match b.res {
                        Ok(op) => RunOut { res: Ok::<(JsonV, StateOpV), ErrK>((b.o, op)), g: b.g },
                        Err(e) => RunOut { res: Err::<(JsonV, StateOpV), ErrK>(e), g: b.g },
                    })
                }),
                spec_run_branches(bm, jv(*i), o1, g1) == spec_run_branches(
                    bm.skip(k as int),
                    jv(*i),
                    jv(o),
                    jv(*g),
                ),
            decreases self.body@.len() - k,
        {
            let ghost rem = bm.skip(k as int);
            proof {
                assert(rem[0] == bm[k as int]);
            }
            let cond = match self.body[k].0.evaluate(i, &mut o, g) {
                Ok(v) => v,
                Err(e) => {
                    return Err(e);
                },
            };
            if cond.as_bool() {
                proof {
                    lemma_evs(self.body@[k as int].1@);
                    assert(bm[k as int].1 == evs(self.body@[k as int].1@));
                }
                match eval_list(&self.body[k].1, i, &mut o, g) {
                    Ok(_) => {},
                    Err(e) => {
                        return Err(e);
                    },
                }
                let op = self.body[k].2.duplicate();
                return Ok((o, op));
            }
            proof {
                assert(rem.skip(1) =~= bm.skip(k + 1));
            }
            k += 1;
        }
        proof {
            assert(bm.skip(k as int) =~= Seq::<StateBranchV>::empty());
        }
        Ok((o, StateOp::Stay))
    }
}

} // verus!
