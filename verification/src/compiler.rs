//! The block compiler: indentation-structured source text to a machine.
//!
//! A single forward scan over the lines, driven by a stack of parse
//! states. `state <name>:` opens a state, `default head:` the shared
//! head. The first indented line after either fixes the one-level indent;
//! doubling it gives the branch-body level. A line that fails to match
//! the expected level closes the open block (and is looked at again one
//! level up); an over-indented line is an error. Comment lines starting
//! with `#` never count. The first state in the text is where the
//! machine starts.

use vstd::prelude::*;

use crate::error::{ErrK, SML_Error, SML_Result, err_kind};
use crate::expression::{ExprV, Expression, ev};
use crate::json::JsonV;
use crate::parse_expression::{expr_from_str, spec_expr_of_line, with_line};
use crate::state::{State, StateOp, StateOpV, StateV, evs, lemma_evs, sov, stv};
use crate::state_machine::{MachineV, StateMachine, machine_inv, smv, stvs, lemma_stvs};
use crate::util::{chars_eq, chars_skip, chars_starts_with, chars_to_string, to_chars};

verus! {

/// Whether `c` is line whitespace.
pub open spec fn is_ws(c: char) -> bool {
    c == ' ' || c == '\t'
}

/// How many whitespace characters open the line.
pub open spec fn ws_len(s: Seq<char>, i: int) -> int
    decreases s.len() - i,
    when 0 <= i <= s.len()
{
    if i >= s.len() {
        i
    } else if is_ws(s[i]) {
        ws_len(s, i + 1)
    } else {
        i
    }
}

/// The line without its leading whitespace.
pub open spec fn trim_start(s: Seq<char>) -> Seq<char> {
    s.skip(ws_len(s, 0))
}

/// A line of nothing but whitespace.
pub open spec fn line_blank(s: Seq<char>) -> bool {
    forall|j: int| 0 <= j < s.len() ==> is_ws(#[trigger] s[j])
}

/// Whether `p` opens `s`.
pub open spec fn is_prefix(p: Seq<char>, s: Seq<char>) -> bool {
    p.len() <= s.len() && s.subrange(0, p.len() as int) == p
}

/// A line with its trailing carriage return, if any, dropped.
pub open spec fn strip_cr(s: Seq<char>) -> Seq<char> {
    if s.len() > 0 && s.last() == '\r' {
        s.drop_last()
    } else {
        s
    }
}

/// The source text as lines: split at newlines, carriage returns
/// stripped, and one final empty line (from a trailing newline) dropped.
pub open spec fn spec_lines(src: Seq<char>) -> Seq<Seq<char>> {
    let parts = crate::identifier::split_char(src, '\n');
    let parts2 = if parts.len() > 0 && parts.last().len() == 0 {
        parts.drop_last()
    } else {
        parts
    };
    Seq::new(parts2.len(), |i: int| strip_cr(parts2[i]))
}

/// What the scanner is in the middle of.
#[derive(Clone, Copy, Debug, PartialEq, Eq, Structural)]
pub enum CState {
    TopLevel,
    InState,
    StateHead,
    StateBranch,
    DefaultHead,
}

/// A branch being collected.
pub struct BranchDataV {
    pub cond: ExprV,
    pub body: Seq<ExprV>,
    pub op: StateOpV,
    pub is_default: bool,
}

/// A state being collected.
pub struct StateDataV {
    pub name: Seq<char>,
    pub head: Seq<ExprV>,
    pub branches: Seq<BranchDataV>,
    pub has_default: bool,
    pub has_otherwise: bool,
    pub has_always: bool,
}

/// The whole scanner state.
pub struct CompSt {
    pub stack: Seq<CState>,
    pub state_data: Option<StateDataV>,
    pub branch: Option<BranchDataV>,
    pub default_head: Seq<ExprV>,
    pub states: Seq<StateV>,
    pub ws: Option<(Seq<char>, Seq<char>)>,
}

/// The scanner's starting state.
pub open spec fn comp_init() -> CompSt {
    CompSt {
        stack: seq![CState::TopLevel],
        state_data: None,
        branch: None,
        default_head: Seq::empty(),
        states: Seq::empty(),
        ws: None,
    }
}

/// The index of the first branch marked default, from `i` on.
pub open spec fn find_default(bs: Seq<BranchDataV>, i: int) -> Option<int>
    decreases bs.len() - i,
{
    if 0 <= i < bs.len() {
        if bs[i].is_default {
            Some(i)
        } else {
            find_default(bs, i + 1)
        }
    } else {
        None
    }
}

/// Seals a collected state: the branches become the state's body, and
/// the recorded default marker resolves to its branch index (that the
/// marker resolves is the compiler's own invariant; failing it is an
/// internal error, not the user's).
pub open spec fn finalize_state(sd: StateDataV) -> Result<StateV, ErrK> {
    let body = Seq::new(sd.branches.len(), |i: int| (sd.branches[i].cond, sd.branches[i].body, sd.branches[i].op));
    if sd.has_default {
        match find_default(sd.branches, 0) {
            Some(di) => Ok(
                StateV { name: sd.name, head: sd.head, body, default_branch: Some(di) },
            ),
            None => Err(ErrK::Compiler),
        }
    } else {
        Ok(StateV { name: sd.name, head: sd.head, body, default_branch: None })
    }
}

/// A fresh branch with condition `cond`: body empty, transition `stay`,
/// not the default.
pub open spec fn new_branch(cond: ExprV) -> BranchDataV {
    BranchDataV { cond, body: Seq::empty(), op: StateOpV::Stay, is_default: false }
}

/// A fresh state named `name`.
pub open spec fn new_state_data(name: Seq<char>) -> StateDataV {
    StateDataV {
        name,
        head: Seq::empty(),
        branches: Seq::empty(),
        has_default: false,
        has_otherwise: false,
        has_always: false,
    }
}

/// The machine a source text compiles to, scanning from line `i` in
/// state `st`; see the module doc for the grammar.
pub open spec fn spec_compile_at(lines: Seq<Seq<char>>, i: int, st: CompSt) -> Result<
    MachineV,
    ErrK,
>
    decreases lines.len() - i, st.stack.len(),
    when 0 <= i <= lines.len() && st.stack.len() >= 1
{
    if i >= lines.len() {
        let st1 = match st.branch {
            Some(b) => match st.state_data {
                Some(sd) => Some(
                    CompSt {
                        branch: None,
                        state_data: Some(
                            StateDataV { branches: sd.branches.push(b), ..sd },
                        ),
                        ..st
                    },
                ),
                None => None,
            },
            None => Some(st),
        };
        match st1 {
            None => Err(ErrK::Compiler),
            Some(st1) => {
                let st2 = match st1.state_data {
                    Some(sd) => match finalize_state(sd) {
                        Ok(sv) => Ok(
                            CompSt { state_data: None, states: st1.states.push(sv), ..st1 },
                        ),
                        Err(e) => Err(e),
                    },
                    None => Ok(st1),
                };
                match st2 {
                    Err(e) => Err(e),
                    Ok(st2) => {
                        if st2.states.len() == 0 {
                            Err(ErrK::Syntax)
                        } else {
                            Ok(
                                MachineV {
                                    globals: JsonV::Obj(Seq::empty()),
                                    default_head: st2.default_head,
                                    states: st2.states,
                                    current: Some(0),
                                },
                            )
                        }
                    },
                }
            },
        }
    } else {
        let line = lines[i];
        if is_prefix("#"@, trim_start(line)) {
            spec_compile_at(lines, i + 1, st)
        } else {
            let st = if st.ws is None && (st.stack.last() == CState::InState || st.stack.last()
                == CState::DefaultHead) {
                let w = line.subrange(0, ws_len(line, 0));
                CompSt { ws: Some((w, w + w)), ..st }
            } else {
                st
            };
            match st.stack.last() {
                CState::TopLevel => {
                    if is_prefix("state "@, line) {
                        let rest = line.skip(6);
                        if rest.len() > 0 && rest.last() == ':' {
                            spec_compile_at(
                                lines,
                                i + 1,
                                CompSt {
                                    state_data: Some(new_state_data(rest.drop_last())),
                                    stack: st.stack.push(CState::InState),
                                    ..st
                                },
                            )
                        } else {
                            Err(ErrK::Syntax)
                        }
                    } else if line == "default head:"@ {
                        spec_compile_at(
                            lines,
                            i + 1,
                            CompSt { stack: st.stack.push(CState::DefaultHead), ..st },
                        )
                    } else if line.len() > 0 {
                        Err(ErrK::Syntax)
                    } else {
                        spec_compile_at(lines, i + 1, st)
                    }
                },
                CState::InState => {
                    match (st.ws, st.state_data) {
                        (Some((w1, w2)), Some(sd)) => {
                            if is_prefix(w2, line) {
                                Err(ErrK::Syntax)
                            } else if is_prefix(w1, line) {
                                if line_blank(line) {
                                    spec_compile_at(lines, i + 1, st)
                                } else {
                                    let t = trim_start(line);
                                    if t == "head:"@ {
                                        spec_compile_at(
                                            lines,
                                            i + 1,
                                            CompSt { stack: st.stack.push(CState::StateHead), ..st },
                                        )
                                    } else if is_prefix("when "@, t) {
                                        if sd.has_always || sd.has_otherwise {
                                            Err(ErrK::Syntax)
                                        } else {
                                            let rest = t.skip(5);
                                            if rest.len() > 0 && rest.last() == ':' {
                                                match spec_expr_of_line(rest.drop_last()) {
                                                    Ok(cond) => spec_compile_at(
                                                        lines,
                                                        i + 1,
                                                        CompSt {
                                                            branch: Some(new_branch(cond)),
                                                            stack: st.stack.push(
                                                                CState::StateBranch,
                                                            ),
                                                            ..st
                                                        },
                                                    ),
                                                    Err(e) => Err(e),
                                                }
                                            } else {
                                                Err(ErrK::Syntax)
                                            }
                                        }
                                    } else if t == "always:"@ {
                                        if sd.has_always || sd.has_otherwise {
                                            Err(ErrK::Syntax)
                                        } else if sd.branches.len() > 0 {
                                            Err(ErrK::Syntax)
                                        } else {
                                            spec_compile_at(
                                                lines,
                                                i + 1,
                                                CompSt {
                                                    branch: Some(
                                                        new_branch(ExprV::Value(crate::value::ValueV::Bool(true))),
                                                    ),
                                                    state_data: Some(
                                                        StateDataV { has_always: true, ..sd },
                                                    ),
                                                    stack: st.stack.push(CState::StateBranch),
                                                    ..st
                                                },
                                            )
                                        }
                                    } else if t == "normally:"@ {
                                        if sd.has_always || sd.has_otherwise {
                                            Err(ErrK::Syntax)
                                        } else if sd.branches.len() > 0 {
                                            Err(ErrK::Syntax)
                                        } else {
                                            spec_compile_at(
                                                lines,
                                                i + 1,
                                                CompSt {
                                                    branch: Some(
                                                        new_branch(ExprV::Value(crate::value::ValueV::Bool(true))),
                                                    ),
                                                    stack: st.stack.push(CState::StateBranch),
                                                    ..st
                                                },
                                            )
                                        }
                                    } else if t == "otherwise:"@ {
                                        if sd.has_always || sd.has_otherwise {
                                            Err(ErrK::Syntax)
                                        } else if sd.branches.len() == 0 {
                                            Err(ErrK::Syntax)
                                        } else {
                                            spec_compile_at(
                                                lines,
                                                i + 1,
                                                CompSt {
                                                    branch: Some(
                                                        new_branch(ExprV::Value(crate::value::ValueV::Bool(true))),
                                                    ),
                                                    state_data: Some(
                                                        StateDataV { has_otherwise: true, ..sd },
                                                    ),
                                                    stack: st.stack.push(CState::StateBranch),
                                                    ..st
                                                },
                                            )
                                        }
                                    } else {
                                        Err(ErrK::Syntax)
                                    }
                                }
                            } else {
                                match finalize_state(sd) {
                                    Ok(sv) => spec_compile_at(
                                        lines,
                                        i,
                                        CompSt {
                                            state_data: None,
                                            states: st.states.push(sv),
                                            stack: st.stack.drop_last(),
                                            ..st
                                        },
                                    ),
                                    Err(e) => Err(e),
                                }
                            }
                        },
                        (_, None) => Err(ErrK::Syntax),
                        (None, _) => Err(ErrK::Compiler),
                    }
                },
                CState::DefaultHead => {
                    match st.ws {
                        Some((w1, _)) => {
                            if is_prefix(w1, line) {
                                match spec_expr_of_line(trim_start(line)) {
                                    Ok(e) => spec_compile_at(
                                        lines,
                                        i + 1,
                                        CompSt { default_head: st.default_head.push(e), ..st },
                                    ),
                                    Err(e) => Err(e),
                                }
                            } else {
                                spec_compile_at(
                                    lines,
                                    i,
                                    CompSt { stack: st.stack.drop_last(), ..st },
                                )
                            }
                        },
                        None => Err(ErrK::Compiler),
                    }
                },
                CState::StateHead => {
                    match (st.ws, st.state_data) {
                        (Some((_, w2)), Some(sd)) => {
                            if is_prefix(w2, line) {
                                match spec_expr_of_line(trim_start(line)) {
                                    Ok(e) => spec_compile_at(
                                        lines,
                                        i + 1,
                                        CompSt {
                                            state_data: Some(
                                                StateDataV { head: sd.head.push(e), ..sd },
                                            ),
                                            ..st
                                        },
                                    ),
                                    Err(e) => Err(e),
                                }
                            } else {
                                spec_compile_at(
                                    lines,
                                    i,
                                    CompSt { stack: st.stack.drop_last(), ..st },
                                )
                            }
                        },
                        _ => Err(ErrK::Compiler),
                    }
                },
                CState::StateBranch => {
                    match (st.ws, st.state_data, st.branch) {
                        (Some((_, w2)), Some(sd), Some(b)) => {
                            if is_prefix(w2, line) {
                                let t = trim_start(line);
                                if is_prefix("changeto "@, t) {
                                    spec_compile_at(
                                        lines,
                                        i + 1,
                                        CompSt {
                                            branch: Some(
                                                BranchDataV {
                                                    op: StateOpV::ChangeTo(t.skip(9)),
                                                    ..b
                                                },
                                            ),
                                            ..st
                                        },
                                    )
                                } else if t == "end"@ {
                                    spec_compile_at(
                                        lines,
                                        i + 1,
                                        CompSt {
                                            branch: Some(BranchDataV { op: StateOpV::End, ..b }),
                                            ..st
                                        },
                                    )
                                } else if t == "stay"@ {
                                    spec_compile_at(
                                        lines,
                                        i + 1,
                                        CompSt {
                                            branch: Some(BranchDataV { op: StateOpV::Stay, ..b }),
                                            ..st
                                        },
                                    )
                                } else if t == "default"@ {
                                    if sd.has_default {
                                        Err(ErrK::Syntax)
                                    } else {
                                        spec_compile_at(
                                            lines,
                                            i + 1,
                                            CompSt {
                                                branch: Some(
                                                    BranchDataV { is_default: true, ..b },
                                                ),
                                                state_data: Some(
                                                    StateDataV { has_default: true, ..sd },
                                                ),
                                                ..st
                                            },
                                        )
                                    }
                                } else {
                                    match spec_expr_of_line(t) {
                                        Ok(e) => spec_compile_at(
                                            lines,
                                            i + 1,
                                            CompSt {
                                                branch: Some(
                                                    BranchDataV { body: b.body.push(e), ..b },
                                                ),
                                                ..st
                                            },
                                        ),
                                        Err(e) => Err(e),
                                    }
                                }
                            } else {
                                spec_compile_at(
                                    lines,
                                    i,
                                    CompSt {
                                        branch: None,
                                        state_data: Some(
                                            StateDataV { branches: sd.branches.push(b), ..sd },
                                        ),
                                        stack: st.stack.drop_last(),
                                        ..st
                                    },
                                )
                            }
                        },
                        _ => Err(ErrK::Compiler),
                    }
                },
            }
        }
    }
}

/// The machine a source text compiles to.
pub open spec fn spec_compile(src: Seq<char>) -> Result<MachineV, ErrK> {
    spec_compile_at(spec_lines(src), 0, comp_init())
}

/// A branch being collected (executable side).
struct BranchData {
    cond: Expression,
    body: Vec<Expression>,
    op: StateOp,
    is_default: bool,
}

/// A state being collected (executable side).
struct StateData {
    name: String,
    head: Vec<Expression>,
    branches: Vec<BranchData>,
    has_default: bool,
    has_otherwise: bool,
    has_always: bool,
}

spec fn bdv(b: BranchData) -> BranchDataV {
    BranchDataV { cond: ev(b.cond), body: evs(b.body@), op: sov(b.op), is_default: b.is_default }
}

spec fn bdvs(s: Seq<BranchData>) -> Seq<BranchDataV> {
    Seq::new(s.len(), |i: int| bdv(s[i]))
}

spec fn sdv(sd: StateData) -> StateDataV {
    StateDataV {
        name: sd.name@,
        head: evs(sd.head@),
        branches: bdvs(sd.branches@),
        has_default: sd.has_default,
        has_otherwise: sd.has_otherwise,
        has_always: sd.has_always,
    }
}

spec fn osdv(sd: Option<StateData>) -> Option<StateDataV> {
    match sd {
        Some(s) => Some(sdv(s)),
        None => None,
    }
}

spec fn obdv(b: Option<BranchData>) -> Option<BranchDataV> {
    match b {
        Some(b) => Some(bdv(b)),
        None => None,
    }
}

spec fn owsv(w: Option<(Vec<char>, Vec<char>)>) -> Option<(Seq<char>, Seq<char>)> {
    match w {
        Some((a, b)) => Some((a@, b@)),
        None => None,
    }
}

/// The leading-whitespace length of a line.
fn ws_len_exec(line: &Vec<char>) -> (r: usize)
    ensures
        r as int == ws_len(line@, 0),
        r <= line@.len(),
{
    let mut j: usize = 0;
    while j < line.len()
        invariant
            j <= line@.len(),
            ws_len(line@, 0) == ws_len(line@, j as int),
        decreases line@.len() - j,
    {
        let c = line[j];
        if c == ' ' || c == '\t' {
            j += 1;
        } else {
            return j;
        }
    }
    j
}

/// The line without its leading whitespace.
fn trim_start_exec(line: &Vec<char>) -> (r: Vec<char>)
    ensures
        r@ == trim_start(line@),
{
    let k = ws_len_exec(line);
    chars_skip(line, k)
}

/// Whether the line is nothing but whitespace.
fn line_blank_exec(line: &Vec<char>) -> (r: bool)
    ensures
        r == line_blank(line@),
{
    let mut j: usize = 0;
    while j < line.len()
        invariant
            j <= line@.len(),
            forall|k: int| 0 <= k < j ==> is_ws(#[trigger] line@[k]),
        decreases line@.len() - j,
    {
        let c = line[j];
        if c == ' ' || c == '\t' {
            j += 1;
        } else {
            return false;
        }
    }
    true
}

/// The source text as lines, per [`spec_lines`].
fn source_lines(cs: &Vec<char>) -> (r: Vec<Vec<char>>)
    ensures
        r@.len() == spec_lines(cs@).len(),
        forall|j: int| 0 <= j < r@.len() ==> (#[trigger] r@[j])@ == spec_lines(cs@)[j],
{
    let ghost sparts = crate::identifier::split_char(cs@, '\n');
    let mut parts = crate::identifier::split_exec(cs, '\n');
    let drop_last = if parts.len() > 0 {
        parts[parts.len() - 1].len() == 0
    } else {
        false
    };
    if drop_last {
        parts.pop();
    }
    let mut out: Vec<Vec<char>> = Vec::new();
    let mut i: usize = 0;
    while i < parts.len()
        invariant
            i <= parts@.len(),
            out@.len() == i,
            parts@.len() == spec_lines(cs@).len(),
            forall|j: int|
                0 <= j < parts@.len() ==> strip_cr((#[trigger] parts@[j])@) == spec_lines(cs@)[j],
            forall|j: int| 0 <= j < i ==> (#[trigger] out@[j])@ == spec_lines(cs@)[j],
        decreases parts@.len() - i,
    {
        let p = &parts[i];
        let has_cr = p.len() > 0 && p[p.len() - 1] == '\r';
        if has_cr {
            let stripped = crate::util::chars_take(p, p.len() - 1);
            out.push(stripped);
        } else {
            let copy = chars_skip(p, 0);
            proof {
                assert(p@.skip(0) =~= p@);
            }
            out.push(copy);
        }
        i += 1;
    }
    out
}

/// Seals a collected state, per [`finalize_state`].
fn finalize_exec(sd: StateData) -> (r: SML_Result<State>)
    ensures
        ({
            let sp = finalize_state(sdv(sd));
            match r {
                Ok(st) => sp == Ok::<StateV, ErrK>(stv(st)),
                Err(e) => sp == Err::<StateV, ErrK>(err_kind(e)),
            }
        }),
{
    let ghost model = sdv(sd);
    let StateData { name, head, mut branches, has_default, has_otherwise: _, has_always: _ } = sd;
    let ghost bm = bdvs(branches@);
    let mut default_idx: Option<usize> = None;
    if has_default {
        let mut k: usize = 0;
        let mut found: Option<usize> = None;
        while k < branches.len()
            invariant
                k <= branches@.len(),
                bm == bdvs(branches@),
                bm.len() == branches@.len(),
                match found {
                    Some(fi) => find_default(bm, 0) == Some(fi as int) && (fi as int) < bm.len(),
                    None => find_default(bm, 0) == find_default(bm, k as int),
                },
                found is Some ==> k == branches@.len(),
            decreases branches@.len() - k,
        {
            if branches[k].is_default {
                found = Some(k);
                proof {
                    assert(bm[k as int] == bdv(branches@[k as int]));
                }
                k = branches.len();
            } else {
                proof {
                    assert(bm[k as int] == bdv(branches@[k as int]));
                }
                k += 1;
            }
        }
        match found {
            Some(fi) => {
                default_idx = Some(fi);
            },
            None => {
                return Err(
                    SML_Error::CompilerError(
                        "state recorded a default branch, but none is marked".to_owned(),
                    ),
                );
            },
        }
    }
    let mut rev: Vec<BranchData> = Vec::new();
    while branches.len() > 0
        invariant
            bm.len() == branches@.len() + rev@.len(),
            bdvs(branches@) == bm.take(branches@.len() as int),
            forall|j: int|
                0 <= j < rev@.len() ==> bdv(#[trigger] rev@[j]) == bm[bm.len() - 1 - j],
        decreases branches@.len(),
    {
        let ghost bpre = branches@;
        let b = match branches.pop() {
            Some(b) => b,
            None => {
                proof {
                    assert(false);
                }
                return Err(SML_Error::CompilerError("empty".to_owned()));
            },
        };
        proof {
            assert(bdvs(branches@) =~= bdvs(bpre).drop_last());
            assert(bdvs(bpre).drop_last() =~= bm.take(branches@.len() as int));
            assert(bdvs(bpre)[branches@.len() as int] == bdv(b));
            assert(bm[branches@.len() as int] == bdv(b));
        }
        rev.push(b);
    }
    let mut body: Vec<(Expression, Vec<Expression>, StateOp)> = Vec::new();
    while rev.len() > 0
        invariant
            bm.len() == rev@.len() + body@.len(),
            body@.len() == bm.len() - rev@.len(),
            forall|j: int| 0 <= j < rev@.len() ==> bdv(#[trigger] rev@[j]) == bm[bm.len() - 1 - j],
            forall|j: int|
                0 <= j < body@.len() ==> (ev((#[trigger] body@[j]).0), evs(body@[j].1@), sov(
                    body@[j].2,
                )) == (bm[j].cond, bm[j].body, bm[j].op),
        decreases rev@.len(),
    {
        let ghost rpre = rev@;
        let b = match rev.pop() {
            Some(b) => b,
            None => {
                proof {
                    assert(false);
                }
                return Err(SML_Error::CompilerError("empty".to_owned()));
            },
        };
        proof {
            assert(bdv(rpre[rpre.len() - 1]) == bdv(b));
        }
        body.push((b.cond, b.body, b.op));
    }
    let mut st = State::new(name, head, body);
    proof {
        crate::state::lemma_bvs(body@);
        assert forall|j: int| 0 <= j < bm.len() implies crate::state::bvs(body@)[j] == Seq::new(
            model.branches.len(),
            |i: int| (model.branches[i].cond, model.branches[i].body, model.branches[i].op),
        )[j] by {
            assert(crate::state::bvs(body@)[j] == (ev(body@[j].0), evs(body@[j].1@), sov(
                body@[j].2,
            )));
        }
        assert(crate::state::bvs(body@) =~= Seq::new(
            model.branches.len(),
            |i: int| (model.branches[i].cond, model.branches[i].body, model.branches[i].op),
        ));
    }
    match default_idx {
        Some(di) => {
            proof {
                assert((di as int) < stv(st).body.len());
            }
            match st.set_default(di) {
                Ok(_) => Ok(st),
                Err(e) => Err(e),
            }
        },
        None => Ok(st),
    }
}

/// Compiles source text into a [`StateMachine`], per [`spec_compile`]: a
/// compiled machine starts at the first state of its text, with empty
/// globals.
#[verifier::rlimit(100)]
pub fn compile(s: &str) -> (r: SML_Result<StateMachine>)
    ensures
        ({
            let sp = spec_compile(s@);
            match r {
                Ok(m) => sp == Ok::<MachineV, ErrK>(smv(m)) && machine_inv(smv(m)) && smv(
                    m,
                ).current == Some(0int) && smv(m).states.len() >= 1,
                Err(e) => sp == Err::<MachineV, ErrK>(err_kind(e)),
            }
        }),
{
    let cs = to_chars(s);
    let lines = source_lines(&cs);
    let ghost lv = spec_lines(cs@);
    let mut stack: Vec<CState> = Vec::new();
    stack.push(CState::TopLevel);
    let mut state_data: Option<StateData> = None;
    let mut branch: Option<BranchData> = None;
    let mut default_head: Vec<Expression> = Vec::new();
    let mut states: Vec<State> = Vec::new();
    let mut ws: Option<(Vec<char>, Vec<char>)> = None;
    proof {
        assert(stack@ =~= seq![CState::TopLevel]);
        lemma_evs(default_head@);
        assert(evs(default_head@) =~= Seq::<ExprV>::empty());
        lemma_stvs(states@);
        assert(stvs(states@) =~= Seq::<StateV>::empty());
        assert(CompSt {
            stack: stack@,
            state_data: osdv(state_data),
            branch: obdv(branch),
            default_head: evs(default_head@),
            states: stvs(states@),
            ws: owsv(ws),
        } == comp_init());
    }
    let mut i: usize = 0;
    while i < lines.len()
        invariant
            i <= lines@.len(),
            cs@ == s@,
            lv == spec_lines(cs@),
            lv.len() == lines@.len(),
            forall|j: int| 0 <= j < lines@.len() ==> (#[trigger] lines@[j])@ == lv[j],
            stack@.len() >= 1,
            stack@[0] == CState::TopLevel,
            forall|j: int| 1 <= j < stack@.len() ==> stack@[j] != CState::TopLevel,
            spec_compile_at(lv, 0, comp_init()) == spec_compile_at(
                lv,
                i as int,
                CompSt {
                    stack: stack@,
                    state_data: osdv(state_data),
                    branch: obdv(branch),
                    default_head: evs(default_head@),
                    states: stvs(states@),
                    ws: owsv(ws),
                },
            ),
        decreases lines@.len() - i, stack@.len(),
    {
        let line = &lines[i];
        proof {
            assert(line@ == lv[i as int]);
        }
        let t0 = trim_start_exec(line);
        let hash = to_chars("#");
        proof {
            reveal_strlit("#");
        }
        if chars_starts_with(&t0, &hash) {
            i += 1;
            continue ;
        }
        let top = stack[stack.len() - 1];
        if ws.is_none() && (matches!(top, CState::InState) || matches!(top, CState::DefaultHead)) {
            let k = ws_len_exec(line);
            let w1 = crate::util::chars_take(line, k);
            let mut w2 = crate::util::chars_take(line, k);
            let mut w1b = crate::util::chars_take(line, k);
            w2.append(&mut w1b);
            proof {
                assert(w2@ =~= w1@ + w1@);
            }
            ws = Some((w1, w2));
        }
        let ghost st_pre = CompSt {
            stack: stack@,
            state_data: osdv(state_data),
            branch: obdv(branch),
            default_head: evs(default_head@),
            states: stvs(states@),
            ws: owsv(ws),
        };
        match top {
            CState::TopLevel => {
                let state_kw = to_chars("state ");
                proof {
                    reveal_strlit("state ");
                }
                if chars_starts_with(line, &state_kw) {
                    let rest = chars_skip(line, 6);
                    if rest.len() > 0 && rest[rest.len() - 1] == ':' {
                        let nm = crate::util::chars_take(&rest, rest.len() - 1);
                        proof {
                            assert(nm@ =~= line@.skip(6).drop_last());
                        }
                        let sd = StateData {
                            name: chars_to_string(&nm),
                            head: Vec::new(),
                            branches: Vec::new(),
                            has_default: false,
                            has_otherwise: false,
                            has_always: false,
                        };
                        proof {
                            lemma_evs(sd.head@);
                            assert(evs(sd.head@) =~= Seq::<ExprV>::empty());
                            assert(bdvs(sd.branches@) =~= Seq::<BranchDataV>::empty());
                            assert(sdv(sd) == new_state_data(line@.skip(6).drop_last()));
                        }
                        state_data = Some(sd);
                        stack.push(CState::InState);
                        proof {
                            assert(stack@ =~= st_pre.stack.push(CState::InState));
                        }
                        i += 1;
                    } else {
                        return Err(
                            with_line(
                                SML_Error::SyntaxError(
                                    "state definition with no name or missing colon".to_owned(),
                                ),
                                i,
                            ),
                        );
                    }
                } else {
                    let dh = to_chars("default head:");
                    proof {
                        reveal_strlit("default head:");
                    }
                    if chars_eq(line, &dh) {
                        stack.push(CState::DefaultHead);
                        proof {
                            assert(stack@ =~= st_pre.stack.push(CState::DefaultHead));
                        }
                        i += 1;
                    } else if line.len() > 0 {
                        return Err(with_line(SML_Error::SyntaxError("unexpected value at top level".to_owned()), i));
                    } else {
                        i += 1;
                    }
                }
            },
            CState::InState => {
                if state_data.is_none() {
                    return Err(with_line(SML_Error::SyntaxError("unexpected de-dent".to_owned()), i));
                }
                let (w1, w2) = match &ws {
                    Some(p) => (&p.0, &p.1),
                    None => {
                        return Err(SML_Error::CompilerError("indent not captured".to_owned()));
                    },
                };
                if chars_starts_with(line, w2) {
                    return Err(with_line(SML_Error::SyntaxError("unexpected indent".to_owned()), i));
                }
                if chars_starts_with(line, w1) {
                    if !line_blank_exec(line) {
                        let t = trim_start_exec(line);
                        let head_kw = to_chars("head:");
                        let when_kw = to_chars("when ");
                        let always_kw = to_chars("always:");
                        let normally_kw = to_chars("normally:");
                        let otherwise_kw = to_chars("otherwise:");
                        proof {
                            reveal_strlit("head:");
                            reveal_strlit("when ");
                            reveal_strlit("always:");
                            reveal_strlit("normally:");
                            reveal_strlit("otherwise:");
                        }
                        let (has_always, has_otherwise, n_branches) = match &state_data {
                            Some(sd) => (sd.has_always, sd.has_otherwise, sd.branches.len()),
                            None => {
                                proof {
                                    assert(false);
                                }
                                return Err(SML_Error::CompilerError("no state open".to_owned()));
                            },
                        };
                        if chars_eq(&t, &head_kw) {
                            stack.push(CState::StateHead);
                            proof {
                                assert(stack@ =~= st_pre.stack.push(CState::StateHead));
                            }
                            i += 1;
                        } else if chars_starts_with(&t, &when_kw) {
                            if has_always || has_otherwise {
                                return Err(
                                    with_line(SML_Error::SyntaxError("branch defined after always or otherwise".to_owned()), i),
                                );
                            }
                            let rest = chars_skip(&t, 5);
                            if rest.len() > 0 && rest[rest.len() - 1] == ':' {
                                let etext = crate::util::chars_take(&rest, rest.len() - 1);
                                proof {
                                    assert(etext@ =~= trim_start(line@).skip(5).drop_last());
                                }
                                let estr = chars_to_string(&etext);
                                match expr_from_str(estr.as_str(), i) {
                                    Ok(cond) => {
                                        let b = BranchData {
                                            cond,
                                            body: Vec::new(),
                                            op: StateOp::Stay,
                                            is_default: false,
                                        };
                                        proof {
                                            lemma_evs(b.body@);
                                            assert(evs(b.body@) =~= Seq::<ExprV>::empty());
                                            assert(bdv(b) == new_branch(ev(cond)));
                                        }
                                        branch = Some(b);
                                        stack.push(CState::StateBranch);
                                        proof {
                                            assert(stack@ =~= st_pre.stack.push(
                                                CState::StateBranch,
                                            ));
                                        }
                                        i += 1;
                                    },
                                    Err(e) => {
                                        return Err(e);
                                    },
                                }
                            } else {
                                return Err(with_line(SML_Error::SyntaxError("missing colon".to_owned()), i));
                            }
                        } else if chars_eq(&t, &always_kw) || chars_eq(&t, &normally_kw) || chars_eq(
                            &t,
                            &otherwise_kw,
                        ) {
                            if has_always || has_otherwise {
                                return Err(
                                    with_line(SML_Error::SyntaxError("branch defined after always or otherwise".to_owned()), i),
                                );
                            }
                            let is_otherwise = chars_eq(&t, &otherwise_kw);
                            if is_otherwise {
                                if n_branches == 0 {
                                    return Err(
                                        with_line(SML_Error::SyntaxError("otherwise must come after at least one branch".to_owned()), i),
                                    );
                                }
                            } else {
                                if n_branches > 0 {
                                    return Err(
                                        with_line(SML_Error::SyntaxError("always must be the only branch".to_owned()), i),
                                    );
                                }
                            }
                            let b = BranchData {
                                cond: Expression::Value(crate::value::Value::Bool(true)),
                                body: Vec::new(),
                                op: StateOp::Stay,
                                is_default: false,
                            };
                            proof {
                                lemma_evs(b.body@);
                                assert(evs(b.body@) =~= Seq::<ExprV>::empty());
                            }
                            branch = Some(b);
                            if chars_eq(&t, &always_kw) {
                                state_data = match state_data {
                                    Some(sd) => Some(StateData { has_always: true, ..sd }),
                                    None => None,
                                };
                            } else if is_otherwise {
                                state_data = match state_data {
                                    Some(sd) => Some(StateData { has_otherwise: true, ..sd }),
                                    None => None,
                                };
                            }
                            stack.push(CState::StateBranch);
                            proof {
                                assert(stack@ =~= st_pre.stack.push(CState::StateBranch));
                            }
                            i += 1;
                        } else {
                            return Err(
                                with_line(SML_Error::SyntaxError("expected 'head:', 'when <cond>:', 'always:', or 'otherwise:'".to_owned()), i),
                            );
                        }
                    } else {
                        i += 1;
                    }
                } else {
                    let sd = match state_data.take() {
                        Some(sd) => sd,
                        None => {
                            proof {
                                assert(false);
                            }
                            return Err(with_line(SML_Error::SyntaxError("unexpected de-dent".to_owned()), i));
                        },
                    };
                    match finalize_exec(sd) {
                        Ok(sv) => {
                            let ghost states_pre = stvs(states@);
                            proof {
                                lemma_stvs(states@);
                            }
                            states.push(sv);
                            stack.pop();
                            proof {
                                lemma_stvs(states@);
                                assert forall|j: int| 0 <= j < states@.len() implies stvs(
                                    states@,
                                )[j] == states_pre.push(stv(sv))[j] by {
                                    assert(stvs(states@)[j] == stv(states@[j]));
                                    if j < states_pre.len() {
                                        assert(states_pre[j] == stv(states@[j]));
                                    }
                                }
                                assert(stvs(states@) =~= states_pre.push(stv(sv)));
                                assert(stack@ =~= st_pre.stack.drop_last());
                            }
                        },
                        Err(e) => {
                            return Err(e);
                        },
                    }
                }
            },
            CState::DefaultHead => {
                let w1 = match &ws {
                    Some(p) => &p.0,
                    None => {
                        return Err(SML_Error::CompilerError("indent not captured".to_owned()));
                    },
                };
                if chars_starts_with(line, w1) {
                    let t = trim_start_exec(line);
                    let estr = chars_to_string(&t);
                    match expr_from_str(estr.as_str(), i) {
                        Ok(e) => {
                            let ghost dh_pre = evs(default_head@);
                            proof {
                                lemma_evs(default_head@);
                            }
                            default_head.push(e);
                            proof {
                                lemma_evs(default_head@);
                                assert forall|j: int| 0 <= j < default_head@.len() implies evs(
                                    default_head@,
                                )[j] == dh_pre.push(ev(e))[j] by {
                                    assert(evs(default_head@)[j] == ev(default_head@[j]));
                                    if j < dh_pre.len() {
                                        assert(dh_pre[j] == ev(default_head@[j]));
                                    }
                                }
                                assert(evs(default_head@) =~= dh_pre.push(ev(e)));
                            }
                            i += 1;
                        },
                        Err(e) => {
                            return Err(e);
                        },
                    }
                } else {
                    stack.pop();
                    proof {
                        assert(stack@ =~= st_pre.stack.drop_last());
                    }
                }
            },
            CState::StateHead => {
                let w2 = match &ws {
                    Some(p) => &p.1,
                    None => {
                        return Err(SML_Error::CompilerError("indent not captured".to_owned()));
                    },
                };
                if state_data.is_none() {
                    return Err(SML_Error::CompilerError("no state open".to_owned()));
                }
                if chars_starts_with(line, w2) {
                    let t = trim_start_exec(line);
                    let estr = chars_to_string(&t);
                    match expr_from_str(estr.as_str(), i) {
                        Ok(e) => {
                            state_data = match state_data {
                                Some(sd) => {
                                    let ghost h_pre = evs(sd.head@);
                                    proof {
                                        lemma_evs(sd.head@);
                                    }
                                    let mut sd = sd;
                                    sd.head.push(e);
                                    proof {
                                        lemma_evs(sd.head@);
                                        assert forall|j: int| 0 <= j < sd.head@.len() implies evs(
                                            sd.head@,
                                        )[j] == h_pre.push(ev(e))[j] by {
                                            assert(evs(sd.head@)[j] == ev(sd.head@[j]));
                                            if j < h_pre.len() {
                                                assert(h_pre[j] == ev(sd.head@[j]));
                                            }
                                        }
                                        assert(evs(sd.head@) =~= h_pre.push(ev(e)));
                                    }
                                    Some(sd)
                                },
                                None => None,
                            };
                            i += 1;
                        },
                        Err(e) => {
                            return Err(e);
                        },
                    }
                } else {
                    stack.pop();
                    proof {
                        assert(stack@ =~= st_pre.stack.drop_last());
                    }
                }
            },
            CState::StateBranch => {
                let w2 = match &ws {
                    Some(p) => &p.1,
                    None => {
                        return Err(SML_Error::CompilerError("indent not captured".to_owned()));
                    },
                };
                if state_data.is_none() || branch.is_none() {
                    return Err(SML_Error::CompilerError("no branch open".to_owned()));
                }
                if chars_starts_with(line, w2) {
                    let t = trim_start_exec(line);
                    let changeto_kw = to_chars("changeto ");
                    let end_kw = to_chars("end");
                    let stay_kw = to_chars("stay");
                    let default_kw = to_chars("default");
                    proof {
                        reveal_strlit("changeto ");
                        reveal_strlit("end");
                        reveal_strlit("stay");
                        reveal_strlit("default");
                    }
                    if chars_starts_with(&t, &changeto_kw) {
                        let nm = chars_skip(&t, 9);
                        branch = match branch {
                            Some(b) => Some(
                                BranchData { op: StateOp::ChangeTo(chars_to_string(&nm)), ..b },
                            ),
                            None => None,
                        };
                        i += 1;
                    } else if chars_eq(&t, &end_kw) {
                        branch = match branch {
                            Some(b) => Some(BranchData { op: StateOp::End, ..b }),
                            None => None,
                        };
                        i += 1;
                    } else if chars_eq(&t, &stay_kw) {
                        branch = match branch {
                            Some(b) => Some(BranchData { op: StateOp::Stay, ..b }),
                            None => None,
                        };
                        i += 1;
                    } else if chars_eq(&t, &default_kw) {
                        let has_default = match &state_data {
                            Some(sd) => sd.has_default,
                            None => false,
                        };
                        if has_default {
                            return Err(
                                with_line(SML_Error::SyntaxError("multiple branches marked as default".to_owned()), i),
                            );
                        }
                        branch = match branch {
                            Some(b) => Some(BranchData { is_default: true, ..b }),
                            None => None,
                        };
                        state_data = match state_data {
                            Some(sd) => Some(StateData { has_default: true, ..sd }),
                            None => None,
                        };
                        i += 1;
                    } else {
                        let estr = chars_to_string(&t);
                        match expr_from_str(estr.as_str(), i) {
                            Ok(e) => {
                                branch = match branch {
                                    Some(b) => {
                                        let ghost b_pre = evs(b.body@);
                                        proof {
                                            lemma_evs(b.body@);
                                        }
                                        let mut b = b;
                                        b.body.push(e);
                                        proof {
                                            lemma_evs(b.body@);
                                            assert forall|j: int|
                                                0 <= j < b.body@.len() implies evs(b.body@)[j]
                                                == b_pre.push(ev(e))[j] by {
                                                assert(evs(b.body@)[j] == ev(b.body@[j]));
                                                if j < b_pre.len() {
                                                    assert(b_pre[j] == ev(b.body@[j]));
                                                }
                                            }
                                            assert(evs(b.body@) =~= b_pre.push(ev(e)));
                                        }
                                        Some(b)
                                    },
                                    None => None,
                                };
                                i += 1;
                            },
                            Err(e) => {
                                return Err(e);
                            },
                        }
                    }
                } else {
                    let b = match branch.take() {
                        Some(b) => b,
                        None => {
                            proof {
                                assert(false);
                            }
                            return Err(SML_Error::CompilerError("no branch open".to_owned()));
                        },
                    };
                    state_data = match state_data {
                        Some(sd) => {
                            let ghost br_pre = bdvs(sd.branches@);
                            let mut sd = sd;
                            sd.branches.push(b);
                            proof {
                                assert(bdvs(sd.branches@) =~= br_pre.push(bdv(b)));
                            }
                            Some(sd)
                        },
                        None => None,
                    };
                    stack.pop();
                    proof {
                        assert(stack@ =~= st_pre.stack.drop_last());
                    }
                }
            },
        }
    }
    if let Some(b) = branch.take() {
        state_data = match state_data {
            Some(sd) => {
                let ghost br_pre = bdvs(sd.branches@);
                let mut sd = sd;
                sd.branches.push(b);
                proof {
                    assert(bdvs(sd.branches@) =~= br_pre.push(bdv(b)));
                }
                Some(sd)
            },
            None => {
                return Err(
                    SML_Error::CompilerError("branch open without a state".to_owned()),
                );
            },
        };
    }
    if let Some(sd) = state_data.take() {
        match finalize_exec(sd) {
            Ok(sv) => {
                let ghost states_pre = stvs(states@);
                proof {
                    lemma_stvs(states@);
                }
                states.push(sv);
                proof {
                    lemma_stvs(states@);
                    assert forall|j: int| 0 <= j < states@.len() implies stvs(states@)[j]
                        == states_pre.push(stv(sv))[j] by {
                        assert(stvs(states@)[j] == stv(states@[j]));
                        if j < states_pre.len() {
                            assert(states_pre[j] == stv(states@[j]));
                        }
                    }
                    assert(stvs(states@) =~= states_pre.push(stv(sv)));
                }
            },
            Err(e) => {
                return Err(e);
            },
        }
    }
    proof {
        lemma_stvs(states@);
    }
    if states.len() == 0 {
        return Err(SML_Error::SyntaxError("a program needs at least one state".to_owned()));
    }
    let m = StateMachine::new(default_head, states, 0);
    Ok(m)
}

} // verus!
