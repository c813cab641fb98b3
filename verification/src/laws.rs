//! Laws of the machine: proved properties that relate whole cycles, not
//! single calls.

use vstd::prelude::*;

use crate::error::ErrK;
use crate::expression::{ExprV, spec_eval};
use crate::json::JsonV;
use crate::state::{
    RunOut,
    StateBranchV,
    StateOpV,
    StateV,
    spec_eval_list,
    spec_run_branches,
    spec_run_state,
};
use crate::state_machine::{MachineV, machine_inv, spec_machine_step};
use crate::value::spec_as_bool;

verus! {

/// Once a machine has ended, every further cycle — run or advance —
/// returns nothing and leaves the machine, its globals included,
/// untouched.
pub proof fn lemma_terminal_absorbing(m: MachineV, input: JsonV, advance: bool)
    requires
        m.current is None,
    ensures
        spec_machine_step(m, input, advance) == (Ok::<Option<JsonV>, ErrK>(None::<JsonV>), m),
{
}

proof fn lemma_branches_all_stay(bs: Seq<StateBranchV>, i: JsonV, o: JsonV, g: JsonV)
    requires
        forall|k: int| 0 <= k < bs.len() ==> (#[trigger] bs[k]).2 == StateOpV::Stay,
    ensures
        match spec_run_branches(bs, i, o, g).res {
            Ok(op) => op == StateOpV::Stay,
            Err(_) => true,
        },
    decreases bs.len(),
{
    if bs.len() > 0 {
        let c = spec_eval(bs[0].0, i, o, g);
        match c.res {
            Ok(v) => {
                if !spec_as_bool(v) {
                    assert(forall|k: int|
                        0 <= k < bs.skip(1).len() ==> (#[trigger] bs.skip(1)[k]).2
                            == StateOpV::Stay);
                    lemma_branches_all_stay(bs.skip(1), i, c.o, c.g);
                }
            },
            Err(_) => {},
        }
    }
}

/// The machine after a whole run of cycles, one per input, in order.
pub open spec fn spec_machine_run(m: MachineV, inputs: Seq<JsonV>, advance: bool) -> MachineV
    decreases inputs.len(),
{
    if inputs.len() == 0 {
        m
    } else {
        spec_machine_run(spec_machine_step(m, inputs[0], advance).1, inputs.skip(1), advance)
    }
}

/// One cycle never invents states, and keeps the current-state pointer
/// inside the registry.
pub proof fn lemma_step_preserves_inv(m: MachineV, input: JsonV, advance: bool)
    requires
        machine_inv(m),
    ensures
        machine_inv(spec_machine_step(m, input, advance).1),
        spec_machine_step(m, input, advance).1.states == m.states,
        spec_machine_step(m, input, advance).1.default_head == m.default_head,
{
    match m.current {
        None => {},
        Some(ci) => {
            let ro = spec_run_state(m.states[ci], input, m.globals, m.default_head, advance);
            match ro.res {
                Err(_) => {},
                Ok((_, op)) => match op {
                    StateOpV::ChangeTo(nm) => {
                        crate::state_machine::lemma_find_state_in_range(m.states, nm, 0);
                    },
                    _ => {},
                },
            }
        },
    }
}

/// Once ended, a machine stays exactly as it is through any whole run of
/// further cycles.
pub proof fn lemma_terminal_absorbing_forever(m: MachineV, inputs: Seq<JsonV>, advance: bool)
    requires
        m.current is None,
    ensures
        spec_machine_run(m, inputs, advance) == m,
    decreases inputs.len(),
{
    if inputs.len() > 0 {
        lemma_terminal_absorbing(m, inputs[0], advance);
        lemma_terminal_absorbing_forever(m, inputs.skip(1), advance);
    }
}

/// A state whose every transition is `stay` keeps the machine there
/// through any whole run of cycles, whatever the inputs.
pub proof fn lemma_stay_keeps_current_forever(m: MachineV, inputs: Seq<JsonV>, advance: bool)
    requires
        machine_inv(m),
        match m.current {
            Some(ci) => forall|k: int|
                0 <= k < m.states[ci].body.len() ==> (#[trigger] m.states[ci].body[k]).2
                    == StateOpV::Stay,
            None => true,
        },
    ensures
        spec_machine_run(m, inputs, advance).current == m.current,
    decreases inputs.len(),
{
    if inputs.len() > 0 {
        lemma_stay_keeps_current(m, inputs[0], advance);
        lemma_step_preserves_inv(m, inputs[0], advance);
        lemma_stay_keeps_current_forever(
            spec_machine_step(m, inputs[0], advance).1,
            inputs.skip(1),
            advance,
        );
    }
}

/// A state whose every transition is `stay` never moves the machine: one
/// cycle — run or advance, whatever the input — leaves the current state
/// exactly where it was. Since the hypothesis still holds afterwards, any
/// number of cycles leaves it there too.
pub proof fn lemma_stay_keeps_current(m: MachineV, input: JsonV, advance: bool)
    requires
        machine_inv(m),
        match m.current {
            Some(ci) => forall|k: int|
                0 <= k < m.states[ci].body.len() ==> (#[trigger] m.states[ci].body[k]).2
                    == StateOpV::Stay,
            None => true,
        },
    ensures
        spec_machine_step(m, input, advance).1.current == m.current,
{
    match m.current {
        None => {},
        Some(ci) => {
            let st = m.states[ci];
            let o0 = JsonV::Obj(Seq::empty());
            let d = spec_eval_list(m.default_head, input, o0, m.globals);
            match d.ok {
                Some(_) => {},
                None => {
                    let h = spec_eval_list(st.head, input, d.o, d.g);
                    match h.ok {
                        Some(_) => {},
                        None => {
                            if advance {
                            } else {
                                lemma_branches_all_stay(st.body, input, h.o, h.g);
                            }
                        },
                    }
                },
            }
        },
    }
}

/// Evaluating one list after another is evaluating their concatenation:
/// the second list starts from the stores the first left behind, and a
/// failure in the first stops everything there.
pub proof fn lemma_eval_list_append(a: Seq<ExprV>, b: Seq<ExprV>, i: JsonV, o: JsonV, g: JsonV)
    ensures
        spec_eval_list(a + b, i, o, g) == ({
            let ra = spec_eval_list(a, i, o, g);
            match ra.ok {
                None => spec_eval_list(b, i, ra.o, ra.g),
                Some(_) => ra,
            }
        }),
    decreases a.len(),
{
    if a.len() == 0 {
        assert(a + b =~= b);
    } else {
        assert((a + b)[0] == a[0]);
        let r0 = spec_eval(a[0], i, o, g);
        match r0.res {
            Ok(_) => {
                assert((a + b).skip(1) =~= a.skip(1) + b);
                lemma_eval_list_append(a.skip(1), b, i, r0.o, r0.g);
            },
            Err(_) => {},
        }
    }
}

/// Ordering of a cycle: the shared default head runs first, then the
/// state's own head — together they are exactly one evaluation of the
/// concatenated list against fresh outputs — and only then, from the
/// stores they leave behind, does any branch work begin.
pub proof fn lemma_cycle_order(sv: StateV, i: JsonV, g: JsonV, dh: Seq<ExprV>, advance: bool)
    ensures
        ({
            let pre = spec_eval_list(dh + sv.head, i, JsonV::Obj(Seq::empty()), g);
            match pre.ok {
                Some(e) => spec_run_state(sv, i, g, dh, advance) == (RunOut {
                    res: Err::<(JsonV, StateOpV), ErrK>(e),
                    g: pre.g,
                }),
                None => spec_run_state(sv, i, g, dh, advance) == ({
                    if advance {
                        match sv.default_branch {
                            Some(di) => if 0 <= di < sv.body.len() {
                                let lo = spec_eval_list(sv.body[di].1, i, pre.o, pre.g);
                                match lo.ok {
                                    None => RunOut {
                                        res: Ok::<(JsonV, StateOpV), ErrK>(
                                            (lo.o, sv.body[di].2),
                                        ),
                                        g: lo.g,
                                    },
                                    Some(e) => RunOut {
                                        res: Err::<(JsonV, StateOpV), ErrK>(e),
                                        g: lo.g,
                                    },
                                }
                            } else {
                                RunOut {
                                    res: Err::<(JsonV, StateOpV), ErrK>(ErrK::Compiler),
                                    g: pre.g,
                                }
                            },
                            None => RunOut {
                                res: Err::<(JsonV, StateOpV), ErrK>(ErrK::Compiler),
                                g: pre.g,
                            },
                        }
                    } else {
                        let b = spec_run_branches(sv.body, i, pre.o, pre.g);
                        match b.res {
                            Ok(op) => RunOut {
                                res: Ok::<(JsonV, StateOpV), ErrK>((b.o, op)),
                                g: b.g,
                            },
                            Err(e) => RunOut {
                                res: Err::<(JsonV, StateOpV), ErrK>(e),
                                g: b.g,
                            },
                        }
                    }
                }),
            }
        }),
{
    lemma_eval_list_append(dh, sv.head, i, JsonV::Obj(Seq::empty()), g);
}

/// Branch selection: when the first branch's condition comes out truthy,
/// the cycle is decided by that branch alone — the later branches might
/// as well not exist, so none of their conditions or bodies can leave a
/// trace.
pub proof fn lemma_first_truthy_branch(bs: Seq<StateBranchV>, i: JsonV, o: JsonV, g: JsonV)
    requires
        bs.len() >= 1,
        ({
            let c = spec_eval(bs[0].0, i, o, g);
            c.res matches Ok(v) && spec_as_bool(v)
        }),
    ensures
        spec_run_branches(bs, i, o, g) == spec_run_branches(seq![bs[0]], i, o, g),
{
    assert(seq![bs[0]][0] == bs[0]);
}

/// Branch selection, the other half: a branch whose condition comes out
/// falsy passes control to the branches after it, its own body untouched.
pub proof fn lemma_falsy_branch_skipped(bs: Seq<StateBranchV>, i: JsonV, o: JsonV, g: JsonV)
    requires
        bs.len() >= 1,
        ({
            let c = spec_eval(bs[0].0, i, o, g);
            c.res matches Ok(v) && !spec_as_bool(v)
        }),
    ensures
        ({
            let c = spec_eval(bs[0].0, i, o, g);
            spec_run_branches(bs, i, o, g) == spec_run_branches(bs.skip(1), i, c.o, c.g)
        }),
{
}

/// Advancing overrides the conditions: what `advance` does is untouched
/// by replacing every branch condition — only the branch marked default,
/// its body and its transition count.
pub proof fn lemma_advance_ignores_conditions(
    sv: StateV,
    sv2: StateV,
    i: JsonV,
    g: JsonV,
    dh: Seq<ExprV>,
)
    requires
        sv2.name == sv.name,
        sv2.head == sv.head,
        sv2.default_branch == sv.default_branch,
        sv2.body.len() == sv.body.len(),
        forall|k: int|
            0 <= k < sv.body.len() ==> (#[trigger] sv2.body[k]).1 == sv.body[k].1 && sv2.body[k].2
                == sv.body[k].2,
    ensures
        spec_run_state(sv, i, g, dh, true) == spec_run_state(sv2, i, g, dh, true),
{
}

/// Running never looks at the default marker: what `run` does is
/// untouched by moving or erasing it.
pub proof fn lemma_run_ignores_default_mark(
    sv: StateV,
    sv2: StateV,
    i: JsonV,
    g: JsonV,
    dh: Seq<ExprV>,
)
    requires
        sv2.name == sv.name,
        sv2.head == sv.head,
        sv2.body == sv.body,
    ensures
        spec_run_state(sv, i, g, dh, false) == spec_run_state(sv2, i, g, dh, false),
{
}

} // verus!
