//! The machine: a registry of states, a current-state pointer, and the
//! persistent globals.
//!
//! Each `run` or `advance` call is one cycle of the current state; the
//! returned transition then moves the pointer. Once ended, the machine
//! answers `None` forever and touches nothing.

use vstd::prelude::*;

use crate::error::{ErrK, SML_Error, SML_Result, err_kind};
use crate::expression::{ExprV, Expression};
use crate::json::{Json, JsonV, jv};
use crate::state::{
    RunOut,
    State,
    StateOp,
    StateOpV,
    StateV,
    evs,
    lemma_evs,
    sov,
    spec_run_state,
    stv,
};
use crate::util::str_eq;

verus! {

/// A compiled machine.
#[derive(Debug)]
pub struct StateMachine {
    globals: Json,
    default_head: Vec<Expression>,
    states: Vec<State>,
    current_state: Option<usize>,
}

/// The mathematical model of a [`StateMachine`].
pub struct MachineV {
    pub globals: JsonV,
    pub default_head: Seq<ExprV>,
    pub states: Seq<StateV>,
    pub current: Option<int>,
}

/// The models of the states of `s` from index `i` on.
pub open spec fn stvs_from(s: Seq<State>, i: int) -> Seq<StateV>
    decreases s.len() - i,
{
    if 0 <= i < s.len() {
        seq![stv(s[i])] + stvs_from(s, i + 1)
    } else {
        Seq::empty()
    }
}

/// The models of the states of `s`.
pub open spec fn stvs(s: Seq<State>) -> Seq<StateV> {
    stvs_from(s, 0)
}

proof fn lemma_stvs_from(s: Seq<State>, i: int)
    requires
        0 <= i <= s.len(),
    ensures
        stvs_from(s, i).len() == s.len() - i,
        forall|j: int| i <= j < s.len() ==> stvs_from(s, i)[j - i] == stv(#[trigger] s[j]),
    decreases s.len() - i,
{
    if i < s.len() {
        lemma_stvs_from(s, i + 1);
    }
}

/// The model of a sequence of states is the sequence of their models.
pub broadcast proof fn lemma_stvs(s: Seq<State>)
    ensures
        (#[trigger] stvs(s)).len() == s.len(),
        forall|j: int| 0 <= j < s.len() ==> stvs(s)[j] == stv(#[trigger] s[j]),
{
    lemma_stvs_from(s, 0);
}

/// The model of a machine.
pub closed spec fn smv(m: StateMachine) -> MachineV {
    MachineV {
        globals: jv(m.globals),
        default_head: evs(m.default_head@),
        states: stvs(m.states@),
        current: match m.current_state {
            Some(i) => Some(i as int),
            None => None,
        },
    }
}

/// A machine's current-state pointer, when set, points into its registry.
pub open spec fn machine_inv(m: MachineV) -> bool {
    match m.current {
        Some(ci) => 0 <= ci < m.states.len(),
        None => true,
    }
}

/// The index of the first state named `name`, looking from `i` on.
pub open spec fn find_state_from(states: Seq<StateV>, name: Seq<char>, i: int) -> Option<int>
    decreases states.len() - i,
{
    if 0 <= i < states.len() {
        if states[i].name == name {
            Some(i)
        } else {
            find_state_from(states, name, i + 1)
        }
    } else {
        None
    }
}

/// The index of the first state named `name`.
pub open spec fn find_state(states: Seq<StateV>, name: Seq<char>) -> Option<int> {
    find_state_from(states, name, 0)
}

pub proof fn lemma_find_state_in_range(states: Seq<StateV>, name: Seq<char>, i: int)
    requires
        0 <= i <= states.len(),
    ensures
        match find_state_from(states, name, i) {
            Some(j) => i <= j < states.len() && states[j].name == name,
            None => true,
        },
    decreases states.len() - i,
{
    if i < states.len() && states[i].name != name {
        lemma_find_state_in_range(states, name, i + 1);
    }
}

/// One cycle of the machine: an ended machine answers `None` untouched;
/// otherwise the current state runs, its outputs are returned, and its
/// transition is applied — unless the cycle failed or the transition
/// names an unknown state, in which case the pointer stays put (globals
/// keep whatever the cycle already wrote).
pub open spec fn spec_machine_step(m: MachineV, input: JsonV, advance: bool) -> (Result<
    Option<JsonV>,
    ErrK,
>, MachineV) {
    match m.current {
        None => (Ok(None), m),
        Some(ci) => {
            let ro = spec_run_state(m.states[ci], input, m.globals, m.default_head, advance);
            let m1 = MachineV { globals: ro.g, ..m };
            match ro.res {
                Err(e) => (Err(e), m1),
                Ok((o, op)) => match op {
                    StateOpV::Stay => (Ok(Some(o)), m1),
                    StateOpV::End => (Ok(Some(o)), MachineV { current: None, ..m1 }),
                    StateOpV::ChangeTo(nm) => match find_state(m.states, nm) {
                        Some(ni) => (Ok(Some(o)), MachineV { current: Some(ni), ..m1 }),
                        None => (Err(ErrK::NonexistantState(nm)), m1),
                    },
                },
            }
        },
    }
}

impl StateMachine {
    /// A fresh machine: empty globals, and the state at `initial_state`
    /// current (none, if the index is out of range).
    pub fn new(default_head: Vec<Expression>, states: Vec<State>, initial_state: usize) -> (r:
        StateMachine)
        ensures
            smv(r) == (MachineV {
                globals: JsonV::Obj(Seq::empty()),
                default_head: evs(default_head@),
                states: stvs(states@),
                current: if (initial_state as int) < stvs(states@).len() {
                    Some(initial_state as int)
                } else {
                    None::<int>
                },
            }),
            machine_inv(smv(r)),
    {
        proof {
            lemma_stvs(states@);
        }
        let current_state = if initial_state < states.len() {
            Some(initial_state)
        } else {
            None
        };
        StateMachine { globals: Json::new_object(), default_head, states, current_state }
    }

    /// Replaces the globals tree wholesale.
    pub fn reinit(&mut self, g: Json) -> (r: SML_Result<()>)
        ensures
            r is Ok,
            smv(*final(self)) == (MachineV { globals: jv(g), ..smv(*old(self)) }),
    {
        self.globals = g;
        Ok(())
    }

    /// A copy of the globals tree.
    pub fn globals(&self) -> (r: Json)
        ensures
            jv(r) == smv(*self).globals,
    {
        self.globals.deep_clone()
    }

    /// The name of the current state, or `None` once the machine has
    /// ended.
    pub fn current_state(&self) -> (r: Option<String>)
        requires
            machine_inv(smv(*self)),
        ensures
            match smv(*self).current {
                Some(ci) => r matches Some(n) && n@ == smv(*self).states[ci].name,
                None => r is None,
            },
    {
        proof {
            lemma_stvs(self.states@);
        }
        match self.current_state {
            Some(ci) => Some(self.states[ci].name().clone()),
            None => None,
        }
    }

    /// The index of the first state with this name, per [`find_state`].
    fn get_state(&self, name: &String) -> (r: Option<usize>)
        ensures
            match r {
                Some(i) => find_state(smv(*self).states, name@) == Some(i as int) && (i as int)
                    < smv(*self).states.len(),
                None => find_state(smv(*self).states, name@) is None,
            },
    {
        proof {
            lemma_stvs(self.states@);
        }
        let ghost sts = stvs(self.states@);
        let mut i: usize = 0;
        while i < self.states.len()
            invariant
                i <= self.states@.len(),
                sts == stvs(self.states@),
                sts.len() == self.states@.len(),
                forall|j: int| 0 <= j < sts.len() ==> sts[j] == stv(#[trigger] self.states@[j]),
                find_state_from(sts, name@, 0) == find_state_from(sts, name@, i as int),
            decreases self.states@.len() - i,
        {
            if str_eq(self.states[i].name().as_str(), name.as_str()) {
                return Some(i);
            }
            i += 1;
        }
        None
    }

    /// One cycle with branch conditions deciding.
    pub fn run(&mut self, input: Json) -> (r: SML_Result<Option<Json>>)
        requires
            machine_inv(smv(*old(self))),
        ensures
            machine_inv(smv(*final(self))),
            ({
                let (res, m1) = spec_machine_step(smv(*old(self)), jv(input), false);
                smv(*final(self)) == m1 && (match r {
                    Ok(Some(o)) => res == Ok::<Option<JsonV>, ErrK>(Some(jv(o))),
                    Ok(None) => res == Ok::<Option<JsonV>, ErrK>(None::<JsonV>),
                    Err(e) => res == Err::<Option<JsonV>, ErrK>(err_kind(e)),
                })
            }),
    {
        self.run_or_advance_state(input, false)
    }

    /// One cycle that runs the branch marked default, conditions unread.
    pub fn advance(&mut self, input: Json) -> (r: SML_Result<Option<Json>>)
        requires
            machine_inv(smv(*old(self))),
        ensures
            machine_inv(smv(*final(self))),
            ({
                let (res, m1) = spec_machine_step(smv(*old(self)), jv(input), true);
                smv(*final(self)) == m1 && (match r {
                    Ok(Some(o)) => res == Ok::<Option<JsonV>, ErrK>(Some(jv(o))),
                    Ok(None) => res == Ok::<Option<JsonV>, ErrK>(None::<JsonV>),
                    Err(e) => res == Err::<Option<JsonV>, ErrK>(err_kind(e)),
                })
            }),
    {
        self.run_or_advance_state(input, true)
    }

    /// One cycle, per [`spec_machine_step`].
    fn run_or_advance_state(&mut self, input: Json, advance: bool) -> (r: SML_Result<Option<Json>>)
        requires
            machine_inv(smv(*old(self))),
        ensures
            machine_inv(smv(*final(self))),
            ({
                let (res, m1) = spec_machine_step(smv(*old(self)), jv(input), advance);
                smv(*final(self)) == m1 && (match r {
                    Ok(Some(o)) => res == Ok::<Option<JsonV>, ErrK>(Some(jv(o))),
                    Ok(None) => res == Ok::<Option<JsonV>, ErrK>(None::<JsonV>),
                    Err(e) => res == Err::<Option<JsonV>, ErrK>(err_kind(e)),
                })
            }),
    {
        proof {
            lemma_stvs(self.states@);
        }
        let ci = match self.current_state {
            Some(ci) => ci,
            None => {
                return Ok(None);
            },
        };
        let (o, op) = if advance {
            match self.states[ci].run_default(&input, &mut self.globals, &self.default_head) {
                Ok(x) => x,
                Err(e) => {
                    return Err(e);
                },
            }
        } else {
            match self.states[ci].run(&input, &mut self.globals, &self.default_head) {
                Ok(x) => x,
                Err(e) => {
                    return Err(e);
                },
            }
        };
        match op {
            StateOp::Stay => Ok(Some(o)),
            StateOp::End => {
                self.current_state = None;
                Ok(Some(o))
            },
            StateOp::ChangeTo(state_name) => {
                match self.get_state(&state_name) {
                    Some(ni) => {
                        self.current_state = Some(ni);
                        Ok(Some(o))
                    },
                    None => Err(SML_Error::NonexistantState(state_name)),
                }
            },
        }
    }
}

} // verus!
