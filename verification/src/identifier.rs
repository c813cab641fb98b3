//! Dotted paths into the three stores.
//!
//! An identifier such as `outputs.foo.bar` names the store it lives in
//! (its first segment) and the path of keys below that store's root.

use vstd::prelude::*;

use crate::error::{ErrK, SML_Error, SML_Result, err_kind};
use crate::json::{Json, JsonV, jv, json_tree_get, json_tree_set, tree_get, tree_set, value_of_tree, tree_of_value};
use crate::util::{chars_eq, chars_to_string, str_eq, strs_view, to_chars};
use crate::value::{Value, ValueV, vv};

verus! {

/// Which of the three stores an identifier points into.
#[derive(Clone, Copy, Debug, PartialEq, Eq, Structural)]
pub enum IdentifierStore {
    Inputs,
    Outputs,
    Globals,
}

/// A store tag and a path of keys below that store's root.
#[derive(Debug)]
pub struct Identifier {
    store: IdentifierStore,
    name: String,
    path: Vec<String>,
}

/// The mathematical model of an [`Identifier`].
pub struct IdentV {
    pub store: IdentifierStore,
    pub name: Seq<char>,
    pub path: Seq<Seq<char>>,
}

/// The model of an identifier.
pub closed spec fn idv(id: Identifier) -> IdentV {
    IdentV { store: id.store, name: id.name@, path: strs_view(id.path@) }
}

/// The index of the first `c` in `s` at or after `i`, or the length of
/// `s` if there is none.
pub open spec fn find_char(s: Seq<char>, c: char, i: int) -> int
    decreases s.len() - i,
{
    if i < 0 || i >= s.len() {
        s.len() as int
    } else if s[i] == c {
        i
    } else {
        find_char(s, c, i + 1)
    }
}

pub proof fn lemma_find_char_bounds(s: Seq<char>, c: char, i: int)
    requires
        0 <= i <= s.len(),
    ensures
        i <= find_char(s, c, i) <= s.len(),
    decreases s.len() - i,
{
    if i < s.len() && s[i] != c {
        lemma_find_char_bounds(s, c, i + 1);
    }
}

proof fn lemma_find_char_at(s: Seq<char>, c: char, p: int, i: int)
    requires
        0 <= p <= i <= s.len(),
        forall|j: int| p <= j < i ==> s[j] != c,
        i < s.len() ==> s[i] == c,
    ensures
        find_char(s, c, p) == if i < s.len() {
            i
        } else {
            s.len() as int
        },
    decreases i - p,
{
    if p < i {
        lemma_find_char_at(s, c, p + 1, i);
    }
}

/// The pieces of `s` from position `i` on, split at every `c`.
pub open spec fn split_char_from(s: Seq<char>, c: char, i: int) -> Seq<Seq<char>>
    decreases s.len() - i,
    when 0 <= i <= s.len()
{
    let j = find_char(s, c, i);
    proof {
        lemma_find_char_bounds(s, c, i);
    }
    if j >= s.len() {
        seq![s.subrange(i, s.len() as int)]
    } else {
        seq![s.subrange(i, j)] + split_char_from(s, c, j + 1)
    }
}

/// The pieces of `s`, split at every `c`: splitting never yields an empty
/// sequence of pieces, and keeps empty pieces between adjacent separators.
pub open spec fn split_char(s: Seq<char>, c: char) -> Seq<Seq<char>> {
    split_char_from(s, c, 0)
}

/// The pieces of `parts` up to index `i`, joined with `c` between them.
pub open spec fn join_upto(parts: Seq<Seq<char>>, c: char, i: int) -> Seq<char>
    decreases i,
{
    if i <= 0 {
        Seq::empty()
    } else if i == 1 {
        parts[0]
    } else {
        join_upto(parts, c, i - 1) + seq![c] + parts[i - 1]
    }
}

/// All pieces of `parts`, joined with `c` between them.
pub open spec fn join_char(parts: Seq<Seq<char>>, c: char) -> Seq<char> {
    join_upto(parts, c, parts.len() as int)
}

/// The store a leading identifier segment names, if any.
pub open spec fn spec_store_of(s: Seq<char>) -> Option<IdentifierStore> {
    if s == "inputs"@ {
        Some(IdentifierStore::Inputs)
    } else if s == "outputs"@ {
        Some(IdentifierStore::Outputs)
    } else if s == "globals"@ {
        Some(IdentifierStore::Globals)
    } else {
        None
    }
}

/// The identifier a source token denotes: its first dot-separated segment
/// names a store, the rest form the path; fewer than two segments, or an
/// unknown store name, is a syntax error.
pub open spec fn spec_ident_of(s: Seq<char>) -> Result<IdentV, ErrK> {
    let parts = split_char(s, '.');
    if parts.len() < 2 {
        Err(ErrK::Syntax)
    } else {
        match spec_store_of(parts[0]) {
            Some(store) => {
                let path = parts.skip(1);
                Ok(IdentV { store, name: join_char(path, '.'), path })
            },
            None => Err(ErrK::Syntax),
        }
    }
}

/// What reading an identifier yields against the three stores: the value
/// at its path in its store, a name error where the path breaks off, or a
/// format error where the node there has no value form.
pub open spec fn spec_ident_get(id: IdentV, i: JsonV, o: JsonV, g: JsonV) -> Result<ValueV, ErrK> {
    let store = match id.store {
        IdentifierStore::Inputs => i,
        IdentifierStore::Outputs => o,
        IdentifierStore::Globals => g,
    };
    match tree_get(store, id.path) {
        Some(node) => value_of_tree(node),
        None => Err(ErrK::IdentifierName(id.name)),
    }
}

/// What writing `v` through an identifier does to the output and global
/// stores: writing into `inputs` is forbidden, and a write that fails
/// leaves both stores as they were.
pub open spec fn spec_ident_set(id: IdentV, o: JsonV, g: JsonV, v: ValueV) -> Result<
    (JsonV, JsonV),
    ErrK,
> {
    match id.store {
        IdentifierStore::Inputs => Err(ErrK::InputsWrite),
        IdentifierStore::Outputs => match tree_set(o, id.path, tree_of_value(v)) {
            Ok(no) => Ok((no, g)),
            Err(e) => Err(e),
        },
        IdentifierStore::Globals => match tree_set(g, id.path, tree_of_value(v)) {
            Ok(ng) => Ok((o, ng)),
            Err(e) => Err(e),
        },
    }
}

/// Splits the characters of `cs` at every `sep`.
pub(crate) fn split_exec(cs: &Vec<char>, sep: char) -> (r: Vec<Vec<char>>)
    ensures
        r@.len() == split_char(cs@, sep).len(),
        forall|j: int| 0 <= j < r@.len() ==> (#[trigger] r@[j])@ == split_char(cs@, sep)[j],
{
    let ghost s = cs@;
    let mut out: Vec<Vec<char>> = Vec::new();
    let mut cur: Vec<char> = Vec::new();
    let mut p: usize = 0;
    let mut i: usize = 0;
    while i < cs.len()
        invariant
            0 <= p <= i <= s.len(),
            s == cs@,
            cur@ == s.subrange(p as int, i as int),
            forall|j: int| p <= j < i ==> s[j] != sep,
            split_char_from(s, sep, 0).len() == out@.len() + split_char_from(
                s,
                sep,
                p as int,
            ).len(),
            forall|j: int|
                0 <= j < out@.len() ==> (#[trigger] out@[j])@ == split_char_from(s, sep, 0)[j],
            forall|j: int|
                out@.len() <= j < split_char_from(s, sep, 0).len() ==> split_char_from(
                    s,
                    sep,
                    0,
                )[j] == split_char_from(s, sep, p as int)[j - out@.len()],
        decreases s.len() - i,
    {
        let c = cs[i];
        if c == sep {
            proof {
                lemma_find_char_at(s, sep, p as int, i as int);
                assert(split_char_from(s, sep, p as int) == seq![s.subrange(p as int, i as int)]
                    + split_char_from(s, sep, i + 1));
            }
            out.push(cur);
            cur = Vec::new();
            p = i + 1;
            proof {
                assert(cur@ =~= s.subrange(p as int, p as int));
            }
        } else {
            cur.push(c);
            proof {
                assert(cur@ =~= s.subrange(p as int, i + 1));
            }
        }
        i += 1;
    }
    proof {
        lemma_find_char_at(s, sep, p as int, s.len() as int);
        assert(split_char_from(s, sep, p as int) == seq![s.subrange(p as int, s.len() as int)]);
    }
    out.push(cur);
    out
}

/// Joins `parts` with `sep` between them.
fn join_exec(parts: &Vec<Vec<char>>, sep: char) -> (r: Vec<char>)
    ensures
        r@ == join_upto(
            Seq::new(parts@.len(), |j: int| parts@[j]@),
            sep,
            parts@.len() as int,
        ),
{
    let ghost m = Seq::new(parts@.len(), |j: int| parts@[j]@);
    let mut out: Vec<char> = Vec::new();
    let mut k: usize = 0;
    while k < parts.len()
        invariant
            k <= parts@.len(),
            m == Seq::new(parts@.len(), |j: int| parts@[j]@),
            out@ == join_upto(m, sep, k as int),
        decreases parts@.len() - k,
    {
        if k > 0 {
            out.push(sep);
        }
        let part = &parts[k];
        let mut j: usize = 0;
        while j < part.len()
            invariant
                j <= part@.len(),
                k < parts@.len(),
                m == Seq::new(parts@.len(), |jj: int| parts@[jj]@),
                part == &parts[k as int],
                out@ == (if k == 0 {
                    join_upto(m, sep, k as int)
                } else {
                    join_upto(m, sep, k as int) + seq![sep]
                }) + part@.subrange(0, j as int),
            decreases part@.len() - j,
        {
            out.push(part[j]);
            j += 1;
        }
        proof {
            assert(part@.subrange(0, part@.len() as int) =~= part@);
            assert(m[k as int] == parts@[k as int]@);
            if k == 0 {
                assert(out@ =~= join_upto(m, sep, k + 1));
            } else {
                assert(out@ =~= join_upto(m, sep, k as int) + seq![sep] + m[k as int]);
            }
        }
        k += 1;
    }
    proof {
        if parts@.len() == 0 {
            assert(out@ =~= join_upto(m, sep, 0));
        }
    }
    out
}

impl Identifier {
    /// Every identifier has at least one path segment below its store:
    /// parsing admits no other.
    #[verifier::type_invariant]
    closed spec fn type_inv(self) -> bool {
        self.path@.len() >= 1
    }

    /// A well-formed identifier has at least one path segment below its
    /// store.
    pub open spec fn wf(&self) -> bool {
        idv(*self).path.len() >= 1
    }

    /// Parses a dotted identifier: the first segment names the store, the
    /// rest form the path.
    pub fn from_str(s: String) -> (r: SML_Result<Identifier>)
        ensures
            ({
                let sp = spec_ident_of(s@);
                match r {
                    Ok(id) => sp == Ok::<IdentV, ErrK>(idv(id)) && id.wf(),
                    Err(e) => sp == Err::<IdentV, ErrK>(err_kind(e)),
                }
            }),
    {
        let cs = to_chars(s.as_str());
        let parts = split_exec(&cs, '.');
        let ghost sparts = split_char(s@, '.');
        if parts.len() < 2 {
            return Err(
                SML_Error::SyntaxError(
                    "identifier must specify a store: start with 'inputs.', 'globals.', or 'outputs.'".to_owned(),
                ),
            );
        }
        let inputs_lit = to_chars("inputs");
        let outputs_lit = to_chars("outputs");
        let globals_lit = to_chars("globals");
        let store = if chars_eq(&parts[0], &inputs_lit) {
            IdentifierStore::Inputs
        } else if chars_eq(&parts[0], &outputs_lit) {
            IdentifierStore::Outputs
        } else if chars_eq(&parts[0], &globals_lit) {
            IdentifierStore::Globals
        } else {
            return Err(
                SML_Error::SyntaxError(
                    "identifier must specify a store: start with 'inputs.', 'globals.', or 'outputs.'".to_owned(),
                ),
            );
        };
        let mut path: Vec<String> = Vec::new();
        let mut tail: Vec<Vec<char>> = Vec::new();
        let mut k: usize = 1;
        while k < parts.len()
            invariant
                1 <= k <= parts@.len(),
                sparts == split_char(cs@, '.'),
                cs@ == s@,
                parts@.len() == sparts.len(),
                forall|j: int| 0 <= j < parts@.len() ==> (#[trigger] parts@[j])@ == sparts[j],
                path@.len() == k - 1,
                tail@.len() == k - 1,
                forall|j: int| 0 <= j < k - 1 ==> (#[trigger] path@[j])@ == sparts[j + 1],
                forall|j: int| 0 <= j < k - 1 ==> (#[trigger] tail@[j])@ == sparts[j + 1],
            decreases parts@.len() - k,
        {
            let piece = &parts[k];
            let mut copy: Vec<char> = Vec::new();
            let mut j: usize = 0;
            while j < piece.len()
                invariant
                    j <= piece@.len(),
                    copy@ == piece@.subrange(0, j as int),
                decreases piece@.len() - j,
            {
                copy.push(piece[j]);
                proof {
                    assert(copy@ =~= piece@.subrange(0, j + 1));
                }
                j += 1;
            }
            proof {
                assert(copy@ =~= piece@);
            }
            path.push(chars_to_string(&copy));
            tail.push(copy);
            k += 1;
        }
        let name_chars = join_exec(&tail, '.');
        let name = chars_to_string(&name_chars);
        let id = Identifier { store, name, path };
        proof {
            assert(strs_view(id.path@) =~= sparts.skip(1));
            assert(Seq::new(tail@.len(), |j: int| tail@[j]@) =~= sparts.skip(1));
            assert(idv(id) == spec_ident_of(s@)->Ok_0);
        }
        Ok(id)
    }

    /// A copy of this identifier.
    pub fn duplicate(&self) -> (r: Identifier)
        ensures
            idv(r) == idv(*self),
    {
        proof {
            use_type_invariant(self);
        }
        let mut path: Vec<String> = Vec::new();
        let mut k: usize = 0;
        while k < self.path.len()
            invariant
                k <= self.path@.len(),
                path@.len() == k,
                forall|j: int| 0 <= j < k ==> (#[trigger] path@[j])@ == self.path@[j]@,
            decreases self.path@.len() - k,
        {
            path.push(self.path[k].clone());
            k += 1;
        }
        let r = Identifier { store: self.store, name: self.name.clone(), path };
        proof {
            assert(strs_view(r.path@) =~= strs_view(self.path@));
        }
        r
    }

    /// Reads the value this identifier points at, against the three
    /// stores.
    pub fn get(&self, i: &Json, o: &Json, g: &Json) -> (r: SML_Result<Value>)
        ensures
            ({
                let sp = spec_ident_get(idv(*self), jv(*i), jv(*o), jv(*g));
                match r {
                    Ok(v) => sp == Ok::<ValueV, ErrK>(vv(v)),
                    Err(e) => sp == Err::<ValueV, ErrK>(err_kind(e)),
                }
            }),
    {
        let store = match self.store {
            IdentifierStore::Inputs => i,
            IdentifierStore::Outputs => o,
            IdentifierStore::Globals => g,
        };
        match json_tree_get(store, &self.path) {
            Some(node) => Value::new(node),
            None => Err(SML_Error::IdentifierNameError(self.name.clone())),
        }
    }

    /// Writes `v` at this identifier's path: into the output or global
    /// store, never into the inputs. A failed write leaves both stores
    /// unchanged.
    pub fn set(&self, o: &mut Json, g: &mut Json, v: &Value) -> (r: SML_Result<()>)
        ensures
            ({
                let sp = spec_ident_set(idv(*self), jv(*old(o)), jv(*old(g)), vv(*v));
                match r {
                    Ok(_) => sp == Ok::<(JsonV, JsonV), ErrK>((jv(*final(o)), jv(*final(g)))),
                    Err(e) => sp == Err::<(JsonV, JsonV), ErrK>(err_kind(e)) && *final(o) == *old(o)
                        && *final(g) == *old(g),
                }
            }),
    {
        proof {
            use_type_invariant(self);
        }
        let node = v.as_json();
        match self.store {
            IdentifierStore::Inputs => Err(SML_Error::InputsWriteError),
            IdentifierStore::Outputs => {
                match json_tree_set(o, &self.path, 0, &node) {
                    Ok(no) => {
                        *o = no;
                        Ok(())
                    },
                    Err(e) => Err(e),
                }
            },
            IdentifierStore::Globals => {
                match json_tree_set(g, &self.path, 0, &node) {
                    Ok(ng) => {
                        *g = ng;
                        Ok(())
                    },
                    Err(e) => Err(e),
                }
            },
        }
    }
}

} // verus!
