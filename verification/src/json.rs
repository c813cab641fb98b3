//! The store tree: a JSON-shaped dynamic value.
//!
//! The three stores (`inputs`, `outputs`, `globals`) are trees of this
//! type. Objects keep their entries in insertion order and hold each key at
//! most once; looking a key up finds its first occurrence.

use vstd::prelude::*;

use crate::error::{ErrK, SML_Error, SML_Result, err_kind};
use crate::util::str_eq;
use crate::value::{Value, ValueV, vv, vv_seq, lemma_vv_seq};

verus! {

/// A JSON-shaped tree. Numbers are fixed-point decimals counting
/// millionths, as in [`Value`].
#[derive(Debug, PartialEq)]
pub enum Json {
    Null,
    Bool(bool),
    Number(i64),
    String(String),
    Array(Vec<Json>),
    Object(Vec<(String, Json)>),
}

/// The mathematical model of a [`Json`] tree.
pub enum JsonV {
    Null,
    Bool(bool),
    Num(int),
    Str(Seq<char>),
    Arr(Seq<JsonV>),
    Obj(Seq<(Seq<char>, JsonV)>),
}

/// The model of a tree.
pub open spec fn jv(j: Json) -> JsonV
    decreases j, 0int,
{
    match j {
        Json::Null => JsonV::Null,
        Json::Bool(b) => JsonV::Bool(b),
        Json::Number(n) => JsonV::Num(n as int),
        Json::String(s) => JsonV::Str(s@),
        Json::Array(items) => JsonV::Arr(jv_arr(items@)),
        Json::Object(entries) => JsonV::Obj(jv_obj(entries@)),
    }
}

/// The models of the trees of `s` from index `i` on.
pub open spec fn jv_arr_from(s: Seq<Json>, i: int) -> Seq<JsonV>
    decreases s, s.len() - i,
{
    if 0 <= i < s.len() {
        seq![jv(s[i])] + jv_arr_from(s, i + 1)
    } else {
        Seq::empty()
    }
}

/// The models of the trees of `s`.
pub open spec fn jv_arr(s: Seq<Json>) -> Seq<JsonV>
    decreases s, s.len() + 1,
{
    jv_arr_from(s, 0)
}

/// The models of the object entries of `s` from index `i` on.
pub open spec fn jv_obj_from(s: Seq<(String, Json)>, i: int) -> Seq<(Seq<char>, JsonV)>
    decreases s, s.len() - i,
{
    if 0 <= i < s.len() {
        seq![(s[i].0@, jv(s[i].1))] + jv_obj_from(s, i + 1)
    } else {
        Seq::empty()
    }
}

/// The models of the object entries of `s`.
pub open spec fn jv_obj(s: Seq<(String, Json)>) -> Seq<(Seq<char>, JsonV)>
    decreases s, s.len() + 1,
{
    jv_obj_from(s, 0)
}

proof fn lemma_jv_arr_from(s: Seq<Json>, i: int)
    requires
        0 <= i <= s.len(),
    ensures
        jv_arr_from(s, i).len() == s.len() - i,
        forall|j: int| i <= j < s.len() ==> jv_arr_from(s, i)[j - i] == jv(#[trigger] s[j]),
    decreases s.len() - i,
{
    if i < s.len() {
        lemma_jv_arr_from(s, i + 1);
    }
}

/// The model of a sequence of trees is the sequence of their models.
pub broadcast proof fn lemma_jv_arr(s: Seq<Json>)
    ensures
        (#[trigger] jv_arr(s)).len() == s.len(),
        forall|j: int| 0 <= j < s.len() ==> jv_arr(s)[j] == jv(#[trigger] s[j]),
{
    lemma_jv_arr_from(s, 0);
}

proof fn lemma_jv_obj_from(s: Seq<(String, Json)>, i: int)
    requires
        0 <= i <= s.len(),
    ensures
        jv_obj_from(s, i).len() == s.len() - i,
        forall|j: int|
            i <= j < s.len() ==> jv_obj_from(s, i)[j - i] == ((#[trigger] s[j]).0@, jv(s[j].1)),
    decreases s.len() - i,
{
    if i < s.len() {
        lemma_jv_obj_from(s, i + 1);
    }
}

/// The model of a sequence of object entries is the sequence of their
/// models, keys and values alike.
pub broadcast proof fn lemma_jv_obj(s: Seq<(String, Json)>)
    ensures
        (#[trigger] jv_obj(s)).len() == s.len(),
        forall|j: int| 0 <= j < s.len() ==> jv_obj(s)[j] == ((#[trigger] s[j]).0@, jv(s[j].1)),
{
    lemma_jv_obj_from(s, 0);
}

/// Looks key `k` up among the entries of `s` from index `i` on: the value
/// of the first entry whose key is `k`.
pub open spec fn obj_get_from(s: Seq<(Seq<char>, JsonV)>, k: Seq<char>, i: int) -> Option<JsonV>
    decreases s.len() - i,
{
    if 0 <= i < s.len() {
        if s[i].0 == k {
            Some(s[i].1)
        } else {
            obj_get_from(s, k, i + 1)
        }
    } else {
        None
    }
}

/// Looks key `k` up among the entries of `s`.
pub open spec fn obj_get(s: Seq<(Seq<char>, JsonV)>, k: Seq<char>) -> Option<JsonV> {
    obj_get_from(s, k, 0)
}

/// Writes `v` under key `k`: replaces the first entry whose key is `k`, or
/// appends a new entry.
pub open spec fn obj_set_from(
    s: Seq<(Seq<char>, JsonV)>,
    k: Seq<char>,
    v: JsonV,
    i: int,
) -> Seq<(Seq<char>, JsonV)>
    decreases s.len() - i,
{
    if 0 <= i < s.len() {
        if s[i].0 == k {
            s.update(i, (k, v))
        } else {
            obj_set_from(s, k, v, i + 1)
        }
    } else {
        s.push((k, v))
    }
}

/// Writes `v` under key `k` among the entries of `s`.
pub open spec fn obj_set(s: Seq<(Seq<char>, JsonV)>, k: Seq<char>, v: JsonV) -> Seq<
    (Seq<char>, JsonV),
> {
    obj_set_from(s, k, v, 0)
}

impl Json {
    /// A deep copy: the copy has the same model as the original.
    pub fn deep_clone(&self) -> (r: Json)
        ensures
            jv(r) == jv(*self),
        decreases *self,
    {
        match self {
            Json::Null => Json::Null,
            Json::Bool(b) => Json::Bool(*b),
            Json::Number(n) => Json::Number(*n),
            Json::String(s) => Json::String(s.clone()),
            Json::Array(items) => {
                let mut v: Vec<Json> = Vec::new();
                let mut i: usize = 0;
                while i < items.len()
                    invariant
                        i <= items@.len(),
                        v@.len() == i,
                        *self == Json::Array(*items),
                        forall|j: int| 0 <= j < i ==> jv(#[trigger] v@[j]) == jv(items@[j]),
                    decreases items@.len() - i,
                {
                    proof {
                        assert(*items == self->Array_0);
                        assert(decreases_to!(*self => self->Array_0));
                        assert(decreases_to!(*items => items@[i as int]));
                        assert(decreases_to!(*self => items@[i as int]));
                    }
                    let c = items[i].deep_clone();
                    v.push(c);
                    i += 1;
                }
                proof {
                    lemma_jv_arr(v@);
                    lemma_jv_arr(items@);
                    assert forall|k: int| 0 <= k < v@.len() implies jv_arr(v@)[k] == jv_arr(
                        items@,
                    )[k] by {
                        assert(jv_arr(v@)[k] == jv(v@[k]));
                        assert(jv_arr(items@)[k] == jv(items@[k]));
                    }
                    assert(jv_arr(v@) =~= jv_arr(items@));
                }
                Json::Array(v)
            },
            Json::Object(entries) => {
                let mut v: Vec<(String, Json)> = Vec::new();
                let mut i: usize = 0;
                while i < entries.len()
                    invariant
                        i <= entries@.len(),
                        v@.len() == i,
                        *self == Json::Object(*entries),
                        forall|j: int|
                            0 <= j < i ==> (#[trigger] v@[j]).0@ == entries@[j].0@ && jv(v@[j].1)
                                == jv(entries@[j].1),
                    decreases entries@.len() - i,
                {
                    proof {
                        assert(*entries == self->Object_0);
                        assert(decreases_to!(*self => self->Object_0));
                        assert(decreases_to!(*entries => entries@[i as int]));
                        assert(decreases_to!(entries@[i as int] => entries@[i as int].1));
                        assert(decreases_to!(*self => entries@[i as int].1));
                    }
                    let k = entries[i].0.clone();
                    let c = entries[i].1.deep_clone();
                    v.push((k, c));
                    i += 1;
                }
                proof {
                    lemma_jv_obj(v@);
                    lemma_jv_obj(entries@);
                    assert forall|k: int| 0 <= k < v@.len() implies jv_obj(v@)[k] == jv_obj(
                        entries@,
                    )[k] by {
                        assert(jv_obj(v@)[k] == (v@[k].0@, jv(v@[k].1)));
                        assert(jv_obj(entries@)[k] == (entries@[k].0@, jv(entries@[k].1)));
                    }
                    assert(jv_obj(v@) =~= jv_obj(entries@));
                }
                Json::Object(v)
            },
        }
    }

    /// An empty object: the root shape of every store.
    pub fn new_object() -> (r: Json)
        ensures
            jv(r) == JsonV::Obj(Seq::empty()),
    {
        proof {
            lemma_jv_obj(Seq::<(String, Json)>::empty());
            assert(jv_obj(Seq::<(String, Json)>::empty()) =~= Seq::<(Seq<char>, JsonV)>::empty());
        }
        Json::Object(Vec::new())
    }

    /// Whether this tree is an object.
    pub fn is_object(&self) -> (r: bool)
        ensures
            r == (jv(*self) is Obj),
    {
        match self {
            Json::Object(_) => true,
            _ => false,
        }
    }

    /// Whether this tree is an object holding key `k`.
    pub fn has_key(&self, k: &str) -> (r: bool)
        ensures
            r == match jv(*self) {
                JsonV::Obj(es) => obj_get(es, k@) is Some,
                _ => false,
            },
    {
        match self {
            Json::Object(entries) => {
                match obj_find(entries, k) {
                    Some(_) => true,
                    None => false,
                }
            },
            _ => false,
        }
    }

    /// The value under key `k`, if this tree is an object that holds it.
    pub fn get(&self, k: &str) -> (r: Option<&Json>)
        ensures
            match r {
                Some(c) => jv(*self) matches JsonV::Obj(es) && obj_get(es, k@) == Some(jv(*c)),
                None => match jv(*self) {
                    JsonV::Obj(es) => obj_get(es, k@) is None,
                    _ => true,
                },
            },
    {
        match self {
            Json::Object(entries) => {
                match obj_find(entries, k) {
                    Some(i) => Some(&entries[i].1),
                    None => None,
                }
            },
            _ => None,
        }
    }

    /// Whether this tree is empty: a null, an empty string, array or
    /// object, the number zero, or `false` never (booleans are not empty).
    pub fn is_empty(&self) -> (r: bool)
        ensures
            r == match jv(*self) {
                JsonV::Null => true,
                JsonV::Bool(_) => false,
                JsonV::Num(n) => n == 0,
                JsonV::Str(s) => s.len() == 0,
                JsonV::Arr(a) => a.len() == 0,
                JsonV::Obj(es) => es.len() == 0,
            },
    {
        proof {
            match self {
                Json::Array(items) => lemma_jv_arr(items@),
                Json::Object(entries) => lemma_jv_obj(entries@),
                _ => (),
            }
        }
        match self {
            Json::Null => true,
            Json::Bool(_) => false,
            Json::Number(n) => *n == 0,
            Json::String(s) => s.as_str().is_empty(),
            Json::Array(items) => items.len() == 0,
            Json::Object(entries) => entries.len() == 0,
        }
    }
}

/// The index of the first entry of `entries` whose key is `k`, tied to the
/// model's [`obj_get`].
fn obj_find(entries: &Vec<(String, Json)>, k: &str) -> (r: Option<usize>)
    ensures
        match r {
            Some(i) => i < entries@.len() && entries@[i as int].0@ == k@ && obj_get(
                jv_obj(entries@),
                k@,
            ) == Some(jv(entries@[i as int].1)) && (forall|j: int|
                0 <= j < i ==> (#[trigger] entries@[j]).0@ != k@),
            None => obj_get(jv_obj(entries@), k@) is None && (forall|j: int|
                0 <= j < entries@.len() ==> (#[trigger] entries@[j]).0@ != k@),
        },
{
    proof {
        lemma_jv_obj(entries@);
    }
    let ghost m = jv_obj(entries@);
    let mut i: usize = 0;
    while i < entries.len()
        invariant
            i <= entries@.len(),
            m == jv_obj(entries@),
            m.len() == entries@.len(),
            forall|j: int| 0 <= j < entries@.len() ==> m[j] == ((#[trigger] entries@[j]).0@, jv(
                entries@[j].1,
            )),
            obj_get_from(m, k@, 0) == obj_get_from(m, k@, i as int),
            forall|j: int| 0 <= j < i ==> (#[trigger] entries@[j]).0@ != k@,
        decreases entries@.len() - i,
    {
        if str_eq(entries[i].0.as_str(), k) {
            return Some(i);
        }
        i += 1;
    }
    None
}

/// Walks `path` down from `t`, starting at segment `i`: the node it ends
/// at, or `None` where a segment is missing or a non-object stands in the
/// way.
pub open spec fn tree_get_from(t: JsonV, path: Seq<Seq<char>>, i: int) -> Option<JsonV>
    decreases path.len() - i,
{
    if i < 0 || i >= path.len() {
        Some(t)
    } else {
        match t {
            JsonV::Obj(es) => match obj_get(es, path[i]) {
                Some(c) => tree_get_from(c, path, i + 1),
                None => None,
            },
            _ => None,
        }
    }
}

/// Walks the whole of `path` down from `t`.
pub open spec fn tree_get(t: JsonV, path: Seq<Seq<char>>) -> Option<JsonV> {
    tree_get_from(t, path, 0)
}

/// Writes `v` at the end of `path` below `t`, starting at segment `i`:
/// missing intermediate objects are created, and a non-object met on the
/// way is an identifier collision.
pub open spec fn tree_set_from(t: JsonV, path: Seq<Seq<char>>, i: int, v: JsonV) -> Result<
    JsonV,
    ErrK,
>
    decreases path.len() - i,
{
    if i < 0 || i >= path.len() {
        Err(ErrK::Identifier)
    } else {
        match t {
            JsonV::Obj(es) => {
                if i == path.len() - 1 {
                    Ok(JsonV::Obj(obj_set(es, path[i], v)))
                } else {
                    let child = match obj_get(es, path[i]) {
                        Some(c) => c,
                        None => JsonV::Obj(Seq::empty()),
                    };
                    match tree_set_from(child, path, i + 1, v) {
                        Ok(nc) => Ok(JsonV::Obj(obj_set(es, path[i], nc))),
                        Err(e) => Err(e),
                    }
                }
            },
            _ => Err(ErrK::Identifier),
        }
    }
}

/// Writes `v` at the end of the whole of `path` below `t`.
pub open spec fn tree_set(t: JsonV, path: Seq<Seq<char>>, v: JsonV) -> Result<JsonV, ErrK> {
    tree_set_from(t, path, 0, v)
}

proof fn lemma_obj_set_from_at(
    s: Seq<(Seq<char>, JsonV)>,
    k: Seq<char>,
    v: JsonV,
    i: int,
    idx: int,
)
    requires
        0 <= i <= idx < s.len(),
        s[idx].0 == k,
        forall|j: int| i <= j < idx ==> (#[trigger] s[j]).0 != k,
    ensures
        obj_set_from(s, k, v, i) == s.update(idx, (k, v)),
    decreases idx - i,
{
    if i < idx {
        lemma_obj_set_from_at(s, k, v, i + 1, idx);
    }
}

proof fn lemma_obj_set_from_none(s: Seq<(Seq<char>, JsonV)>, k: Seq<char>, v: JsonV, i: int)
    requires
        0 <= i <= s.len(),
        forall|j: int| i <= j < s.len() ==> (#[trigger] s[j]).0 != k,
    ensures
        obj_set_from(s, k, v, i) == s.push((k, v)),
    decreases s.len() - i,
{
    if i < s.len() {
        lemma_obj_set_from_none(s, k, v, i + 1);
    }
}

/// A copy of `entries` with `v` written under key `k`, per the model's
/// [`obj_set`].
fn obj_put(entries: &Vec<(String, Json)>, k: &String, v: &Json) -> (r: Vec<(String, Json)>)
    ensures
        jv_obj(r@) == obj_set(jv_obj(entries@), k@, jv(*v)),
{
    proof {
        lemma_jv_obj(entries@);
    }
    let ghost m = jv_obj(entries@);
    let found = obj_find(entries, k.as_str());
    let mut out: Vec<(String, Json)> = Vec::new();
    let mut i: usize = 0;
    while i < entries.len()
        invariant
            i <= entries@.len(),
            out@.len() == i,
            m == jv_obj(entries@),
            m.len() == entries@.len(),
            forall|j: int| 0 <= j < entries@.len() ==> m[j] == ((#[trigger] entries@[j]).0@, jv(
                entries@[j].1,
            )),
            match found {
                Some(idx) => idx < entries@.len() && entries@[idx as int].0@ == k@ && (forall|
                    j: int,
                |
                    0 <= j < idx ==> (#[trigger] entries@[j]).0@ != k@),
                None => forall|j: int|
                    0 <= j < entries@.len() ==> (#[trigger] entries@[j]).0@ != k@,
            },
            forall|j: int|
                0 <= j < i ==> (#[trigger] out@[j]).0@ == (if found == Some(j as usize) {
                    k@
                } else {
                    entries@[j].0@
                }),
            forall|j: int|
                0 <= j < i ==> jv((#[trigger] out@[j]).1) == (if found == Some(j as usize) {
                    jv(*v)
                } else {
                    jv(entries@[j].1)
                }),
        decreases entries@.len() - i,
    {
        let replace = match found {
            Some(idx) => idx == i,
            None => false,
        };
        if replace {
            out.push((k.clone(), v.deep_clone()));
        } else {
            out.push((entries[i].0.clone(), entries[i].1.deep_clone()));
        }
        i += 1;
    }
    match found {
        Some(idx) => {
            proof {
                assert forall|j: int| 0 <= j < idx implies (#[trigger] m[j]).0 != k@ by {
                    assert(m[j] == (entries@[j].0@, jv(entries@[j].1)));
                }
                lemma_obj_set_from_at(m, k@, jv(*v), 0, idx as int);
                lemma_jv_obj(out@);
                assert forall|j: int| 0 <= j < m.len() implies jv_obj(out@)[j] == m.update(
                    idx as int,
                    (k@, jv(*v)),
                )[j] by {
                    assert(jv_obj(out@)[j] == (out@[j].0@, jv(out@[j].1)));
                }
                assert(jv_obj(out@) =~= m.update(idx as int, (k@, jv(*v))));
            }
        },
        None => {
            let kc = k.clone();
            let vc = v.deep_clone();
            out.push((kc, vc));
            proof {
                assert forall|j: int| 0 <= j < m.len() implies (#[trigger] m[j]).0 != k@ by {
                    assert(m[j] == (entries@[j].0@, jv(entries@[j].1)));
                }
                lemma_obj_set_from_none(m, k@, jv(*v), 0);
                lemma_jv_obj(out@);
                assert forall|j: int| 0 <= j < m.len() + 1 implies jv_obj(out@)[j] == m.push(
                    (k@, jv(*v)),
                )[j] by {
                    assert(jv_obj(out@)[j] == (out@[j].0@, jv(out@[j].1)));
                }
                assert(jv_obj(out@) =~= m.push((k@, jv(*v))));
            }
        },
    }
    out
}

/// Walks `path` down from `t`: the node it ends at, per the model's
/// [`tree_get`].
pub fn json_tree_get<'a>(t: &'a Json, path: &Vec<String>) -> (r: Option<&'a Json>)
    ensures
        match r {
            Some(c) => tree_get(jv(*t), crate::util::strs_view(path@)) == Some(jv(*c)),
            None => tree_get(jv(*t), crate::util::strs_view(path@)) is None,
        },
{
    let ghost pv = crate::util::strs_view(path@);
    let mut cur: &Json = t;
    let mut i: usize = 0;
    while i < path.len()
        invariant
            i <= path@.len(),
            pv == crate::util::strs_view(path@),
            tree_get_from(jv(*t), pv, 0) == tree_get_from(jv(*cur), pv, i as int),
        decreases path@.len() - i,
    {
        match cur {
            Json::Object(entries) => {
                match obj_find(entries, path[i].as_str()) {
                    Some(idx) => {
                        cur = &entries[idx].1;
                    },
                    None => {
                        return None;
                    },
                }
            },
            _ => {
                return None;
            },
        }
        i += 1;
    }
    Some(cur)
}

/// Writes `v` at the end of `path` below `t`, from segment `i` on, per the
/// model's [`tree_set`]; the result is a fresh tree.
pub fn json_tree_set(t: &Json, path: &Vec<String>, i: usize, v: &Json) -> (r: SML_Result<Json>)
    requires
        i < path@.len(),
    ensures
        ({
            let sp = tree_set_from(jv(*t), crate::util::strs_view(path@), i as int, jv(*v));
            match r {
                Ok(nt) => sp == Ok::<JsonV, ErrK>(jv(nt)),
                Err(e) => sp == Err::<JsonV, ErrK>(err_kind(e)),
            }
        }),
    decreases path@.len() - i,
{
    match t {
        Json::Object(entries) => {
            let key = &path[i];
            if i == path.len() - 1 {
                let ne = obj_put(entries, key, v);
                Ok(Json::Object(ne))
            } else {
                let nc = match obj_find(entries, key.as_str()) {
                    Some(idx) => json_tree_set(&entries[idx].1, path, i + 1, v),
                    None => {
                        let empty = Json::new_object();
                        json_tree_set(&empty, path, i + 1, v)
                    },
                };
                match nc {
                    Ok(ncj) => Ok(Json::Object(obj_put(entries, key, &ncj))),
                    Err(e) => Err(e),
                }
            }
        },
        _ => Err(SML_Error::IdentifierError("cannot set sub-value of non-object".to_owned())),
    }
}

/// Converts a tree node to a value, per the model's [`value_of_tree`]:
/// strings, numbers, booleans and arrays convert; nulls and objects do not.
pub open spec fn value_of_tree(t: JsonV) -> Result<ValueV, ErrK>
    decreases t, 0int,
{
    match t {
        JsonV::Str(s) => Ok(ValueV::Str(s)),
        JsonV::Num(n) => Ok(ValueV::Num(n)),
        JsonV::Bool(b) => Ok(ValueV::Bool(b)),
        JsonV::Arr(items) => match value_of_arr_from(items, 0) {
            Ok(vs) => Ok(ValueV::List(vs)),
            Err(e) => Err(e),
        },
        _ => Err(ErrK::JsonFormat),
    }
}

/// Converts the nodes of `s` from index `i` on, stopping at the first that
/// does not convert.
pub open spec fn value_of_arr_from(s: Seq<JsonV>, i: int) -> Result<Seq<ValueV>, ErrK>
    decreases s, s.len() - i,
{
    if 0 <= i < s.len() {
        match value_of_tree(s[i]) {
            Ok(v) => match value_of_arr_from(s, i + 1) {
                Ok(rest) => Ok(seq![v] + rest),
                Err(e) => Err(e),
            },
            Err(e) => Err(e),
        }
    } else {
        Ok(Seq::empty())
    }
}

/// The tree a value encodes to: lists become arrays, scalars themselves.
pub open spec fn tree_of_value(v: ValueV) -> JsonV
    decreases v, 0int,
{
    match v {
        ValueV::Str(s) => JsonV::Str(s),
        ValueV::Num(n) => JsonV::Num(n),
        ValueV::Bool(b) => JsonV::Bool(b),
        ValueV::List(items) => JsonV::Arr(tree_of_vals_from(items, 0)),
    }
}

/// The trees the values of `s` encode to, from index `i` on.
pub open spec fn tree_of_vals_from(s: Seq<ValueV>, i: int) -> Seq<JsonV>
    decreases s, s.len() - i,
{
    if 0 <= i < s.len() {
        seq![tree_of_value(s[i])] + tree_of_vals_from(s, i + 1)
    } else {
        Seq::empty()
    }
}

proof fn lemma_tree_of_vals_from(s: Seq<ValueV>, i: int)
    requires
        0 <= i <= s.len(),
    ensures
        tree_of_vals_from(s, i).len() == s.len() - i,
        forall|j: int|
            i <= j < s.len() ==> tree_of_vals_from(s, i)[j - i] == tree_of_value(#[trigger] s[j]),
    decreases s.len() - i,
{
    if i < s.len() {
        lemma_tree_of_vals_from(s, i + 1);
    }
}

impl Value {
    /// Converts a store node to a value: a string, number, boolean or
    /// array converts, a null or object is a format error.
    pub fn new(json: &Json) -> (r: SML_Result<Value>)
        ensures
            ({
                let sp = value_of_tree(jv(*json));
                match r {
                    Ok(v) => sp == Ok::<ValueV, ErrK>(vv(v)),
                    Err(e) => sp == Err::<ValueV, ErrK>(err_kind(e)),
                }
            }),
        decreases *json,
    {
        match json {
            Json::String(s) => Ok(Value::String(s.clone())),
            Json::Number(n) => Ok(Value::Number(*n)),
            Json::Bool(b) => Ok(Value::Bool(*b)),
            Json::Array(items) => {
                proof {
                    lemma_jv_arr(items@);
                }
                let ghost m = jv_arr(items@);
                let mut out: Vec<Value> = Vec::new();
                let mut i: usize = 0;
                while i < items.len()
                    invariant
                        i <= items@.len(),
                        out@.len() == i,
                        *json == Json::Array(*items),
                        m == jv_arr(items@),
                        m.len() == items@.len(),
                        forall|j: int| 0 <= j < items@.len() ==> m[j] == jv(#[trigger] items@[j]),
                        match value_of_arr_from(m, i as int) {
                            Ok(rest) => value_of_arr_from(m, 0) == Ok::<Seq<ValueV>, ErrK>(vv_seq(out@) + rest),
                            Err(e) => value_of_arr_from(m, 0) == Err::<Seq<ValueV>, ErrK>(e),
                        },
                    decreases items@.len() - i,
                {
                    proof {
                        assert(*items == json->Array_0);
                        assert(decreases_to!(*json => json->Array_0));
                        assert(decreases_to!(*items => items@[i as int]));
                        assert(decreases_to!(*json => items@[i as int]));
                    }
                    let ghost old_out = out@;
                    match Value::new(&items[i]) {
                        Ok(v) => {
                            out.push(v);
                            proof {
                                lemma_vv_seq(old_out);
                                lemma_vv_seq(out@);
                                lemma_vv_seq(old_out.push(v));
                                assert forall|j: int| 0 <= j < out@.len() implies vv_seq(out@)[j]
                                    == (vv_seq(old_out).push(vv(v)))[j] by {
                                    assert(vv_seq(out@)[j] == vv(out@[j]));
                                    if j < old_out.len() {
                                        assert(vv_seq(old_out)[j] == vv(old_out[j]));
                                    }
                                }
                                assert(vv_seq(out@) =~= vv_seq(old_out).push(vv(v)));
                                if value_of_arr_from(m, i + 1) is Ok {
                                    assert(vv_seq(old_out) + value_of_arr_from(m, i as int)->Ok_0
                                        =~= vv_seq(out@) + value_of_arr_from(m, i + 1)->Ok_0);
                                }
                            }
                        },
                        Err(e) => {
                            return Err(e);
                        },
                    }
                    i += 1;
                }
                proof {
                    assert(value_of_arr_from(m, i as int) == Ok::<Seq<ValueV>, ErrK>(Seq::empty()));
                    assert(vv_seq(out@) + Seq::<ValueV>::empty() =~= vv_seq(out@));
                }
                Ok(Value::List(out))
            },
            _ => Err(
                SML_Error::JsonFormatError(
                    "expected a number, string, array, or boolean; got null or object".to_owned(),
                ),
            ),
        }
    }

    /// Encodes this value as a store node.
    pub fn as_json(&self) -> (r: Json)
        ensures
            jv(r) == tree_of_value(vv(*self)),
        decreases *self,
    {
        match self {
            Value::Bool(b) => Json::Bool(*b),
            Value::String(s) => Json::String(s.clone()),
            Value::Number(n) => Json::Number(*n),
            Value::List(l) => {
                proof {
                    lemma_vv_seq(l@);
                }
                let ghost m = vv_seq(l@);
                let mut out: Vec<Json> = Vec::new();
                let mut i: usize = 0;
                while i < l.len()
                    invariant
                        i <= l@.len(),
                        out@.len() == i,
                        *self == Value::List(*l),
                        m == vv_seq(l@),
                        m.len() == l@.len(),
                        forall|j: int| 0 <= j < l@.len() ==> m[j] == vv(#[trigger] l@[j]),
                        forall|j: int|
                            0 <= j < i ==> jv(#[trigger] out@[j]) == tree_of_value(m[j]),
                    decreases l@.len() - i,
                {
                    proof {
                        assert(*l == self->List_0);
                        assert(decreases_to!(*self => self->List_0));
                        assert(decreases_to!(*l => l@[i as int]));
                        assert(decreases_to!(*self => l@[i as int]));
                    }
                    let c = l[i].as_json();
                    out.push(c);
                    i += 1;
                }
                proof {
                    lemma_jv_arr(out@);
                    lemma_tree_of_vals_from(m, 0);
                    assert forall|k: int| 0 <= k < out@.len() implies jv_arr(out@)[k]
                        == tree_of_vals_from(m, 0)[k] by {
                        assert(jv_arr(out@)[k] == jv(out@[k]));
                    }
                    assert(jv_arr(out@) =~= tree_of_vals_from(m, 0));
                }
                Json::Array(out)
            },
        }
    }
}

} // verus!
