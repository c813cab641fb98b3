//! Small string helpers: the rest of the crate works on character vectors
//! and only crosses to `String` at its edges.

use vstd::prelude::*;

verus! {

use vstd::std_specs::iter::IteratorSpec;

/// The characters of `s`, in order.
pub fn to_chars(s: &str) -> (r: Vec<char>)
    ensures
        r@ == s@,
{
    let mut r: Vec<char> = Vec::new();
    let mut it = s.chars();
    proof {
        broadcast use vstd::string::axiom_spec_iter;

    }
    loop
        invariant
            it.obeys_prophetic_iter_laws(),
            it.decrease() is Some,
            r@ + it.remaining() == s@,
        decreases it.decrease()->0,
    {
        match it.next() {
            Some(c) => {
                r.push(c);
            },
            None => {
                proof {
                    assert(r@ =~= s@);
                }
                return r;
            },
        }
    }
}

/// Builds a `String` out of characters.
/// Relies on `String`'s `FromIterator` over `char`: the collected string
/// holds exactly the characters of the iterator, in order.
#[verifier::external_body]
pub fn chars_to_string(v: &Vec<char>) -> (r: String)
    ensures
        r@ == v@,
{
    v.iter().collect()
}

/// Character-sequence equality of two string slices.
pub fn str_eq(a: &str, b: &str) -> (r: bool)
    ensures
        r == (a@ == b@),
{
    let ca = to_chars(a);
    let cb = to_chars(b);
    chars_eq(&ca, &cb)
}

/// The character sequences of a sequence of strings.
pub open spec fn strs_view(s: Seq<String>) -> Seq<Seq<char>> {
    Seq::new(s.len(), |i: int| s[i]@)
}

/// The character of a single decimal digit.
pub open spec fn digit_char(d: nat) -> char {
    ((48 + d) as u8) as char
}

/// The decimal digits of `n`, most significant first.
pub open spec fn dec_digits(n: nat) -> Seq<char>
    decreases n,
{
    if n < 10 {
        seq![digit_char(n)]
    } else {
        dec_digits(n / 10).push(digit_char(n % 10))
    }
}

/// Writes `n` in decimal.
pub fn usize_to_chars(n: usize) -> (r: Vec<char>)
    ensures
        r@ == dec_digits(n as nat),
    decreases n,
{
    if n < 10 {
        let c = (48 + (n as u8)) as char;
        let mut v: Vec<char> = Vec::new();
        v.push(c);
        proof {
            assert(v@ =~= dec_digits(n as nat));
        }
        v
    } else {
        let mut v = usize_to_chars(n / 10);
        let c = (48 + ((n % 10) as u8)) as char;
        v.push(c);
        v
    }
}

/// Whether `p` is a prefix of `a`.
pub fn chars_starts_with(a: &Vec<char>, p: &Vec<char>) -> (r: bool)
    ensures
        r == (p@.len() <= a@.len() && a@.subrange(0, p@.len() as int) == p@),
{
    if p.len() > a.len() {
        return false;
    }
    let mut k: usize = 0;
    while k < p.len()
        invariant
            k <= p@.len(),
            p@.len() <= a@.len(),
            forall|j: int| 0 <= j < k ==> a@[j] == p@[j],
        decreases p@.len() - k,
    {
        if a[k] != p[k] {
            proof {
                assert(a@.subrange(0, p@.len() as int)[k as int] != p@[k as int]);
            }
            return false;
        }
        k += 1;
    }
    proof {
        assert(a@.subrange(0, p@.len() as int) =~= p@);
    }
    true
}

/// The characters of `a` from position `from` on.
pub fn chars_skip(a: &Vec<char>, from: usize) -> (r: Vec<char>)
    requires
        from <= a@.len(),
    ensures
        r@ == a@.skip(from as int),
{
    let mut out: Vec<char> = Vec::new();
    let mut k: usize = from;
    while k < a.len()
        invariant
            from <= k <= a@.len(),
            out@ == a@.subrange(from as int, k as int),
        decreases a@.len() - k,
    {
        out.push(a[k]);
        proof {
            assert(a@.subrange(from as int, k + 1) =~= a@.subrange(from as int, k as int).push(
                a@[k as int],
            ));
        }
        k += 1;
    }
    proof {
        assert(a@.subrange(from as int, a@.len() as int) =~= a@.skip(from as int));
    }
    out
}

/// The first `upto` characters of `a`.
pub fn chars_take(a: &Vec<char>, upto: usize) -> (r: Vec<char>)
    requires
        upto <= a@.len(),
    ensures
        r@ == a@.take(upto as int),
{
    let mut out: Vec<char> = Vec::new();
    let mut k: usize = 0;
    while k < upto
        invariant
            k <= upto <= a@.len(),
            out@ == a@.take(upto as int).take(k as int),
        decreases upto - k,
    {
        out.push(a[k]);
        proof {
            assert(a@.take(upto as int).take(k + 1) =~= a@.take(upto as int).take(k as int).push(
                a@[k as int],
            ));
        }
        k += 1;
    }
    proof {
        assert(out@ =~= a@.take(upto as int));
    }
    out
}

/// Elementwise equality of two character vectors.
pub fn chars_eq(a: &Vec<char>, b: &Vec<char>) -> (r: bool)
    ensures
        r == (a@ == b@),
{
    if a.len() != b.len() {
        return false;
    }
    let mut i: usize = 0;
    while i < a.len()
        invariant
            i <= a@.len(),
            a@.len() == b@.len(),
            forall|j: int| 0 <= j < i ==> a@[j] == b@[j],
        decreases a@.len() - i,
    {
        if a[i] != b[i] {
            return false;
        }
        i += 1;
    }
    proof {
        assert(a@ =~= b@);
    }
    true
}

} // verus!
