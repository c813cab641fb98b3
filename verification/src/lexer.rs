//! The expression lexer: one source line in, a list of tokens out.
//!
//! Whitespace splits tokens outside quotes. A quote character opens a
//! quoted span; a backslash escapes the next character; a differing quote
//! character inside a span opens a nested span, so `"it's"` is one token.
//! An unterminated quote is a syntax error naming each unmatched quote's
//! column. The single-character symbols `+ - * / ^ ( ) [ ] ,` always split
//! into their own token (with `^=` kept together); multi-character
//! operators such as `==` need whitespace around them. A completed token
//! is classified once whole: number, boolean, operator, else identifier.

use vstd::prelude::*;

use crate::error::{ErrK, SML_Error, SML_Result, err_kind};
use crate::identifier::split_char;
use crate::operation::spec_binop_of;
use crate::util::{chars_to_string, usize_to_chars};
use crate::value::SCALE;

verus! {

/// A lexical token.
#[derive(Debug)]
pub enum Token {
    Identifier(String),
    Number(i64),
    String(String),
    Operator(String),
    Boolean(bool),
    OpenParen,
    CloseParen,
    OpenBracket,
    CloseBracket,
    Comma,
}

/// The mathematical model of a [`Token`].
pub enum TokenV {
    Ident(Seq<char>),
    Num(int),
    Str(Seq<char>),
    Op(Seq<char>),
    Bool(bool),
    LParen,
    RParen,
    LBracket,
    RBracket,
    Comma,
}

/// The model of a token.
pub open spec fn tv(t: Token) -> TokenV {
    match t {
        Token::Identifier(s) => TokenV::Ident(s@),
        Token::Number(n) => TokenV::Num(n as int),
        Token::String(s) => TokenV::Str(s@),
        Token::Operator(s) => TokenV::Op(s@),
        Token::Boolean(b) => TokenV::Bool(b),
        Token::OpenParen => TokenV::LParen,
        Token::CloseParen => TokenV::RParen,
        Token::OpenBracket => TokenV::LBracket,
        Token::CloseBracket => TokenV::RBracket,
        Token::Comma => TokenV::Comma,
    }
}

/// The models of the tokens of `s`.
pub open spec fn tvs(s: Seq<Token>) -> Seq<TokenV> {
    Seq::new(s.len(), |i: int| tv(s[i]))
}

/// Whether `c` is a decimal digit.
pub open spec fn is_digit(c: char) -> bool {
    '0' <= c <= '9'
}

/// The value of a decimal digit.
pub open spec fn digit_val(c: char) -> int {
    if c == '0' {
        0
    } else if c == '1' {
        1
    } else if c == '2' {
        2
    } else if c == '3' {
        3
    } else if c == '4' {
        4
    } else if c == '5' {
        5
    } else if c == '6' {
        6
    } else if c == '7' {
        7
    } else if c == '8' {
        8
    } else {
        9
    }
}

/// Whether `s` is one or more decimal digits.
pub open spec fn all_digits(s: Seq<char>) -> bool {
    s.len() >= 1 && (forall|j: int| 0 <= j < s.len() ==> is_digit(#[trigger] s[j]))
}

/// The value of a digit string.
pub open spec fn digits_val(s: Seq<char>) -> int
    decreases s.len(),
{
    if s.len() == 0 {
        0
    } else {
        digits_val(s.drop_last()) * 10 + digit_val(s.last())
    }
}

/// Ten to the `n`th.
pub open spec fn pow10(n: nat) -> int
    decreases n,
{
    if n == 0 {
        1
    } else {
        10 * pow10((n - 1) as nat)
    }
}

/// The fixed-point number a token spells, if any: digits, with one
/// optional decimal point and at least one digit on each side; fractional
/// digits beyond the sixth are dropped; a value past the `i64` range is
/// no number.
pub open spec fn spec_parse_num(text: Seq<char>) -> Option<int> {
    let parts = split_char(text, '.');
    if parts.len() == 1 && all_digits(parts[0]) {
        let v = digits_val(parts[0]) * (SCALE as int);
        if v <= i64::MAX {
            Some(v)
        } else {
            None
        }
    } else if parts.len() == 2 && all_digits(parts[0]) && all_digits(parts[1]) {
        let fr = if parts[1].len() > 6 {
            parts[1].take(6)
        } else {
            parts[1]
        };
        let v = digits_val(parts[0]) * (SCALE as int) + digits_val(fr) * pow10((6 - fr.len()) as nat);
        if v <= i64::MAX {
            Some(v)
        } else {
            None
        }
    } else {
        None
    }
}

/// What a completed token is: a quoted span is a string; otherwise a
/// number if it parses, a boolean literal, an operator of the fixed set,
/// else an identifier.
pub open spec fn spec_classify(text: Seq<char>, quoted: bool) -> TokenV {
    if quoted {
        TokenV::Str(text)
    } else {
        match spec_parse_num(text) {
            Some(n) => TokenV::Num(n),
            None => {
                if text == "true"@ {
                    TokenV::Bool(true)
                } else if text == "false"@ {
                    TokenV::Bool(false)
                } else if spec_binop_of(text) is Ok {
                    TokenV::Op(text)
                } else {
                    TokenV::Ident(text)
                }
            },
        }
    }
}

/// The lexer's in-flight state: the token text collected so far, whether
/// any of it was quoted, the stack of open quotes with their columns, and
/// whether the next character is escaped.
pub struct LexStV {
    pub cur: Seq<char>,
    pub quoted: bool,
    pub qstack: Seq<(char, int)>,
    pub esc: bool,
}

/// The state the lexer starts a line in.
pub open spec fn lex_init() -> LexStV {
    LexStV { cur: Seq::empty(), quoted: false, qstack: Seq::empty(), esc: false }
}

/// Closes the token being collected, if there is one: an unquoted empty
/// buffer is no token, a quoted one is the empty string.
pub open spec fn spec_flush(acc: Seq<TokenV>, st: LexStV) -> Seq<TokenV> {
    if st.cur.len() == 0 && !st.quoted {
        acc
    } else {
        acc.push(spec_classify(st.cur, st.quoted))
    }
}

/// Whether `c` splits into a token of its own outside quotes.
pub open spec fn is_symbol(c: char) -> bool {
    c == '+' || c == '-' || c == '*' || c == '/' || c == '^' || c == '(' || c == ')' || c == '['
        || c == ']' || c == ','
}

/// The token a split symbol becomes.
pub open spec fn symbol_token(c: char) -> TokenV {
    if c == '(' {
        TokenV::LParen
    } else if c == ')' {
        TokenV::RParen
    } else if c == '[' {
        TokenV::LBracket
    } else if c == ']' {
        TokenV::RBracket
    } else if c == ',' {
        TokenV::Comma
    } else {
        TokenV::Op(seq![c])
    }
}

/// Lexes `s` from position `i` on, given the state so far: the tokens of
/// the whole line, or a syntax error for an unterminated quote.
pub open spec fn spec_lex(s: Seq<char>, i: int, st: LexStV, acc: Seq<TokenV>) -> Result<
    Seq<TokenV>,
    ErrK,
>
    decreases s.len() - i,
    when 0 <= i <= s.len()
{
    if i >= s.len() {
        if st.qstack.len() > 0 {
            Err(ErrK::Syntax)
        } else {
            Ok(spec_flush(acc, st))
        }
    } else {
        let c = s[i];
        if st.esc {
            spec_lex(s, i + 1, LexStV { cur: st.cur.push(c), esc: false, ..st }, acc)
        } else if c == '\\' {
            spec_lex(s, i + 1, LexStV { esc: true, ..st }, acc)
        } else if c == '"' || c == '\'' {
            if st.qstack.len() > 0 && st.qstack.last().0 == c {
                let popped = st.qstack.drop_last();
                if popped.len() == 0 {
                    spec_lex(s, i + 1, LexStV { qstack: popped, ..st }, acc)
                } else {
                    spec_lex(s, i + 1, LexStV { cur: st.cur.push(c), qstack: popped, ..st }, acc)
                }
            } else {
                if st.qstack.len() == 0 {
                    spec_lex(
                        s,
                        i + 1,
                        LexStV { quoted: true, qstack: st.qstack.push((c, i)), ..st },
                        acc,
                    )
                } else {
                    spec_lex(
                        s,
                        i + 1,
                        LexStV { cur: st.cur.push(c), qstack: st.qstack.push((c, i)), ..st },
                        acc,
                    )
                }
            }
        } else if st.qstack.len() > 0 {
            spec_lex(s, i + 1, LexStV { cur: st.cur.push(c), ..st }, acc)
        } else if c == ' ' || c == '\t' {
            spec_lex(s, i + 1, lex_init(), spec_flush(acc, st))
        } else if c == '^' && i + 1 < s.len() && s[i + 1] == '=' {
            spec_lex(s, i + 2, lex_init(), spec_flush(acc, st).push(TokenV::Op("^="@)))
        } else if is_symbol(c) {
            spec_lex(s, i + 1, lex_init(), spec_flush(acc, st).push(symbol_token(c)))
        } else {
            spec_lex(s, i + 1, LexStV { cur: st.cur.push(c), ..st }, acc)
        }
    }
}

/// The tokens of one source line.
pub open spec fn spec_lex_line(s: Seq<char>) -> Result<Seq<TokenV>, ErrK> {
    spec_lex(s, 0, lex_init(), Seq::empty())
}

/// The value of one digit character.
fn digit_to_val(c: char) -> (r: u8)
    requires
        is_digit(c),
    ensures
        r as int == digit_val(c),
        r <= 9,
{
    if c == '0' {
        0
    } else if c == '1' {
        1
    } else if c == '2' {
        2
    } else if c == '3' {
        3
    } else if c == '4' {
        4
    } else if c == '5' {
        5
    } else if c == '6' {
        6
    } else if c == '7' {
        7
    } else if c == '8' {
        8
    } else {
        9
    }
}

proof fn lemma_digits_val_nonneg(s: Seq<char>)
    requires
        forall|j: int| 0 <= j < s.len() ==> is_digit(#[trigger] s[j]),
    ensures
        digits_val(s) >= 0,
    decreases s.len(),
{
    if s.len() > 0 {
        lemma_digits_val_nonneg(s.drop_last());
    }
}

proof fn lemma_digits_val_prefix(s: Seq<char>, j: int)
    requires
        forall|k: int| 0 <= k < s.len() ==> is_digit(#[trigger] s[k]),
        0 <= j <= s.len(),
    ensures
        digits_val(s.take(j)) <= digits_val(s),
    decreases s.len() - j,
{
    if j < s.len() {
        lemma_digits_val_prefix(s, j + 1);
        assert(s.take(j + 1).drop_last() =~= s.take(j));
        assert(forall|k: int| 0 <= k < s.take(j).len() ==> is_digit(#[trigger] s.take(j)[k]));
        lemma_digits_val_nonneg(s.take(j));
    } else {
        assert(s.take(j) =~= s);
    }
}

/// Digit-string value, guarded: `Some` exactly when the text is all
/// digits and its value fits the positive `i64` range.
fn digits_value_checked(s: &Vec<char>) -> (r: Option<u64>)
    ensures
        match r {
            Some(v) => all_digits(s@) && digits_val(s@) == v as int && v as int <= i64::MAX,
            None => !(all_digits(s@) && digits_val(s@) <= i64::MAX),
        },
{
    if s.len() == 0 {
        return None;
    }
    let mut acc: u128 = 0;
    let mut j: usize = 0;
    while j < s.len()
        invariant
            j <= s@.len(),
            s@.len() >= 1,
            forall|k: int| 0 <= k < j ==> is_digit(#[trigger] s@[k]),
            acc as int == digits_val(s@.take(j as int)),
            acc <= i64::MAX as u128,
        decreases s@.len() - j,
    {
        let c = s[j];
        if c < '0' || c > '9' {
            return None;
        }
        let d: u128 = digit_to_val(c) as u128;
        acc = acc * 10 + d;
        proof {
            assert(s@.take(j + 1).drop_last() =~= s@.take(j as int));
            assert(s@.take(j + 1).last() == s@[j as int]);
        }
        if acc > i64::MAX as u128 {
            proof {
                if all_digits(s@) {
                    lemma_digits_val_prefix(s@, j + 1);
                }
            }
            return None;
        }
        j += 1;
    }
    proof {
        assert(s@.take(j as int) =~= s@);
    }
    Some(acc as u64)
}

/// Ten to the `k`th, for small `k`.
fn pow10_exec(k: usize) -> (r: u64)
    requires
        k <= 6,
    ensures
        r as int == pow10(k as nat),
        r >= 1,
        r <= 1000000,
{
    proof {
        assert(pow10(0) == 1);
        assert(pow10(1) == 10);
        assert(pow10(2) == 100);
        assert(pow10(3) == 1000);
        assert(pow10(4) == 10000);
        assert(pow10(5) == 100000);
        assert(pow10(6) == 1000000);
    }
    if k == 0 {
        1
    } else if k == 1 {
        10
    } else if k == 2 {
        100
    } else if k == 3 {
        1000
    } else if k == 4 {
        10000
    } else if k == 5 {
        100000
    } else {
        1000000
    }
}

/// Parses a token's text as a fixed-point number, per
/// [`spec_parse_num`].
fn parse_num(text: &Vec<char>) -> (r: Option<i64>)
    ensures
        match r {
            Some(n) => spec_parse_num(text@) == Some(n as int),
            None => spec_parse_num(text@) is None,
        },
{
    let parts = crate::identifier::split_exec(text, '.');
    let ghost sparts = split_char(text@, '.');
    proof {
        assert(parts@.len() == sparts.len());
        if parts@.len() > 0 {
            assert(parts@[0]@ == sparts[0]);
        }
        if parts@.len() > 1 {
            assert(parts@[1]@ == sparts[1]);
        }
    }
    if parts.len() == 1 {
        let w = match digits_value_checked(&parts[0]) {
            Some(w) => w,
            None => {
                proof {
                    if all_digits(sparts[0]) {
                        lemma_digits_val_nonneg(sparts[0]);
                        assert(digits_val(sparts[0]) > i64::MAX);
                        assert(digits_val(sparts[0]) * (SCALE as int) >= digits_val(sparts[0]))
                            by (nonlinear_arith)
                            requires
                                digits_val(sparts[0]) >= 0,
                        ;
                    }
                }
                return None;
            },
        };
        let v: u128 = (w as u128) * (SCALE as u128);
        proof {
            assert(digits_val(sparts[0]) * (SCALE as int) >= digits_val(sparts[0]))
                by (nonlinear_arith)
                requires
                    digits_val(sparts[0]) >= 0,
            ;
        }
        if v <= i64::MAX as u128 {
            Some(v as i64)
        } else {
            None
        }
    } else if parts.len() == 2 {
        let w = match digits_value_checked(&parts[0]) {
            Some(w) => w,
            None => {
                proof {
                    if all_digits(sparts[0]) && all_digits(sparts[1]) {
                        let fr = if sparts[1].len() > 6 {
                            sparts[1].take(6)
                        } else {
                            sparts[1]
                        };
                        lemma_digits_val_nonneg(sparts[0]);
                        lemma_digits_val_nonneg(fr);
                        lemma_pow10_pos((6 - fr.len()) as nat);
                        assert(digits_val(fr) * pow10((6 - fr.len()) as nat) >= 0)
                            by (nonlinear_arith)
                            requires
                                digits_val(fr) >= 0,
                                pow10((6 - fr.len()) as nat) >= 1,
                        ;
                        assert(digits_val(sparts[0]) * (SCALE as int) >= digits_val(sparts[0]))
                            by (nonlinear_arith)
                            requires
                                digits_val(sparts[0]) >= 0,
                        ;
                    }
                }
                return None;
            },
        };
        let frac_all = &parts[1];
        let mut j: usize = 0;
        while j < frac_all.len()
            invariant
                j <= frac_all@.len(),
                sparts == split_char(text@, '.'),
                sparts.len() == 2,
                frac_all@ == sparts[1],
                all_digits(sparts[0]),
                digits_val(sparts[0]) <= i64::MAX,
                forall|k: int| 0 <= k < j ==> is_digit(#[trigger] frac_all@[k]),
            decreases frac_all@.len() - j,
        {
            let c = frac_all[j];
            if c < '0' || c > '9' {
                return None;
            }
            j += 1;
        }
        if frac_all.len() == 0 {
            return None;
        }
        let frlen: usize = if frac_all.len() > 6 {
            6
        } else {
            frac_all.len()
        };
        let mut fr: Vec<char> = Vec::new();
        let mut k: usize = 0;
        while k < frlen
            invariant
                k <= frlen,
                frlen <= frac_all@.len(),
                fr@ == frac_all@.take(frlen as int).take(k as int),
            decreases frlen - k,
        {
            fr.push(frac_all[k]);
            proof {
                assert(frac_all@.take(frlen as int).take(k + 1) =~= frac_all@.take(
                    frlen as int,
                ).take(k as int).push(frac_all@[k as int]));
            }
            k += 1;
        }
        proof {
            assert(fr@ =~= frac_all@.take(frlen as int));
            if frac_all@.len() <= 6 {
                assert(fr@ =~= frac_all@);
            }
        }
        let fv = match digits_value_checked(&fr) {
            Some(fv) => fv,
            None => {
                proof {
                    assert(all_digits(fr@));
                    lemma_digits_upper(fr@);
                    assert(pow10(0) == 1);
                    assert(pow10(1) == 10);
                    assert(pow10(2) == 100);
                    assert(pow10(3) == 1000);
                    assert(pow10(4) == 10000);
                    assert(pow10(5) == 100000);
                    assert(pow10(6) == 1000000);
                    assert(digits_val(fr@) < 1000000);
                }
                return None;
            },
        };
        let p = pow10_exec(6 - frlen);
        proof {
            lemma_digits_upper(fr@);
            assert(pow10(0) == 1);
            assert(pow10(1) == 10);
            assert(pow10(2) == 100);
            assert(pow10(3) == 1000);
            assert(pow10(4) == 10000);
            assert(pow10(5) == 100000);
            assert(pow10(6) == 1000000);
            assert(fv as int == digits_val(fr@) && digits_val(fr@) < 1000000);
            assert((w as int) * (SCALE as int) <= 0x7fffffffffffffff * 1000000)
                by (nonlinear_arith)
                requires
                    0 <= w <= 0x7fffffffffffffff,
            ;
            assert((fv as int) * (p as int) <= 1000000 * 1000000) by (nonlinear_arith)
                requires
                    0 <= fv < 1000000,
                    0 <= p <= 1000000,
            ;
        }
        let v: u128 = (w as u128) * (SCALE as u128) + (fv as u128) * (p as u128);
        let ghost frg = if sparts[1].len() > 6 {
            sparts[1].take(6)
        } else {
            sparts[1]
        };
        proof {
            assert(frg == fr@);
            lemma_digits_val_nonneg(frg);
            lemma_digits_val_nonneg(sparts[0]);
        }
        if v <= i64::MAX as u128 {
            Some(v as i64)
        } else {
            None
        }
    } else {
        None
    }
}

/// Classifies a completed token, per [`spec_classify`].
fn classify(cur: Vec<char>, quoted: bool) -> (t: Token)
    ensures
        tv(t) == spec_classify(cur@, quoted),
{
    if quoted {
        return Token::String(chars_to_string(&cur));
    }
    match parse_num(&cur) {
        Some(n) => {
            return Token::Number(n);
        },
        None => {},
    }
    let s = chars_to_string(&cur);
    if crate::util::str_eq(s.as_str(), "true") {
        return Token::Boolean(true);
    }
    if crate::util::str_eq(s.as_str(), "false") {
        return Token::Boolean(false);
    }
    let sc = s.clone();
    match crate::operation::BinaryOperation::from_str(sc) {
        Ok(_) => Token::Operator(s),
        Err(_) => Token::Identifier(s),
    }
}

/// Pushes the completed token, if any, onto `acc`, and resets the
/// buffer; mirrors [`spec_flush`].
fn flush_exec(acc: &mut Vec<Token>, cur: &mut Vec<char>, quoted: &mut bool)
    ensures
        tvs(final(acc)@) == spec_flush(
            tvs(old(acc)@),
            LexStV {
                cur: old(cur)@,
                quoted: *old(quoted),
                qstack: Seq::empty(),
                esc: false,
            },
        ),
        final(cur)@ == Seq::<char>::empty(),
        *final(quoted) == false,
{
    let ghost acc0 = tvs(acc@);
    if cur.len() > 0 || *quoted {
        let mut taken: Vec<char> = Vec::new();
        core::mem::swap(&mut taken, cur);
        let t = classify(taken, *quoted);
        acc.push(t);
        proof {
            assert(tvs(acc@) =~= acc0.push(tv(t)));
        }
    }
    *quoted = false;
}

/// The view of an exec quote stack.
pub open spec fn qsv(q: Seq<(char, usize)>) -> Seq<(char, int)> {
    Seq::new(q.len(), |j: int| (q[j].0, q[j].1 as int))
}

/// Lexes one source line, per [`spec_lex_line`]; the error message of an
/// unterminated quote names each unmatched quote's column.
pub fn lex_line(cs: &Vec<char>) -> (r: SML_Result<Vec<Token>>)
    ensures
        ({
            let sp = spec_lex_line(cs@);
            match r {
                Ok(ts) => sp == Ok::<Seq<TokenV>, ErrK>(tvs(ts@)),
                Err(e) => sp == Err::<Seq<TokenV>, ErrK>(err_kind(e)),
            }
        }),
{
    let ghost s = cs@;
    let mut acc: Vec<Token> = Vec::new();
    let mut cur: Vec<char> = Vec::new();
    let mut quoted = false;
    let mut qstack: Vec<(char, usize)> = Vec::new();
    let mut esc = false;
    let mut i: usize = 0;
    proof {
        assert(qsv(qstack@) =~= Seq::<(char, int)>::empty());
        assert(tvs(acc@) =~= Seq::<TokenV>::empty());
        assert(LexStV { cur: cur@, quoted, qstack: qsv(qstack@), esc } == lex_init());
    }
    while i < cs.len()
        invariant
            i <= s.len(),
            s == cs@,
            spec_lex_line(s) == spec_lex(
                s,
                i as int,
                LexStV { cur: cur@, quoted, qstack: qsv(qstack@), esc },
                tvs(acc@),
            ),
        decreases s.len() - i,
    {
        let ghost st_pre = LexStV { cur: cur@, quoted, qstack: qsv(qstack@), esc };
        let c = cs[i];
        if esc {
            cur.push(c);
            esc = false;
            i += 1;
        } else if c == '\\' {
            esc = true;
            i += 1;
        } else if c == '"' || c == '\'' {
            let top = if qstack.len() > 0 {
                Some(qstack[qstack.len() - 1].0)
            } else {
                None
            };
            let closing = match top {
                Some(t) => t == c,
                None => false,
            };
            if closing {
                qstack.pop();
                proof {
                    assert(qsv(qstack@) =~= st_pre.qstack.drop_last());
                }
                if qstack.len() > 0 {
                    cur.push(c);
                }
            } else {
                if qstack.len() == 0 {
                    quoted = true;
                    qstack.push((c, i));
                } else {
                    cur.push(c);
                    qstack.push((c, i));
                }
                proof {
                    assert(qsv(qstack@) =~= st_pre.qstack.push((c, i as int)));
                }
            }
            i += 1;
        } else if qstack.len() > 0 {
            cur.push(c);
            i += 1;
        } else if c == ' ' || c == '\t' {
            proof {
                assert(st_pre.qstack =~= Seq::<(char, int)>::empty());
            }
            flush_exec(&mut acc, &mut cur, &mut quoted);
            i += 1;
        } else if c == '^' && i + 1 < cs.len() && cs[i + 1] == '=' {
            proof {
                assert(st_pre.qstack =~= Seq::<(char, int)>::empty());
            }
            flush_exec(&mut acc, &mut cur, &mut quoted);
            let ghost acc_flushed = tvs(acc@);
            let t = Token::Operator("^=".to_owned());
            acc.push(t);
            proof {
                assert(tvs(acc@) =~= acc_flushed.push(tv(t)));
            }
            i += 2;
        } else if c == '+' || c == '-' || c == '*' || c == '/' || c == '^' || c == '(' || c == ')'
            || c == '[' || c == ']' || c == ',' {
            proof {
                assert(st_pre.qstack =~= Seq::<(char, int)>::empty());
            }
            flush_exec(&mut acc, &mut cur, &mut quoted);
            let t = if c == '(' {
                Token::OpenParen
            } else if c == ')' {
                Token::CloseParen
            } else if c == '[' {
                Token::OpenBracket
            } else if c == ']' {
                Token::CloseBracket
            } else if c == ',' {
                Token::Comma
            } else {
                let mut one: Vec<char> = Vec::new();
                one.push(c);
                proof {
                    assert(one@ =~= seq![c]);
                }
                Token::Operator(chars_to_string(&one))
            };
            let ghost before_push = tvs(acc@);
            acc.push(t);
            proof {
                assert(tvs(acc@) =~= before_push.push(tv(t)));
            }
            i += 1;
        } else {
            cur.push(c);
            i += 1;
        }
    }
    if qstack.len() > 0 {
        let mut msg: Vec<char> = crate::util::to_chars("unterminated quote(s) at column(s):");
        let mut k: usize = 0;
        while k < qstack.len()
            invariant
                k <= qstack@.len(),
            decreases qstack@.len() - k,
        {
            msg.push(' ');
            let mut digits = usize_to_chars(qstack[k].1);
            msg.append(&mut digits);
            k += 1;
        }
        return Err(SML_Error::SyntaxError(chars_to_string(&msg)));
    }
    flush_exec(&mut acc, &mut cur, &mut quoted);
    Ok(acc)
}

proof fn lemma_pow10_pos(n: nat)
    ensures
        pow10(n) >= 1,
    decreases n,
{
    if n > 0 {
        lemma_pow10_pos((n - 1) as nat);
    }
}

proof fn lemma_digits_upper(s: Seq<char>)
    requires
        forall|k: int| 0 <= k < s.len() ==> is_digit(#[trigger] s[k]),
    ensures
        0 <= digits_val(s) < pow10(s.len()),
    decreases s.len(),
{
    if s.len() > 0 {
        assert(forall|k: int|
            0 <= k < s.drop_last().len() ==> is_digit(#[trigger] s.drop_last()[k]));
        lemma_digits_upper(s.drop_last());
    }
}

} // verus!
