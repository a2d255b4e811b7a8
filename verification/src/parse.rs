//! Compiling expression text to the [`crate::expr::Expr`] grammar.
//!
//! The grammar is restricted on purpose: literals (quoted strings, decimal
//! numerals, `true`/`false`), parameter references (`name` or
//! `params.name`), unary `-` and `!`, the binary operators
//! `+ - * == != < <= > >= && ||`, parentheses, and the conditional
//! `c ? a : b`.  Compilation is a syntactic step; what a compiled
//! expression means — and everything proved about templates — is stated
//! over [`crate::expr::spec_eval`] on its result.

use crate::decimal::{in_mantissa_range, lemma_pow10_28_lt_limit, Dec, MAX_SCALE};
use crate::expr::{BinOp, Expr, UnOp};
use crate::types::push_char;
use vstd::arithmetic::power::{lemma_pow1, lemma_pow_adds, lemma_pow_increases, pow};
use vstd::prelude::*;

verus! {

/// A lexical token.
pub enum Tok {
    TIdent(String),
    TStr(String),
    TNum(Dec),
    TTrue,
    TFalse,
    TPlus,
    TMinus,
    TStar,
    TLp,
    TRp,
    TEqEq,
    TNeq,
    TLt,
    TLe,
    TGt,
    TGe,
    TAndAnd,
    TOrOr,
    TBang,
    TQuest,
    TColon,
    TDot,
}

/// Structural validity of a token: numeric literals are well-formed.
pub open spec fn tok_wf(t: Tok) -> bool {
    match t {
        Tok::TNum(d) => d.wf(),
        _ => true,
    }
}

/// All tokens of a stream are valid.
pub open spec fn toks_wf(ts: Seq<Tok>) -> bool {
    forall|i: int| 0 <= i < ts.len() ==> tok_wf(#[trigger] ts[i])
}

/// The characters of `s`, as a vector.
pub fn str_chars(s: &String) -> (r: Vec<char>)
    ensures
        r@ == s@,
{
    let n = s.as_str().unicode_len();
    let mut out: Vec<char> = Vec::new();
    let mut i: usize = 0;
    while i < n
        invariant
            0 <= i <= n,
            n == s@.len(),
            out@ == s@.subrange(0, i as int),
        decreases n - i,
    {
        out.push(s.as_str().get_char(i));
        proof {
            assert(out@ =~= s@.subrange(0, i + 1 as int));
        }
        i = i + 1;
    }
    proof {
        assert(s@.subrange(0, n as int) =~= s@);
    }
    out
}

/// Is `c` an ASCII digit?
fn is_digit(c: char) -> (r: bool)
    ensures
        r == ('0' <= c && c <= '9'),
{
    '0' <= c && c <= '9'
}

/// Is `c` a character identifiers are made of?
fn is_ident_char(c: char) -> (r: bool)
    ensures
        r == (('a' <= c && c <= 'z') || ('A' <= c && c <= 'Z') || ('0' <= c && c <= '9') || c
            == '_'),
{
    ('a' <= c && c <= 'z') || ('A' <= c && c <= 'Z') || ('0' <= c && c <= '9') || c == '_'
}

/// Scan a run of digits starting at `*i`, accumulating into `*m`, counting
/// into `*count`.  Fails where the count would pass twenty-eight digits.
fn scan_digits(cs: &Vec<char>, i: &mut usize, m: &mut i128, count: &mut u32) -> (r: bool)
    requires
        0 <= *old(i) <= cs@.len(),
        0 <= *old(count) <= 28,
        0 <= *old(m) < pow(10, *old(count) as nat),
    ensures
        *old(i) <= *final(i) <= cs@.len(),
        r ==> 0 <= *final(count) <= 28 && 0 <= *final(m) < pow(10, *final(count) as nat)
            && *final(count) - *old(count) == *final(i) - *old(i),
        r && *old(i) < cs@.len() && '0' <= cs@[*old(i) as int] && cs@[*old(i) as int] <= '9'
            ==> *final(i) > *old(i),
        !r ==> *final(count) <= 28 && 0 <= *final(m) < pow(10, *final(count) as nat),
{
    let n = cs.len();
    proof {
        lemma_pow10_28_lt_limit();
        lemma_pow_increases(10, *old(count) as nat, 28);
    }
    while *i < n && '0' <= cs[*i] && cs[*i] <= '9'
        invariant
            n == cs@.len(),
            *old(i) <= *i <= n,
            0 <= *count <= 28,
            0 <= *m < pow(10, *count as nat),
            *m < pow(10, 28),
            *count - *old(count) == *i - *old(i),
        decreases n - *i,
    {
        if *count >= 28 {
            return false;
        }
        let d: i128 = (cs[*i] as u32 - 48) as i128;
        proof {
            lemma_pow10_28_lt_limit();
            lemma_pow1(10);
            lemma_pow_adds(10, *count as nat, 1);
            lemma_pow_increases(10, (*count + 1) as nat, 28);
            assert(0 <= d < 10);
        }
        *m = *m * 10 + d;
        *count = *count + 1;
        *i = *i + 1;
    }
    true
}

/// Turn expression text into tokens, or `None` where a character sequence
/// belongs to no token.
pub fn tokenize(cs: &Vec<char>) -> (r: Option<Vec<Tok>>)
    ensures
        r matches Some(ts) ==> toks_wf(ts@),
{
    let n = cs.len();
    let mut out: Vec<Tok> = Vec::new();
    let mut i: usize = 0;
    while i < n
        invariant
            n == cs@.len(),
            0 <= i <= n,
            toks_wf(out@),
        decreases n - i,
    {
        let c = cs[i];
        if c == ' ' || c == '\t' || c == '\n' || c == '\r' {
            i = i + 1;
        } else if is_digit(c) {
            let mut m: i128 = 0;
            let mut count: u32 = 0;
            proof {
                assert(pow(10, 0) == 1) by {
                    vstd::arithmetic::power::lemma_pow0(10);
                }
            }
            if !scan_digits(cs, &mut i, &mut m, &mut count) {
                return None;
            }
            let mut scale: u32 = 0;
            if i < n && cs[i] == '.' {
                i = i + 1;
                let before = count;
                if !scan_digits(cs, &mut i, &mut m, &mut count) {
                    return None;
                }
                if count == before {
                    // A decimal point with no digits after it.
                    return None;
                }
                scale = count - before;
            }
            let d = Dec { mantissa: m, scale };
            proof {
                lemma_pow10_28_lt_limit();
                lemma_pow_increases(10, count as nat, 28);
                assert(d.wf());
            }
            out.push(Tok::TNum(d));
        } else if c == '\'' {
            let mut lit = String::new();
            let mut j = i + 1;
            while j < n && cs[j] != '\''
                invariant
                    n == cs@.len(),
                    i < j <= n,
                decreases n - j,
            {
                push_char(&mut lit, cs[j]);
                j = j + 1;
            }
            if j >= n {
                // Unterminated string literal.
                return None;
            }
            out.push(Tok::TStr(lit));
            i = j + 1;
        } else if is_ident_char(c) && !is_digit(c) {
            let mut name = String::new();
            let mut j = i;
            while j < n && (('a' <= cs[j] && cs[j] <= 'z') || ('A' <= cs[j] && cs[j] <= 'Z') || (
            '0' <= cs[j] && cs[j] <= '9') || cs[j] == '_')
                invariant
                    n == cs@.len(),
                    i <= j <= n,
                decreases n - j,
            {
                push_char(&mut name, cs[j]);
                j = j + 1;
            }
            if name == String::from_str("true") {
                out.push(Tok::TTrue);
            } else if name == String::from_str("false") {
                out.push(Tok::TFalse);
            } else {
                out.push(Tok::TIdent(name));
            }
            proof {
                assert(j > i);
            }
            i = j;
        } else if c == '+' {
            out.push(Tok::TPlus);
            i = i + 1;
        } else if c == '-' {
            out.push(Tok::TMinus);
            i = i + 1;
        } else if c == '*' {
            out.push(Tok::TStar);
            i = i + 1;
        } else if c == '(' {
            out.push(Tok::TLp);
            i = i + 1;
        } else if c == ')' {
            out.push(Tok::TRp);
            i = i + 1;
        } else if c == '?' {
            out.push(Tok::TQuest);
            i = i + 1;
        } else if c == ':' {
            out.push(Tok::TColon);
            i = i + 1;
        } else if c == '.' {
            out.push(Tok::TDot);
            i = i + 1;
        } else if c == '=' {
            if i + 1 < n && cs[i + 1] == '=' {
                out.push(Tok::TEqEq);
                i = i + 2;
            } else {
                return None;
            }
        } else if c == '!' {
            if i + 1 < n && cs[i + 1] == '=' {
                out.push(Tok::TNeq);
                i = i + 2;
            } else {
                out.push(Tok::TBang);
                i = i + 1;
            }
        } else if c == '<' {
            if i + 1 < n && cs[i + 1] == '=' {
                out.push(Tok::TLe);
                i = i + 2;
            } else {
                out.push(Tok::TLt);
                i = i + 1;
            }
        } else if c == '>' {
            if i + 1 < n && cs[i + 1] == '=' {
                out.push(Tok::TGe);
                i = i + 2;
            } else {
                out.push(Tok::TGt);
                i = i + 1;
            }
        } else if c == '&' {
            if i + 1 < n && cs[i + 1] == '&' {
                out.push(Tok::TAndAnd);
                i = i + 2;
            } else {
                return None;
            }
        } else if c == '|' {
            if i + 1 < n && cs[i + 1] == '|' {
                out.push(Tok::TOrOr);
                i = i + 2;
            } else {
                return None;
            }
        } else {
            return None;
        }
    }
    Some(out)
}

/// Parse a conditional (the whole grammar).
fn parse_ternary(toks: &Vec<Tok>, pos: usize) -> (r: Option<(Expr, usize)>)
    requires
        toks_wf(toks@),
        pos <= toks@.len(),
    ensures
        r matches Some(p) ==> p.0.wf() && pos < p.1 <= toks@.len(),
    decreases toks@.len() - pos, 7int,
{
    let (cond, p1) = match parse_or(toks, pos) {
        Some(p) => p,
        None => {
            return None;
        },
    };
    if p1 < toks.len() && matches!(toks[p1], Tok::TQuest) {
        let (thn, p2) = match parse_ternary(toks, p1 + 1) {
            Some(p) => p,
            None => {
                return None;
            },
        };
        if p2 < toks.len() && matches!(toks[p2], Tok::TColon) {
            let (els, p3) = match parse_ternary(toks, p2 + 1) {
                Some(p) => p,
                None => {
                    return None;
                },
            };
            Some((Expr::Cond(Box::new(cond), Box::new(thn), Box::new(els)), p3))
        } else {
            None
        }
    } else {
        Some((cond, p1))
    }
}

/// Parse a disjunction.
fn parse_or(toks: &Vec<Tok>, pos: usize) -> (r: Option<(Expr, usize)>)
    requires
        toks_wf(toks@),
        pos <= toks@.len(),
    ensures
        r matches Some(p) ==> p.0.wf() && pos < p.1 <= toks@.len(),
    decreases toks@.len() - pos, 6int,
{
    let (first, p1) = match parse_and(toks, pos) {
        Some(p) => p,
        None => {
            return None;
        },
    };
    let mut acc = first;
    let mut p = p1;
    while p < toks.len() && matches!(toks[p], Tok::TOrOr)
        invariant
            toks_wf(toks@),
            acc.wf(),
            pos < p <= toks@.len(),
        decreases toks@.len() - p,
    {
        let (rhs, p2) = match parse_and(toks, p + 1) {
            Some(q) => q,
            None => {
                return None;
            },
        };
        acc = Expr::Binary(BinOp::OpOr, Box::new(acc), Box::new(rhs));
        p = p2;
    }
    Some((acc, p))
}

/// Parse a conjunction.
fn parse_and(toks: &Vec<Tok>, pos: usize) -> (r: Option<(Expr, usize)>)
    requires
        toks_wf(toks@),
        pos <= toks@.len(),
    ensures
        r matches Some(p) ==> p.0.wf() && pos < p.1 <= toks@.len(),
    decreases toks@.len() - pos, 5int,
{
    let (first, p1) = match parse_cmp(toks, pos) {
        Some(p) => p,
        None => {
            return None;
        },
    };
    let mut acc = first;
    let mut p = p1;
    while p < toks.len() && matches!(toks[p], Tok::TAndAnd)
        invariant
            toks_wf(toks@),
            acc.wf(),
            pos < p <= toks@.len(),
        decreases toks@.len() - p,
    {
        let (rhs, p2) = match parse_cmp(toks, p + 1) {
            Some(q) => q,
            None => {
                return None;
            },
        };
        acc = Expr::Binary(BinOp::OpAnd, Box::new(acc), Box::new(rhs));
        p = p2;
    }
    Some((acc, p))
}

/// Parse an (optional, non-associative) comparison.
fn parse_cmp(toks: &Vec<Tok>, pos: usize) -> (r: Option<(Expr, usize)>)
    requires
        toks_wf(toks@),
        pos <= toks@.len(),
    ensures
        r matches Some(p) ==> p.0.wf() && pos < p.1 <= toks@.len(),
    decreases toks@.len() - pos, 4int,
{
    let (lhs, p1) = match parse_add(toks, pos) {
        Some(p) => p,
        None => {
            return None;
        },
    };
    if p1 < toks.len() {
        let op: Option<BinOp> = match &toks[p1] {
            Tok::TEqEq => Some(BinOp::OpEq),
            Tok::TNeq => Some(BinOp::OpNe),
            Tok::TLt => Some(BinOp::OpLt),
            Tok::TLe => Some(BinOp::OpLe),
            Tok::TGt => Some(BinOp::OpGt),
            Tok::TGe => Some(BinOp::OpGe),
            _ => None,
        };
        match op {
            Some(o) => {
                let (rhs, p2) = match parse_add(toks, p1 + 1) {
                    Some(q) => q,
                    None => {
                        return None;
                    },
                };
                Some((Expr::Binary(o, Box::new(lhs), Box::new(rhs)), p2))
            },
            None => Some((lhs, p1)),
        }
    } else {
        Some((lhs, p1))
    }
}

/// Parse sums and differences.
fn parse_add(toks: &Vec<Tok>, pos: usize) -> (r: Option<(Expr, usize)>)
    requires
        toks_wf(toks@),
        pos <= toks@.len(),
    ensures
        r matches Some(p) ==> p.0.wf() && pos < p.1 <= toks@.len(),
    decreases toks@.len() - pos, 3int,
{
    let (first, p1) = match parse_mul(toks, pos) {
        Some(p) => p,
        None => {
            return None;
        },
    };
    let mut acc = first;
    let mut p = p1;
    while p < toks.len() && (matches!(toks[p], Tok::TPlus) || matches!(toks[p], Tok::TMinus))
        invariant
            toks_wf(toks@),
            acc.wf(),
            pos < p <= toks@.len(),
        decreases toks@.len() - p,
    {
        let op = if matches!(toks[p], Tok::TPlus) {
            BinOp::OpAdd
        } else {
            BinOp::OpSub
        };
        let (rhs, p2) = match parse_mul(toks, p + 1) {
            Some(q) => q,
            None => {
                return None;
            },
        };
        acc = Expr::Binary(op, Box::new(acc), Box::new(rhs));
        p = p2;
    }
    Some((acc, p))
}

/// Parse products.
fn parse_mul(toks: &Vec<Tok>, pos: usize) -> (r: Option<(Expr, usize)>)
    requires
        toks_wf(toks@),
        pos <= toks@.len(),
    ensures
        r matches Some(p) ==> p.0.wf() && pos < p.1 <= toks@.len(),
    decreases toks@.len() - pos, 2int,
{
    let (first, p1) = match parse_unary(toks, pos) {
        Some(p) => p,
        None => {
            return None;
        },
    };
    let mut acc = first;
    let mut p = p1;
    while p < toks.len() && matches!(toks[p], Tok::TStar)
        invariant
            toks_wf(toks@),
            acc.wf(),
            pos < p <= toks@.len(),
        decreases toks@.len() - p,
    {
        let (rhs, p2) = match parse_unary(toks, p + 1) {
            Some(q) => q,
            None => {
                return None;
            },
        };
        acc = Expr::Binary(BinOp::OpMul, Box::new(acc), Box::new(rhs));
        p = p2;
    }
    Some((acc, p))
}

/// Parse a (possibly negated) primary.
fn parse_unary(toks: &Vec<Tok>, pos: usize) -> (r: Option<(Expr, usize)>)
    requires
        toks_wf(toks@),
        pos <= toks@.len(),
    ensures
        r matches Some(p) ==> p.0.wf() && pos < p.1 <= toks@.len(),
    decreases toks@.len() - pos, 1int,
{
    if pos < toks.len() && matches!(toks[pos], Tok::TBang) {
        let (inner, p1) = match parse_unary(toks, pos + 1) {
            Some(p) => p,
            None => {
                return None;
            },
        };
        Some((Expr::Unary(UnOp::OpNot, Box::new(inner)), p1))
    } else if pos < toks.len() && matches!(toks[pos], Tok::TMinus) {
        let (inner, p1) = match parse_unary(toks, pos + 1) {
            Some(p) => p,
            None => {
                return None;
            },
        };
        Some((Expr::Unary(UnOp::OpNeg, Box::new(inner)), p1))
    } else {
        parse_primary(toks, pos)
    }
}

/// Parse a literal, a parameter reference, or a parenthesised expression.
fn parse_primary(toks: &Vec<Tok>, pos: usize) -> (r: Option<(Expr, usize)>)
    requires
        toks_wf(toks@),
        pos <= toks@.len(),
    ensures
        r matches Some(p) ==> p.0.wf() && pos < p.1 <= toks@.len(),
    decreases toks@.len() - pos, 0int,
{
    if pos >= toks.len() {
        return None;
    }
    match &toks[pos] {
        Tok::TNum(d) => {
            proof {
                assert(tok_wf(toks@[pos as int]));
            }
            Some((Expr::LitDec(*d), pos + 1))
        },
        Tok::TStr(s) => Some((Expr::LitStr(s.clone()), pos + 1)),
        Tok::TTrue => Some((Expr::LitBool(true), pos + 1)),
        Tok::TFalse => Some((Expr::LitBool(false), pos + 1)),
        Tok::TIdent(name) => {
            if toks.len() - pos > 2 && matches!(toks[pos + 1], Tok::TDot) {
                match &toks[pos + 2] {
                    Tok::TIdent(field) => {
                        if *name == String::from_str("params") {
                            Some((Expr::Var(field.clone()), pos + 3))
                        } else {
                            None
                        }
                    },
                    _ => None,
                }
            } else if toks.len() - pos > 1 && matches!(toks[pos + 1], Tok::TDot) {
                None
            } else {
                Some((Expr::Var(name.clone()), pos + 1))
            }
        },
        Tok::TLp => {
            let (inner, p1) = match parse_ternary(toks, pos + 1) {
                Some(p) => p,
                None => {
                    return None;
                },
            };
            if p1 < toks.len() && matches!(toks[p1], Tok::TRp) {
                Some((inner, p1 + 1))
            } else {
                None
            }
        },
        _ => None,
    }
}

/// Compile expression text.  Returns the compiled expression, whose decimal
/// literals are well-formed, or `None` where the text is not a sentence of
/// the grammar.
pub fn compile_expr(s: &String) -> (r: Option<Expr>)
    ensures
        r matches Some(e) ==> e.wf(),
        spec_is_atom(s@) ==> (r matches Some(e) && spec_atom_matches(s@, e)),
{
    match compile_atom(s) {
        Some(e) => {
            return Some(e);
        },
        None => {},
    }
    let cs = str_chars(s);
    let toks = match tokenize(&cs) {
        Some(t) => t,
        None => {
            return None;
        },
    };
    match parse_ternary(&toks, 0) {
        Some((e, p)) => {
            if p == toks.len() {
                Some(e)
            } else {
                None
            }
        },
        None => None,
    }
}

/// Is `c` an ASCII digit (spec form)?
pub open spec fn spec_digit(c: char) -> bool {
    '0' <= c && c <= '9'
}

/// Is `c` a character identifiers are made of (spec form)?
pub open spec fn spec_ident_char(c: char) -> bool {
    ('a' <= c && c <= 'z') || ('A' <= c && c <= 'Z') || ('0' <= c && c <= '9') || c == '_'
}

/// Every character of `s` is a digit.
pub open spec fn spec_all_digits(s: Seq<char>) -> bool {
    forall|i: int| 0 <= i < s.len() ==> spec_digit(#[trigger] s[i])
}

/// The value of a digit string, most significant first.
pub open spec fn spec_digits_val(s: Seq<char>) -> int
    decreases s.len(),
{
    if s.len() == 0 {
        0
    } else {
        spec_digits_val(s.drop_last()) * 10 + (s.last() as int - '0' as int)
    }
}

/// Is `s` the keyword `true`?
pub open spec fn spec_is_true(s: Seq<char>) -> bool {
    s.len() == 4 && s[0] == 't' && s[1] == 'r' && s[2] == 'u' && s[3] == 'e'
}

/// Is `s` the keyword `false`?
pub open spec fn spec_is_false(s: Seq<char>) -> bool {
    s.len() == 5 && s[0] == 'f' && s[1] == 'a' && s[2] == 'l' && s[3] == 's' && s[4] == 'e'
}

/// Is `s` a bare identifier (and not a keyword)?
pub open spec fn spec_is_ident(s: Seq<char>) -> bool {
    &&& s.len() >= 1
    &&& !spec_digit(s[0])
    &&& (forall|i: int| 0 <= i < s.len() ==> spec_ident_char(#[trigger] s[i]))
    &&& !spec_is_true(s)
    &&& !spec_is_false(s)
}

/// Is `s` a quoted string literal: quotes around text holding no quote?
pub open spec fn spec_is_quoted(s: Seq<char>) -> bool {
    &&& s.len() >= 2
    &&& s[0] == '\''
    &&& s[s.len() - 1] == '\''
    &&& (forall|i: int| 0 < i < s.len() - 1 ==> #[trigger] s[i] != '\'')
}

/// Is `s` a decimal numeral with its (single) point at `d`?  `d == len`
/// means no point.  At most twenty-eight digits in all.
pub open spec fn spec_is_numeral_at(s: Seq<char>, d: int) -> bool {
    if d == s.len() {
        1 <= s.len() <= 28 && spec_all_digits(s)
    } else {
        &&& 1 <= d < s.len() - 1
        &&& s[d] == '.'
        &&& spec_all_digits(s.subrange(0, d))
        &&& spec_all_digits(s.skip(d + 1))
        &&& s.len() - 1 <= 28
    }
}

/// Is `s` a decimal numeral?
pub open spec fn spec_is_numeral(s: Seq<char>) -> bool {
    exists|d: int| 0 <= d <= s.len() && #[trigger] spec_is_numeral_at(s, d)
}

/// The decimal a numeral with point position `d` denotes.
pub open spec fn spec_numeral_dec_at(s: Seq<char>, d: int) -> Dec {
    if d == s.len() {
        Dec { mantissa: spec_digits_val(s) as i128, scale: 0 }
    } else {
        Dec {
            mantissa: spec_digits_val(s.subrange(0, d) + s.skip(d + 1)) as i128,
            scale: (s.len() - d - 1) as u32,
        }
    }
}

/// Is `s` a parameter reference `params.x`?
pub open spec fn spec_is_params_ref(s: Seq<char>) -> bool {
    &&& s.len() > 7
    &&& s[0] == 'p' && s[1] == 'a' && s[2] == 'r' && s[3] == 'a' && s[4] == 'm' && s[5] == 's'
        && s[6] == '.'
    &&& spec_is_ident(s.skip(7))
}

/// Is `s` an atom of the expression grammar: a quoted string, a numeral,
/// a boolean keyword, a parameter reference, or a bare identifier?
pub open spec fn spec_is_atom(s: Seq<char>) -> bool {
    ||| spec_is_quoted(s)
    ||| spec_is_numeral(s)
    ||| spec_is_true(s)
    ||| spec_is_false(s)
    ||| spec_is_params_ref(s)
    ||| spec_is_ident(s)
}

/// What an atom compiles to: the literal it spells, or a reference to the
/// parameter it names.
pub open spec fn spec_atom_matches(s: Seq<char>, e: Expr) -> bool {
    if spec_is_quoted(s) {
        e matches Expr::LitStr(t) && t@ == s.subrange(1, s.len() - 1)
    } else if spec_is_numeral(s) {
        exists|d: int|
            0 <= d <= s.len() && #[trigger] spec_is_numeral_at(s, d) && e == Expr::LitDec(
                spec_numeral_dec_at(s, d),
            )
    } else if spec_is_true(s) {
        e == Expr::LitBool(true)
    } else if spec_is_false(s) {
        e == Expr::LitBool(false)
    } else if spec_is_params_ref(s) {
        e matches Expr::Var(n) && n@ == s.skip(7)
    } else {
        e matches Expr::Var(n) && n@ == s
    }
}

/// Is `s` an atom whose parameter reference, if any, is declared?
pub open spec fn spec_atom_ok(s: Seq<char>, declared: Seq<Seq<char>>) -> bool {
    spec_is_atom(s) && spec_atom_vars_ok(s, declared)
}

/// The parameter name an atom refers to is declared (vacuous for the
/// literal atoms).
pub open spec fn spec_atom_vars_ok(s: Seq<char>, declared: Seq<Seq<char>>) -> bool {
    if spec_is_quoted(s) || spec_is_numeral(s) || spec_is_true(s) || spec_is_false(s) {
        true
    } else if spec_is_params_ref(s) {
        declared.contains(s.skip(7))
    } else {
        declared.contains(s)
    }
}

/// A numeral starts with a digit.
proof fn lemma_numeral_first_digit(s: Seq<char>)
    requires
        spec_is_numeral(s),
    ensures
        s.len() >= 1 && spec_digit(s[0]),
{
    let d = choose|d: int| 0 <= d <= s.len() && #[trigger] spec_is_numeral_at(s, d);
    if d == s.len() {
        assert(spec_digit(s[0]));
    } else {
        assert(s.subrange(0, d)[0] == s[0]);
        assert(spec_digit(s.subrange(0, d)[0]));
    }
}

/// A string opening with a quote is no other kind of atom.
proof fn lemma_quote_start(s: Seq<char>)
    requires
        s.len() >= 1,
        s[0] == '\'',
    ensures
        !spec_is_numeral(s),
        !spec_is_true(s),
        !spec_is_false(s),
        !spec_is_params_ref(s),
        !spec_is_ident(s),
{
    if spec_is_numeral(s) {
        lemma_numeral_first_digit(s);
    }
}

/// A string opening with a digit is no other kind of atom.
proof fn lemma_digit_start(s: Seq<char>)
    requires
        s.len() >= 1,
        spec_digit(s[0]),
    ensures
        !spec_is_quoted(s),
        !spec_is_true(s),
        !spec_is_false(s),
        !spec_is_params_ref(s),
        !spec_is_ident(s),
{
}

/// A numeral's point position is forced: wherever the scanned prefix is
/// digits except a single known point, any admissible point agrees.
proof fn lemma_numeral_stuck(s: Seq<char>, i: int, dot: Option<int>, dc: int, bad: bool)
    requires
        0 <= i < s.len(),
        spec_digit(s[0]),
        (match dot {
            Some(d) => {
                &&& 1 <= d < i
                &&& d + 2 <= s.len()
                &&& s[d] == '.'
                &&& spec_all_digits(s.subrange(0, d))
                &&& spec_all_digits(s.subrange(d + 1, i))
                &&& dc == i - 1
            },
            None => {
                &&& spec_all_digits(s.subrange(0, i))
                &&& dc == i
            },
        }),
        // Either the scan stopped on an inadmissible character, or the
        // digit budget is spent on another digit.
        bad ==> !spec_digit(s[i]) && !(s[i] == '.' && dot is None && i >= 1 && i + 1 < s.len()),
        !bad ==> spec_digit(s[i]) && dc >= 28,
    ensures
        !spec_is_numeral(s),
{
    if spec_is_numeral(s) {
        let d = choose|d: int| 0 <= d <= s.len() && #[trigger] spec_is_numeral_at(s, d);
        match dot {
            Some(dd) => {
                // The admissible point can only be the scanned one.
                if d < dd {
                    assert(s.subrange(0, dd)[d] == s[d]);
                    assert(spec_digit(s.subrange(0, dd)[d]));
                } else if d > dd && d < s.len() {
                    assert(s.subrange(0, d)[dd] == s[dd]);
                    assert(spec_digit(s.subrange(0, d)[dd]));
                } else if d == s.len() {
                    assert(spec_digit(s[dd]));
                }
                assert(d == dd);
                if bad {
                    assert(i >= dd + 1);
                    assert(s.skip(dd + 1)[i - dd - 1] == s[i]);
                    assert(spec_digit(s.skip(dd + 1)[i - dd - 1]));
                } else {
                    // Twenty-nine digits at least: over the budget.
                    assert(s.len() - 1 > 28) by {
                        assert(s.len() >= i + 1);
                        assert(i - 1 >= 28);
                    }
                }
            },
            None => {
                if bad {
                    if d == s.len() {
                        assert(spec_digit(s[i]));
                    } else if d < i {
                        assert(s.subrange(0, i)[d] == s[d]);
                        assert(spec_digit(s.subrange(0, i)[d]));
                    } else if d > i {
                        assert(s.subrange(0, d)[i] == s[i]);
                        assert(spec_digit(s.subrange(0, d)[i]));
                    } else {
                        // d == i: the point here was inadmissible.
                        assert(s[i] == '.');
                        assert(i >= 1);
                        assert(i + 1 < s.len());
                    }
                } else {
                    // Twenty-nine digits at least before any point.
                    if d == s.len() {
                        assert(s.len() >= i + 1 && i >= 28);
                    } else if d <= i {
                        assert(d < i || spec_digit(s[d]) == spec_digit(s[i]));
                        if d < i {
                            assert(s.subrange(0, i)[d] == s[d]);
                            assert(spec_digit(s.subrange(0, i)[d]));
                        } else {
                            assert(spec_digit(s[i]));
                        }
                    } else {
                        assert(s.len() - 1 >= d && d >= i + 1 && i >= 28);
                    }
                }
            },
        }
    }
}

/// Compile an atom of the grammar, exactly: succeeds if and only if the
/// text is an atom, and then yields the expression the atom spells.
fn compile_atom(s: &String) -> (r: Option<Expr>)
    ensures
        r is Some <==> spec_is_atom(s@),
        r matches Some(e) ==> spec_atom_matches(s@, e) && e.wf(),
{
    let cs = str_chars(s);
    let n = cs.len();
    if n == 0 {
        return None;
    }
    let c0 = cs[0];
    if c0 == '\'' {
        // Quoted string literal.
        proof {
            lemma_quote_start(s@);
        }
        if n < 2 || cs[n - 1] != '\'' {
            return None;
        }
        let mut content = String::new();
        let mut i: usize = 1;
        while i < n - 1
            invariant
                1 <= i <= n - 1,
                n == cs@.len(),
                n >= 2,
                cs@ == s@,
                s@[0] == '\'',
                content@ == s@.subrange(1, i as int),
                forall|j: int| 0 < j < i ==> #[trigger] s@[j] != '\'',
            decreases n - 1 - i,
        {
            if cs[i] == '\'' {
                proof {
                    lemma_quote_start(s@);
                    assert(!spec_is_quoted(s@));
                }
                return None;
            }
            push_char(&mut content, cs[i]);
            proof {
                assert(content@ =~= s@.subrange(1, i + 1 as int));
            }
            i = i + 1;
        }
        proof {
            assert(spec_is_quoted(s@));
        }
        Some(Expr::LitStr(content))
    } else if '0' <= c0 && c0 <= '9' {
        // Decimal numeral, with at most one point.
        let mut m: i128 = 0;
        let mut dc: u32 = 0;
        let mut dot: Option<usize> = None;
        let ghost mut digits: Seq<char> = Seq::empty();
        let mut i: usize = 0;
        proof {
            lemma_pow10_28_lt_limit();
            vstd::arithmetic::power::lemma_pow0(10);
        }
        while i < n
            invariant
                0 <= i <= n,
                n == cs@.len(),
                n >= 1,
                cs@ == s@,
                spec_digit(s@[0]),
                0 <= dc <= 28,
                digits.len() == dc,
                0 <= m < pow(10, dc as nat),
                m < pow(10, 28),
                m == spec_digits_val(digits),
                pow(10, 28) < crate::decimal::MANTISSA_LIMIT,
                (match dot {
                    Some(d) => {
                        &&& 1 <= d < i
                        &&& d + 2 <= n
                        &&& s@[d as int] == '.'
                        &&& spec_all_digits(s@.subrange(0, d as int))
                        &&& spec_all_digits(s@.subrange(d + 1, i as int))
                        &&& digits =~= s@.subrange(0, d as int) + s@.subrange(d + 1, i as int)
                        &&& dc == i - 1
                    },
                    None => {
                        &&& spec_all_digits(s@.subrange(0, i as int))
                        &&& digits =~= s@.subrange(0, i as int)
                        &&& dc == i
                    },
                }),
            decreases n - i,
        {
            let c = cs[i];
            if '0' <= c && c <= '9' {
                if dc >= 28 {
                    proof {
                        let gdot: Option<int> = match dot {
                            Some(d) => Some(d as int),
                            None => None,
                        };
                        lemma_numeral_stuck(s@, i as int, gdot, dc as int, false);
                        lemma_digit_start(s@);
                    }
                    return None;
                }
                proof {
                    lemma_pow1(10);
                    lemma_pow_adds(10, dc as nat, 1);
                    lemma_pow_increases(10, (dc + 1) as nat, 28);
                }
                let d: i128 = (c as u32 - 48) as i128;
                m = m * 10 + d;
                dc = dc + 1;
                proof {
                    let ghost before = digits;
                    digits = digits.push(c);
                    assert(digits.drop_last() =~= before);
                    assert(digits.last() == c);
                    assert(m == spec_digits_val(digits));
                    match dot {
                        Some(dd) => {
                            assert(digits =~= s@.subrange(0, dd as int) + s@.subrange(
                                dd + 1,
                                i + 1 as int,
                            ));
                        },
                        None => {
                            assert(digits =~= s@.subrange(0, i + 1 as int));
                        },
                    }
                }
            } else if c == '.' && dot.is_none() && i >= 1 && i + 1 < n {
                dot = Some(i);
                proof {
                    match dot {
                        Some(dd) => {
                            assert(s@.subrange(dd + 1, i + 1 as int).len() == 0);
                            assert(digits =~= s@.subrange(0, dd as int) + s@.subrange(
                                dd + 1,
                                i + 1 as int,
                            ));
                        },
                        None => {},
                    }
                }
            } else {
                proof {
                    let gdot: Option<int> = match dot {
                        Some(d) => Some(d as int),
                        None => None,
                    };
                    lemma_numeral_stuck(s@, i as int, gdot, dc as int, true);
                    lemma_digit_start(s@);
                }
                return None;
            }
            i = i + 1;
        }
        let scale: u32 = match dot {
            Some(d) => (n - 1 - d) as u32,
            None => 0,
        };
        let e = Expr::LitDec(Dec { mantissa: m, scale });
        proof {
            let d_spec: int = match dot {
                Some(d) => d as int,
                None => s@.len() as int,
            };
            match dot {
                Some(d) => {
                    assert(s@.subrange(d + 1, n as int) =~= s@.skip(d + 1));
                    assert(spec_is_numeral_at(s@, d as int));
                },
                None => {
                    assert(s@.subrange(0, n as int) =~= s@);
                    assert(spec_is_numeral_at(s@, s@.len() as int));
                },
            }
            lemma_pow_increases(10, dc as nat, 28);
            assert(spec_is_numeral(s@));
            assert(!spec_is_quoted(s@));
            assert(m == spec_digits_val(digits));
            assert(spec_atom_matches(s@, e)) by {
                assert(spec_is_numeral_at(s@, d_spec) && e == Expr::LitDec(
                    spec_numeral_dec_at(s@, d_spec),
                ));
            }
        }
        Some(e)
    } else if (('a' <= c0 && c0 <= 'z') || ('A' <= c0 && c0 <= 'Z') || c0 == '_') {
        // A keyword, a parameter reference, or a bare identifier.
        let mut i: usize = 0;
        while i < n && (('a' <= cs[i] && cs[i] <= 'z') || ('A' <= cs[i] && cs[i] <= 'Z') || ('0'
            <= cs[i] && cs[i] <= '9') || cs[i] == '_')
            invariant
                0 <= i <= n,
                n == cs@.len(),
                cs@ == s@,
                forall|j: int| 0 <= j < i ==> spec_ident_char(#[trigger] s@[j]),
            decreases n - i,
        {
            i = i + 1;
        }
        if i == n {
            // One run of identifier characters.
            if *s == String::from_str("true") {
                proof {
                    reveal_strlit("true");
                    assert(spec_is_true(s@));
                    if spec_is_numeral(s@) {
                        lemma_numeral_first_digit(s@);
                    }
                    assert(!spec_is_quoted(s@) && !spec_is_numeral(s@)) by {
                        assert(s@[0] == 't');
                    }
                }
                Some(Expr::LitBool(true))
            } else if *s == String::from_str("false") {
                proof {
                    reveal_strlit("false");
                    assert(spec_is_false(s@));
                    if spec_is_numeral(s@) {
                        lemma_numeral_first_digit(s@);
                    }
                    assert(!spec_is_quoted(s@) && !spec_is_numeral(s@) && !spec_is_true(s@)) by {
                        assert(s@[0] == 'f');
                    }
                }
                Some(Expr::LitBool(false))
            } else {
                proof {
                    reveal_strlit("true");
                    reveal_strlit("false");
                    if spec_is_true(s@) {
                        assert(s@ =~= "true"@);
                    }
                    if spec_is_false(s@) {
                        assert(s@ =~= "false"@);
                    }
                    assert(spec_is_ident(s@));
                    if spec_is_numeral(s@) {
                        lemma_numeral_first_digit(s@);
                    }
                    assert(!spec_is_quoted(s@) && !spec_is_numeral(s@));
                    assert(!spec_is_params_ref(s@)) by {
                        if spec_is_params_ref(s@) {
                            assert(spec_ident_char(s@[6]));
                            assert(s@[6] == '.');
                        }
                    }
                }
                Some(Expr::Var(s.clone()))
            }
        } else if i == 6 && n > 7 && cs[0] == 'p' && cs[1] == 'a' && cs[2] == 'r' && cs[3] == 'a'
            && cs[4] == 'm' && cs[5] == 's' && cs[6] == '.' {
            // A `params.` reference: the rest must be a bare identifier.
            let mut rest = String::new();
            let mut j: usize = 7;
            while j < n
                invariant
                    7 <= j <= n,
                    n == cs@.len(),
                    cs@ == s@,
                    rest@ == s@.subrange(7, j as int),
                decreases n - j,
            {
                push_char(&mut rest, cs[j]);
                proof {
                    assert(rest@ =~= s@.subrange(7, j + 1 as int));
                }
                j = j + 1;
            }
            proof {
                assert(rest@ =~= s@.skip(7));
            }
            if rest_is_ident(&rest) {
                proof {
                    assert(spec_is_params_ref(s@));
                    if spec_is_numeral(s@) {
                        lemma_numeral_first_digit(s@);
                    }
                    assert(!spec_is_quoted(s@) && !spec_is_numeral(s@) && !spec_is_true(s@)
                        && !spec_is_false(s@)) by {
                        assert(s@[0] == 'p' && !spec_digit(s@[0]));
                    }
                }
                Some(Expr::Var(rest))
            } else {
                proof {
                    lemma_non_atom(s@, i as int);
                }
                None
            }
        } else {
            proof {
                lemma_non_atom(s@, i as int);
            }
            None
        }
    } else {
        proof {
            if spec_is_numeral(s@) {
                lemma_numeral_first_digit(s@);
            }
            assert(!spec_is_atom(s@)) by {
                assert(!spec_digit(s@[0]) && s@[0] != '\'' && !spec_ident_char(s@[0]));
            }
        }
        None
    }
}

/// Is the whole string a bare identifier?
fn rest_is_ident(s: &String) -> (r: bool)
    ensures
        r == spec_is_ident(s@),
{
    let n = s.as_str().unicode_len();
    if n == 0 {
        return false;
    }
    let c0 = s.as_str().get_char(0);
    if '0' <= c0 && c0 <= '9' {
        return false;
    }
    let mut i: usize = 0;
    while i < n
        invariant
            0 <= i <= n,
            n == s@.len(),
            forall|j: int| 0 <= j < i ==> spec_ident_char(#[trigger] s@[j]),
        decreases n - i,
    {
        let c = s.as_str().get_char(i);
        if !(('a' <= c && c <= 'z') || ('A' <= c && c <= 'Z') || ('0' <= c && c <= '9') || c
            == '_') {
            return false;
        }
        i = i + 1;
    }
    proof {
        reveal_strlit("true");
        reveal_strlit("false");
    }
    if *s == String::from_str("true") {
        false
    } else if *s == String::from_str("false") {
        false
    } else {
        proof {
            reveal_strlit("true");
            reveal_strlit("false");
            if spec_is_true(s@) {
                assert(s@ =~= "true"@);
            }
            if spec_is_false(s@) {
                assert(s@ =~= "false"@);
            }
            assert(spec_is_ident(s@));
        }
        true
    }
}

/// A string whose identifier run stops before its end, other than at a
/// `params.` reference, is no atom.
proof fn lemma_non_atom(s: Seq<char>, i: int)
    requires
        s.len() >= 1,
        spec_ident_char(s[0]),
        !spec_digit(s[0]),
        0 <= i < s.len(),
        !spec_ident_char(s[i]),
        forall|j: int| 0 <= j < i ==> spec_ident_char(#[trigger] s[j]),
        !(spec_is_params_ref(s) && i == 6 && s[6] == '.'),
    ensures
        !spec_is_quoted(s),
        !spec_is_numeral(s),
        !spec_is_true(s),
        !spec_is_false(s),
        !spec_is_params_ref(s),
        !spec_is_ident(s),
{
    assert(s[0] != '\'');
    if spec_is_numeral(s) {
        lemma_numeral_first_digit(s);
    }
    if spec_is_true(s) {
        assert(spec_ident_char(s[i])) by {
            if i == 0 {
                assert(s[0] == 't');
            } else if i == 1 {
                assert(s[1] == 'r');
            } else if i == 2 {
                assert(s[2] == 'u');
            } else {
                assert(s[3] == 'e');
            }
        }
    }
    if spec_is_false(s) {
        assert(spec_ident_char(s[i])) by {
            if i == 0 {
                assert(s[0] == 'f');
            } else if i == 1 {
                assert(s[1] == 'a');
            } else if i == 2 {
                assert(s[2] == 'l');
            } else if i == 3 {
                assert(s[3] == 's');
            } else {
                assert(s[4] == 'e');
            }
        }
    }
    if spec_is_ident(s) {
        assert(spec_ident_char(s[i]));
    }
    if spec_is_params_ref(s) {
        // The identifier run stops exactly at the dot.
        assert(s[6] == '.');
        assert(!spec_ident_char(s[6]));
        if i < 6 {
            assert(spec_ident_char(s[i as int])) by {
                if i == 0 {
                    assert(s[0] == 'p');
                } else if i == 1 {
                    assert(s[1] == 'a');
                } else if i == 2 {
                    assert(s[2] == 'r');
                } else if i == 3 {
                    assert(s[3] == 'a');
                } else if i == 4 {
                    assert(s[4] == 'm');
                } else {
                    assert(s[5] == 's');
                }
            }
        } else if i > 6 {
            assert(forall|j: int| 0 <= j < i ==> spec_ident_char(#[trigger] s[j]));
            assert(spec_ident_char(s[6]));
        }
        assert(i == 6);
        assert(false);
    }
}

} // verus!
