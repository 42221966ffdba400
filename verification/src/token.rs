//! Lexing: a line is split into whitespace-delimited tokens, and each token
//! is classified into a closed set of kinds. Classification is total and
//! order-sensitive: operator and keyword literals are matched first; failing
//! that, a token that parses as a binary64 literal is a number; failing that,
//! a token whose characters are all alphanumeric is an identifier; anything
//! else is invalid.
use vstd::prelude::*;
use vstd::string::StrSliceExecFns;

use crate::num::parse_bits;
use crate::num::parse_num;

verus! {

/// Whether a character is alphanumeric (Unicode), as `char::is_alphanumeric`
/// decides it.
pub uninterp spec fn alnum(c: char) -> bool;

/// Relies on char::is_alphanumeric: a pure function of the character alone.
#[verifier::external_body]
pub(crate) fn is_alnum_char(c: char) -> (r: bool)
    ensures
        r == alnum(c),
{
    c.is_alphanumeric()
}

/// The whitespace characters that separate tokens.
pub open spec fn is_space(c: char) -> bool {
    c == ' ' || c == '\t' || c == '\n' || c == '\r' || c == '\u{b}' || c == '\u{c}'
}

pub(crate) fn is_space_char(c: char) -> (r: bool)
    ensures
        r == is_space(c),
{
    c == ' ' || c == '\t' || c == '\n' || c == '\r' || c == '\u{b}' || c == '\u{c}'
}

/// The four binary operators.
#[derive(Clone, Copy, PartialEq, Eq, Structural, Debug)]
pub enum BinKind {
    Plus,
    Minus,
    Times,
    Slash,
}

/// The seven stack and session keywords.
#[derive(Clone, Copy, PartialEq, Eq, Structural, Debug)]
pub enum KeyKind {
    Clear,
    Reset,
    Exit,
    Print,
    Dup,
    Drop,
    Swap,
}

/// The two fold operators.
#[derive(Clone, Copy, PartialEq, Eq, Structural, Debug)]
pub enum FoldKind {
    Sum,
    Prod,
}

/// A classified token.
#[derive(Debug, PartialEq, Eq)]
pub enum Tok {
    /// A numeric literal, as its binary64 bit pattern.
    Num(u64),
    /// A variable name.
    Var(Vec<char>),
    Bin(BinKind),
    Assign,
    Key(KeyKind),
    Fold(FoldKind),
    Invalid,
}

/// The specification-level image of a token.
pub enum TokV {
    Num(u64),
    Var(Seq<char>),
    Bin(BinKind),
    Assign,
    Key(KeyKind),
    Fold(FoldKind),
    Invalid,
}

impl View for Tok {
    type V = TokV;

    open spec fn view(&self) -> TokV {
        match self {
            Tok::Num(b) => TokV::Num(*b),
            Tok::Var(n) => TokV::Var(n@),
            Tok::Bin(op) => TokV::Bin(*op),
            Tok::Assign => TokV::Assign,
            Tok::Key(k) => TokV::Key(*k),
            Tok::Fold(f) => TokV::Fold(*f),
            Tok::Invalid => TokV::Invalid,
        }
    }
}

/// An identifier: non-empty would be guaranteed by splitting; classification
/// itself only asks that every character is alphanumeric.
pub open spec fn is_ident(s: Seq<char>) -> bool {
    forall|i: int| 0 <= i < s.len() ==> alnum(s[i])
}

/// Total classification of one token, in match order: operator and keyword
/// literals first, then numeric literals, then identifiers, else invalid.
pub open spec fn spec_classify(s: Seq<char>) -> TokV {
    if s == "+"@ {
        TokV::Bin(BinKind::Plus)
    } else if s == "-"@ {
        TokV::Bin(BinKind::Minus)
    } else if s == "*"@ {
        TokV::Bin(BinKind::Times)
    } else if s == "/"@ {
        TokV::Bin(BinKind::Slash)
    } else if s == "="@ {
        TokV::Assign
    } else if s == "clear"@ {
        TokV::Key(KeyKind::Clear)
    } else if s == "reset"@ {
        TokV::Key(KeyKind::Reset)
    } else if s == "exit"@ {
        TokV::Key(KeyKind::Exit)
    } else if s == "print"@ {
        TokV::Key(KeyKind::Print)
    } else if s == "dup"@ {
        TokV::Key(KeyKind::Dup)
    } else if s == "drop"@ {
        TokV::Key(KeyKind::Drop)
    } else if s == "swap"@ {
        TokV::Key(KeyKind::Swap)
    } else if s == "sum"@ {
        TokV::Fold(FoldKind::Sum)
    } else if s == "prod"@ {
        TokV::Fold(FoldKind::Prod)
    } else if parse_bits(s) is Some {
        TokV::Num(parse_bits(s)->Some_0)
    } else if is_ident(s) {
        TokV::Var(s)
    } else {
        TokV::Invalid
    }
}

/// Copies a character vector.
pub(crate) fn copy_chars(v: &Vec<char>) -> (r: Vec<char>)
    ensures
        r@ == v@,
{
    let mut r: Vec<char> = Vec::new();
    let mut i: usize = 0;
    while i < v.len()
        invariant
            i <= v.len(),
            r@ == v@.take(i as int),
        decreases v.len() - i,
    {
        r.push(v[i]);
        proof {
            assert(r@ =~= v@.take(i + 1 as int));
        }
        i = i + 1;
    }
    proof {
        assert(v@.take(v@.len() as int) =~= v@);
    }
    r
}

/// Compares two character vectors.
pub(crate) fn chars_eq(a: &Vec<char>, b: &Vec<char>) -> (r: bool)
    ensures
        r == (a@ == b@),
{
    if a.len() != b.len() {
        proof {
            assert(a@.len() != b@.len());
        }
        return false;
    }
    let mut i: usize = 0;
    while i < a.len()
        invariant
            i <= a@.len(),
            a@.len() == b@.len(),
            forall|j: int| 0 <= j < i ==> a@[j] == b@[j],
        decreases a@.len() - i,
    {
        if a[i] != b[i] {
            return false;
        }
        i = i + 1;
    }
    proof {
        assert(a@ =~= b@);
    }
    true
}

/// Compares a token with a literal, character by character.
fn tok_eq_str(t: &Vec<char>, w: &str) -> (r: bool)
    ensures
        r == (t@ == w@),
{
    let n = w.unicode_len();
    if t.len() != n {
        proof {
            assert(t@.len() != w@.len());
        }
        return false;
    }
    let mut i: usize = 0;
    while i < n
        invariant
            i <= n,
            n == t@.len() == w@.len(),
            forall|j: int| 0 <= j < i ==> t@[j] == w@[j],
        decreases n - i,
    {
        if t[i] != w.get_char(i) {
            return false;
        }
        i = i + 1;
    }
    proof {
        assert(t@ =~= w@);
    }
    true
}

/// Classifies one token.
pub fn classify(t: &Vec<char>) -> (k: Tok)
    ensures
        k@ == spec_classify(t@),
{
    if tok_eq_str(t, "+") {
        Tok::Bin(BinKind::Plus)
    } else if tok_eq_str(t, "-") {
        Tok::Bin(BinKind::Minus)
    } else if tok_eq_str(t, "*") {
        Tok::Bin(BinKind::Times)
    } else if tok_eq_str(t, "/") {
        Tok::Bin(BinKind::Slash)
    } else if tok_eq_str(t, "=") {
        Tok::Assign
    } else if tok_eq_str(t, "clear") {
        Tok::Key(KeyKind::Clear)
    } else if tok_eq_str(t, "reset") {
        Tok::Key(KeyKind::Reset)
    } else if tok_eq_str(t, "exit") {
        Tok::Key(KeyKind::Exit)
    } else if tok_eq_str(t, "print") {
        Tok::Key(KeyKind::Print)
    } else if tok_eq_str(t, "dup") {
        Tok::Key(KeyKind::Dup)
    } else if tok_eq_str(t, "drop") {
        Tok::Key(KeyKind::Drop)
    } else if tok_eq_str(t, "swap") {
        Tok::Key(KeyKind::Swap)
    } else if tok_eq_str(t, "sum") {
        Tok::Fold(FoldKind::Sum)
    } else if tok_eq_str(t, "prod") {
        Tok::Fold(FoldKind::Prod)
    } else {
        match parse_num(t) {
            Some(b) => Tok::Num(b),
            None => {
                let mut i: usize = 0;
                let mut ok = true;
                while i < t.len()
                    invariant
                        i <= t.len(),
                        ok == (forall|j: int| 0 <= j < i ==> alnum(t@[j])),
                    decreases t.len() - i,
                {
                    if !is_alnum_char(t[i]) {
                        ok = false;
                    }
                    i = i + 1;
                }
                if ok {
                    Tok::Var(copy_chars(t))
                } else {
                    Tok::Invalid
                }
            },
        }
    }
}

/// Splitting a line into whitespace-delimited tokens: `cur` is the partial
/// token gathered so far, `i` the position reached in the line.
pub open spec fn split_from(s: Seq<char>, i: int, cur: Seq<char>) -> Seq<Seq<char>>
    decreases s.len() - i,
{
    if i < 0 || i >= s.len() {
        if cur.len() == 0 {
            seq![]
        } else {
            seq![cur]
        }
    } else if is_space(s[i]) {
        if cur.len() == 0 {
            split_from(s, i + 1, seq![])
        } else {
            seq![cur] + split_from(s, i + 1, seq![])
        }
    } else {
        split_from(s, i + 1, cur.push(s[i]))
    }
}

/// The whitespace-delimited tokens of a line, in order.
pub open spec fn spec_split(s: Seq<char>) -> Seq<Seq<char>> {
    split_from(s, 0, seq![])
}

/// Splits a line into its whitespace-delimited tokens.
pub fn split_line(line: &Vec<char>) -> (toks: Vec<Vec<char>>)
    ensures
        toks.deep_view() == spec_split(line@),
{
    let mut toks: Vec<Vec<char>> = Vec::new();
    let mut cur: Vec<char> = Vec::new();
    let mut i: usize = 0;
    while i < line.len()
        invariant
            i <= line.len(),
            toks.deep_view() + split_from(line@, i as int, cur@) == spec_split(line@),
        decreases line.len() - i,
    {
        let c = line[i];
        proof {
            assert(split_from(line@, i as int, cur@) == if is_space(line@[i as int]) {
                if cur@.len() == 0 {
                    split_from(line@, i + 1, seq![])
                } else {
                    seq![cur@] + split_from(line@, i + 1, seq![])
                }
            } else {
                split_from(line@, i + 1, cur@.push(line@[i as int]))
            });
        }
        if is_space_char(c) {
            if cur.len() > 0 {
                let ghost old_toks = toks.deep_view();
                let ghost cur_v = cur@;
                toks.push(cur);
                cur = Vec::new();
                proof {
                    assert(cur@ =~= Seq::<char>::empty());
                    assert(toks.deep_view() =~~= old_toks.push(cur_v));
                    assert(old_toks.push(cur_v) + split_from(line@, i + 1, seq![]) =~~= old_toks + (
                    seq![cur_v] + split_from(line@, i + 1, seq![])));
                }
            } else {
                proof {
                    assert(cur@ =~= Seq::<char>::empty());
                }
            }
        } else {
            cur.push(c);
        }
        i = i + 1;
    }
    if cur.len() > 0 {
        let ghost old_toks = toks.deep_view();
        let ghost cur_v = cur@;
        toks.push(cur);
        proof {
            assert(toks.deep_view() =~~= old_toks.push(cur_v));
            assert(old_toks.push(cur_v) =~~= old_toks + seq![cur_v]);
        }
    } else {
        proof {
            assert(toks.deep_view() + split_from(line@, line@.len() as int, cur@)
                =~= toks.deep_view());
        }
    }
    toks
}

/// The characters of a string slice.
pub fn chars_of(s: &str) -> (v: Vec<char>)
    ensures
        v@ == s@,
{
    let n = s.unicode_len();
    let mut v: Vec<char> = Vec::new();
    let mut i: usize = 0;
    while i < n
        invariant
            i <= n,
            n == s@.len(),
            v@ == s@.take(i as int),
        decreases n - i,
    {
        let c = s.get_char(i);
        v.push(c);
        proof {
            assert(v@ =~= s@.take(i + 1 as int));
        }
        i = i + 1;
    }
    proof {
        assert(s@.take(s@.len() as int) =~= s@);
    }
    v
}

} // verus!
