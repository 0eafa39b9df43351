use vstd::prelude::*;
use crate::value::{Datum, ScmValue};
use vstd::std_specs::iter::IteratorSpec;

verus! {

/// Relies on `String::push`: appends one character to the string.
pub assume_specification[ std::string::String::push ](s: &mut std::string::String, ch: char)
    ensures
        final(s)@ == old(s)@.push(ch),
;

/// A token of the source text.
#[derive(Debug)]
pub enum Token {
    Identifier(String),
    Value(ScmValue),
    OpenParen,
    ClosingParen,
    EndOfInput,
}

/// The mathematical model of a token.
pub enum TokenModel {
    Identifier(Seq<char>),
    Value(Datum),
    OpenParen,
    ClosingParen,
    EndOfInput,
}

impl View for Token {
    type V = TokenModel;

    open spec fn view(&self) -> TokenModel {
        match self {
            Token::Identifier(s) => TokenModel::Identifier(s@),
            Token::Value(v) => TokenModel::Value(v@),
            Token::OpenParen => TokenModel::OpenParen,
            Token::ClosingParen => TokenModel::ClosingParen,
            Token::EndOfInput => TokenModel::EndOfInput,
        }
    }
}

pub open spec fn tokens_model(ts: Seq<Token>) -> Seq<TokenModel> {
    Seq::new(ts.len(), |i: int| ts[i]@)
}

/// A place in the source text, both counted from 1.
#[derive(Debug)]
pub struct Position {
    pub line: usize,
    pub row: usize,
}

pub open spec fn is_digit(c: char) -> bool {
    '0' <= c && c <= '9'
}

pub open spec fn is_forbidden(c: char) -> bool {
    c == '[' || c == ']' || c == '{' || c == '}' || c == '|' || c == '\\'
}

/// Characters that end an identifier.
pub open spec fn ends_identifier(c: char) -> bool {
    c == ' ' || c == '(' || c == ')' || c == '\n' || is_forbidden(c)
}

/// The end of the run of digits that starts at `i`.
pub open spec fn digits_end(cs: Seq<char>, i: int) -> int
    decreases cs.len() - i,
{
    if 0 <= i < cs.len() && is_digit(cs[i]) {
        digits_end(cs, i + 1)
    } else {
        i
    }
}

/// The end of the identifier that starts at `i`.
pub open spec fn ident_end(cs: Seq<char>, i: int) -> int
    decreases cs.len() - i,
{
    if 0 <= i < cs.len() && !ends_identifier(cs[i]) {
        ident_end(cs, i + 1)
    } else {
        i
    }
}

/// The position of the first double quote or forbidden character at or after `i`, or the
/// end of the text.
pub open spec fn quote_end(cs: Seq<char>, i: int) -> int
    decreases cs.len() - i,
{
    if 0 <= i < cs.len() && cs[i] != '"' && !is_forbidden(cs[i]) {
        quote_end(cs, i + 1)
    } else {
        i
    }
}

pub open spec fn digit_value(c: char) -> int {
    c as int - '0' as int
}

/// The number written by the decimal digits `cs[i..j]`.
pub open spec fn decimal(cs: Seq<char>, i: int, j: int) -> int
    decreases j - i,
{
    if j <= i {
        0
    } else {
        decimal(cs, i, j - 1) * 10 + digit_value(cs[j - 1])
    }
}

/// What follows a literal that ends at `j`: `Some((close, next))` where `close` says
/// that a closing parenthesis is consumed and `next` is where lexing goes on;
/// `None` when the next character may not follow a literal.
pub open spec fn delimiter(cs: Seq<char>, j: int) -> Option<(bool, int)> {
    if j >= cs.len() {
        Some((false, j))
    } else if cs[j] == ')' {
        Some((true, j + 1))
    } else if cs[j] == ' ' || cs[j] == '\n' {
        Some((false, j))
    } else {
        None
    }
}

pub open spec fn prepend(p: Seq<TokenModel>, r: Result<Seq<TokenModel>, int>) -> Result<Seq<TokenModel>, int> {
    match r {
        Ok(rest) => Ok(p + rest),
        Err(e) => Err(e),
    }
}

pub proof fn lemma_scan_bounds(cs: Seq<char>, i: int)
    requires
        0 <= i <= cs.len(),
    ensures
        i <= digits_end(cs, i) <= cs.len(),
        i <= ident_end(cs, i) <= cs.len(),
        i <= quote_end(cs, i) <= cs.len(),
    decreases cs.len() - i,
{
    if i < cs.len() {
        lemma_scan_bounds(cs, i + 1);
    }
}

/// The literal token that starts at `i` and where it ends, or the index of the offending
/// character. `cs[i]` is not whitespace, a parenthesis or a forbidden character.
pub open spec fn literal_at(cs: Seq<char>, i: int) -> Result<(TokenModel, int), int> {
    let c = cs[i];
    if c == '#' {
        if i + 1 < cs.len() && cs[i + 1] == '\'' {
            if i + 2 < cs.len() && 'a' <= cs[i + 2] && cs[i + 2] <= 'z' {
                Ok((TokenModel::Value(Datum::Char(cs[i + 2])), i + 3))
            } else {
                Err(i)
            }
        } else if i + 1 < cs.len() && cs[i + 1] == 't' {
            Ok((TokenModel::Value(Datum::Bool(true)), i + 2))
        } else if i + 1 < cs.len() && cs[i + 1] == 'f' {
            Ok((TokenModel::Value(Datum::Bool(false)), i + 2))
        } else {
            Err(i)
        }
    } else if is_digit(c) {
        let j = digits_end(cs, i);
        let n = decimal(cs, i, j);
        if n <= i64::MAX {
            Ok((TokenModel::Value(Datum::Integer(n as i64)), j))
        } else {
            Err(i)
        }
    } else if c == '"' {
        let k = quote_end(cs, i + 1);
        if k < cs.len() && is_forbidden(cs[k]) {
            Err(k)
        } else {
            let next = if k < cs.len() { k + 1 } else { k };
            Ok((TokenModel::Value(Datum::Str(cs.subrange(i + 1, k))), next))
        }
    } else {
        let j = ident_end(cs, i);
        Ok((TokenModel::Identifier(cs.subrange(i, j)), j))
    }
}

/// The tokens of `cs[i..]`, or the index of the offending character.
pub open spec fn lex_from(cs: Seq<char>, i: int) -> Result<Seq<TokenModel>, int>
    decreases cs.len() - i,
{
    if i < 0 || i >= cs.len() {
        Ok(Seq::empty())
    } else {
        let c = cs[i];
        if c == ' ' || c == '\n' {
            lex_from(cs, i + 1)
        } else if c == '(' {
            prepend(seq![TokenModel::OpenParen], lex_from(cs, i + 1))
        } else if c == ')' {
            prepend(seq![TokenModel::ClosingParen], lex_from(cs, i + 1))
        } else if is_forbidden(c) {
            Err(i)
        } else {
            let lit = literal_at(cs, i);
            match lit {
                Err(e) => Err(e),
                Ok((tok, j)) => if i < j <= cs.len() {
                    match delimiter(cs, j) {
                        None => Err(j),
                        Some((close, next)) => prepend(
                            if close {
                                seq![tok, TokenModel::ClosingParen]
                            } else {
                                seq![tok]
                            },
                            lex_from(cs, next),
                        ),
                    }
                } else {
                    Err(i)
                },
            }
        }
    }
}

/// The tokens of the whole text, ended by `EndOfInput`, or the index of the offending character.
pub open spec fn lex_spec(cs: Seq<char>) -> Result<Seq<TokenModel>, int> {
    match lex_from(cs, 0) {
        Ok(ts) => Ok(ts.push(TokenModel::EndOfInput)),
        Err(e) => Err(e),
    }
}

/// Line and row of the character at index `i`.
pub open spec fn position_of(cs: Seq<char>, i: int) -> (int, int)
    decreases i,
{
    if i <= 0 {
        (1, 1)
    } else {
        let (l, r) = position_of(cs, i - 1);
        if cs[i - 1] == '\n' {
            (l + 1, 1)
        } else {
            (l, r + 1)
        }
    }
}

proof fn lemma_position_bounds(cs: Seq<char>, i: int)
    requires
        0 <= i,
    ensures
        1 <= position_of(cs, i).0 <= i + 1,
        1 <= position_of(cs, i).1 <= i + 1,
    decreases i,
{
    if i > 0 {
        lemma_position_bounds(cs, i - 1);
    }
}

fn locate(cs: &Vec<char>, i: usize) -> (r: Position)
    requires
        i < cs@.len(),
    ensures
        r.line == position_of(cs@, i as int).0,
        r.row == position_of(cs@, i as int).1,
{
    let n = cs.len();
    let mut line: usize = 1;
    let mut row: usize = 1;
    let mut k: usize = 0;
    while k < i
        invariant
            k <= i < cs@.len(),
            n == cs@.len(),
            line == position_of(cs@, k as int).0,
            row == position_of(cs@, k as int).1,
        decreases i - k,
    {
        proof {
            lemma_position_bounds(cs@, k as int);
        }
        if cs[k] == '\n' {
            line = line + 1;
            row = 1;
        } else {
            row = row + 1;
        }
        k = k + 1;
    }
    Position { line, row }
}

fn chars_of(s: &str) -> (r: Vec<char>)
    ensures
        r@ == s@,
{
    broadcast use vstd::string::axiom_spec_iter, vstd::string::next_postcondition;

    let mut r: Vec<char> = Vec::new();
    for c in it: s.chars()
        invariant
            r@ == it.seq().take(it.index() as int),
    {
        r.push(c);
        proof {
            assert(r@ =~= it.seq().take(it.index() + 1));
        }
    }
    assert(r@ =~= s@);
    r
}

fn scan_digits(cs: &Vec<char>, i: usize) -> (j: usize)
    requires
        i <= cs@.len(),
    ensures
        j == digits_end(cs@, i as int),
{
    let mut j = i;
    while j < cs.len() && '0' <= cs[j] && cs[j] <= '9'
        invariant
            i <= j <= cs@.len(),
            digits_end(cs@, i as int) == digits_end(cs@, j as int),
        decreases cs@.len() - j,
    {
        j = j + 1;
    }
    j
}

fn forbidden(c: char) -> (r: bool)
    ensures
        r == is_forbidden(c),
{
    c == '[' || c == ']' || c == '{' || c == '}' || c == '|' || c == '\\'
}

fn scan_identifier(cs: &Vec<char>, i: usize) -> (j: usize)
    requires
        i <= cs@.len(),
    ensures
        j == ident_end(cs@, i as int),
{
    let mut j = i;
    while j < cs.len() && !(cs[j] == ' ' || cs[j] == '(' || cs[j] == ')' || cs[j] == '\n' || forbidden(cs[j]))
        invariant
            i <= j <= cs@.len(),
            ident_end(cs@, i as int) == ident_end(cs@, j as int),
        decreases cs@.len() - j,
    {
        j = j + 1;
    }
    j
}

fn scan_quote(cs: &Vec<char>, i: usize) -> (j: usize)
    requires
        i <= cs@.len(),
    ensures
        j == quote_end(cs@, i as int),
{
    let mut j = i;
    while j < cs.len() && cs[j] != '"' && !forbidden(cs[j])
        invariant
            i <= j <= cs@.len(),
            quote_end(cs@, i as int) == quote_end(cs@, j as int),
        decreases cs@.len() - j,
    {
        j = j + 1;
    }
    j
}

fn string_of(cs: &Vec<char>, i: usize, j: usize) -> (r: String)
    requires
        i <= j <= cs@.len(),
    ensures
        r@ == cs@.subrange(i as int, j as int),
{
    let mut r = String::new();
    let mut k = i;
    while k < j
        invariant
            i <= k <= j <= cs@.len(),
            r@ == cs@.subrange(i as int, k as int),
        decreases j - k,
    {
        r.push(cs[k]);
        assert(r@ =~= cs@.subrange(i as int, k + 1));
        k = k + 1;
    }
    r
}

proof fn lemma_decimal_nonneg(cs: Seq<char>, i: int, j: int)
    requires
        0 <= i,
        j <= cs.len(),
        forall|m: int| i <= m < j ==> is_digit(#[trigger] cs[m]),
    ensures
        0 <= decimal(cs, i, j),
    decreases j - i,
{
    if j > i {
        lemma_decimal_nonneg(cs, i, j - 1);
        assert(is_digit(cs[j - 1]));
    }
}

proof fn lemma_decimal_monotone(cs: Seq<char>, i: int, k: int, j: int)
    requires
        0 <= i <= k <= j <= cs.len(),
        forall|m: int| i <= m < j ==> is_digit(#[trigger] cs[m]),
    ensures
        0 <= decimal(cs, i, k) <= decimal(cs, i, j),
    decreases j - k,
{
    lemma_decimal_nonneg(cs, i, k);
    if k < j {
        lemma_decimal_monotone(cs, i, k, j - 1);
        lemma_decimal_nonneg(cs, i, j - 1);
        assert(is_digit(cs[j - 1]));
    }
}

proof fn lemma_digits_run(cs: Seq<char>, i: int, m: int)
    requires
        0 <= i <= m < digits_end(cs, i),
    ensures
        is_digit(cs[m]),
    decreases m - i,
{
    if m > i {
        lemma_digits_run(cs, i + 1, m);
    }
}

/// The value of the digits `cs[i..j]`, or `None` when it does not fit in an `i64`.
fn decimal_value(cs: &Vec<char>, i: usize, j: usize) -> (r: Option<i64>)
    requires
        i <= j <= cs@.len(),
        forall|m: int| i <= m < j ==> is_digit(#[trigger] cs@[m]),
    ensures
        match r {
            Some(v) => v == decimal(cs@, i as int, j as int),
            None => decimal(cs@, i as int, j as int) > i64::MAX,
        },
{
    let mut acc: i64 = 0;
    let mut k = i;
    while k < j
        invariant
            i <= k <= j <= cs@.len(),
            forall|m: int| i <= m < j ==> is_digit(#[trigger] cs@[m]),
            acc == decimal(cs@, i as int, k as int),
        decreases j - k,
    {
        let d = (cs[k] as u32 - '0' as u32) as i64;
        assert(is_digit(cs@[k as int]));
        assert(d == digit_value(cs@[k as int]));
        proof {
            lemma_decimal_nonneg(cs@, i as int, k as int);
        }
        if acc > (i64::MAX - d) / 10 {
            proof {
                lemma_decimal_monotone(cs@, i as int, k + 1, j as int);
                assert(acc * 10 + d > i64::MAX) by (nonlinear_arith)
                    requires
                        acc > (i64::MAX - d) / 10,
                        0 <= acc,
                        0 <= d <= 9,
                ;
            }
            return None;
        }
        assert(acc * 10 + d <= i64::MAX) by (nonlinear_arith)
            requires
                acc <= (i64::MAX - d) / 10,
                0 <= acc,
                0 <= d <= 9,
        ;
        acc = acc * 10 + d;
        k = k + 1;
    }
    Some(acc)
}

/// Reads the literal token that starts at `i`; see `literal_at`.
fn lex_literal(cs: &Vec<char>, i: usize) -> (r: Result<(Token, usize), usize>)
    requires
        i < cs@.len(),
        !(cs@[i as int] == ' ' || cs@[i as int] == '\n' || cs@[i as int] == '(' || cs@[i as int] == ')'),
        !is_forbidden(cs@[i as int]),
    ensures
        match literal_at(cs@, i as int) {
            Ok((t, j)) => r is Ok && r->Ok_0.0@ == t && r->Ok_0.1 == j,
            Err(e) => r is Err && r->Err_0 == e,
        },
        r is Ok ==> i < r->Ok_0.1 <= cs@.len(),
        r is Err ==> r->Err_0 < cs@.len(),
{
    let len = cs.len();
    proof {
        lemma_scan_bounds(cs@, i as int);
        lemma_scan_bounds(cs@, i + 1);
    }
    let c = cs[i];
    if c == '#' {
        if i + 1 < len && cs[i + 1] == '\'' {
            if i + 2 < len && 'a' <= cs[i + 2] && cs[i + 2] <= 'z' {
                Ok((Token::Value(ScmValue::Char(cs[i + 2])), i + 3))
            } else {
                Err(i)
            }
        } else if i + 1 < len && cs[i + 1] == 't' {
            Ok((Token::Value(ScmValue::Bool(true)), i + 2))
        } else if i + 1 < len && cs[i + 1] == 'f' {
            Ok((Token::Value(ScmValue::Bool(false)), i + 2))
        } else {
            Err(i)
        }
    } else if '0' <= c && c <= '9' {
        let e = scan_digits(cs, i);
        proof {
            assert forall|m: int| i <= m < e implies is_digit(#[trigger] cs@[m]) by {
                lemma_digits_run(cs@, i as int, m);
            }
        }
        match decimal_value(cs, i, e) {
            Some(n) => Ok((Token::Value(ScmValue::Integer(n)), e)),
            None => Err(i),
        }
    } else if c == '"' {
        let k = scan_quote(cs, i + 1);
        if k < len && forbidden(cs[k]) {
            return Err(k);
        }
        let text = string_of(cs, i + 1, k);
        let j = if k < len { k + 1 } else { k };
        Ok((Token::Value(ScmValue::String(text)), j))
    } else {
        let e = scan_identifier(cs, i);
        let text = string_of(cs, i, e);
        Ok((Token::Identifier(text), e))
    }
}

/// Converts source text into tokens ended by `EndOfInput`. On a lexical error the
/// result is the position of the offending character.
pub fn lex(s: &str) -> (r: Result<Vec<Token>, Position>)
    ensures
        match lex_spec(s@) {
            Ok(ts) => r is Ok && tokens_model(r->Ok_0@) == ts,
            Err(e) => r is Err && 0 <= e < s@.len() && r->Err_0.line == position_of(s@, e).0
                && r->Err_0.row == position_of(s@, e).1,
        },
{
    let cs = chars_of(s);
    let mut toks: Vec<Token> = Vec::new();
    let mut i: usize = 0;
    while i < cs.len()
        invariant
            i <= cs@.len(),
            cs@ == s@,
            lex_from(cs@, 0) == prepend(tokens_model(toks@), lex_from(cs@, i as int)),
        decreases cs@.len() - i,
    {
        let ghost old_toks = tokens_model(toks@);
        let c = cs[i];
        if c == ' ' || c == '\n' {
            i = i + 1;
        } else if c == '(' {
            toks.push(Token::OpenParen);
            proof {
                assert(tokens_model(toks@) =~= old_toks + seq![TokenModel::OpenParen]);
                assert(old_toks + seq![TokenModel::OpenParen] + (lex_from(cs@, i + 1)->Ok_0)
                    =~= old_toks + (seq![TokenModel::OpenParen] + lex_from(cs@, i + 1)->Ok_0));
            }
            i = i + 1;
        } else if c == ')' {
            toks.push(Token::ClosingParen);
            proof {
                assert(tokens_model(toks@) =~= old_toks + seq![TokenModel::ClosingParen]);
                assert(old_toks + seq![TokenModel::ClosingParen] + (lex_from(cs@, i + 1)->Ok_0)
                    =~= old_toks + (seq![TokenModel::ClosingParen] + lex_from(cs@, i + 1)->Ok_0));
            }
            i = i + 1;
        } else if forbidden(c) {
            let p = locate(&cs, i);
            return Err(p);
        } else {
            proof {
                lemma_scan_bounds(cs@, i as int);
                lemma_scan_bounds(cs@, i + 1);
            }
            let (tok, j) = match lex_literal(&cs, i) {
                Ok(pair) => pair,
                Err(e) => {
                    let p = locate(&cs, e);
                    return Err(p);
                },
            };
            let ghost tm = tok@;
            toks.push(tok);
            if j < cs.len() && cs[j] == ')' {
                toks.push(Token::ClosingParen);
                proof {
                    assert(tokens_model(toks@) =~= old_toks + seq![tm, TokenModel::ClosingParen]);
                    assert(old_toks + seq![tm, TokenModel::ClosingParen] + (lex_from(cs@, j + 1)->Ok_0)
                        =~= old_toks + (seq![tm, TokenModel::ClosingParen] + lex_from(cs@, j + 1)->Ok_0));
                }
                i = j + 1;
            } else if j >= cs.len() || cs[j] == ' ' || cs[j] == '\n' {
                proof {
                    assert(tokens_model(toks@) =~= old_toks + seq![tm]);
                    assert(old_toks + seq![tm] + (lex_from(cs@, j as int)->Ok_0)
                        =~= old_toks + (seq![tm] + lex_from(cs@, j as int)->Ok_0));
                }
                i = j;
            } else {
                let p = locate(&cs, j);
                return Err(p);
            }
        }
    }
    let ghost before = tokens_model(toks@);
    toks.push(Token::EndOfInput);
    proof {
        assert(tokens_model(toks@) =~= before.push(TokenModel::EndOfInput));
        assert(before + Seq::<TokenModel>::empty() =~= before);
        assert(Seq::<TokenModel>::empty() + before =~= before);
    }
    Ok(toks)
}

} // verus!
