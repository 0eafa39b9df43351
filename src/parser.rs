use vstd::prelude::*;
use crate::lexer::{lex, lex_spec, position_of, tokens_model, Position, Token, TokenModel};
use crate::value::{
    lemma_proc_model, names_model, units_model, Datum, Instr, ProcModel, ScmCallable, ScmProcUnit, ScmProcedure,
    ScmValue,
};

verus! {

/// Why source text could not be compiled.
#[derive(Debug)]
pub enum SyntaxError {
    /// The lexer refused the character at this position.
    Lexical(Position),
    /// The token at this index does not fit the grammar.
    UnexpectedToken(usize),
}

/// The token at `i`; past the end, the end marker.
pub open spec fn tok_at(ts: Seq<TokenModel>, i: int) -> TokenModel {
    if 0 <= i < ts.len() {
        ts[i]
    } else {
        TokenModel::EndOfInput
    }
}

/// The end of the run of identifiers that starts at `i`.
pub open spec fn idents_end(ts: Seq<TokenModel>, i: int) -> int
    decreases ts.len() - i,
{
    if 0 <= i < ts.len() && ts[i] is Identifier {
        idents_end(ts, i + 1)
    } else {
        i
    }
}

/// The names of the identifiers `ts[i..j]`.
pub open spec fn ident_names(ts: Seq<TokenModel>, i: int, j: int) -> Seq<Seq<char>> {
    Seq::new((j - i) as nat, |k: int| ts[i + k]->Identifier_0)
}

pub proof fn lemma_idents_end(ts: Seq<TokenModel>, i: int)
    requires
        0 <= i,
    ensures
        i <= idents_end(ts, i),
        i < ts.len() ==> idents_end(ts, i) <= ts.len(),
        forall|k: int| i <= k < idents_end(ts, i) ==> (#[trigger] ts[k]) is Identifier,
        !(tok_at(ts, idents_end(ts, i)) is Identifier),
    decreases ts.len() - i,
{
    if 0 <= i < ts.len() && ts[i] is Identifier {
        lemma_idents_end(ts, i + 1);
    }
}

/// `code` when the token at `j` closes the form, with the index after it.
pub open spec fn closed_by_paren(ts: Seq<TokenModel>, r: Result<(Seq<Instr>, int), int>) -> Result<(Seq<Instr>, int), int> {
    match r {
        Ok((c, j)) => if tok_at(ts, j) is ClosingParen {
            Ok((c, j + 1))
        } else {
            Err(j)
        },
        Err(e) => Err(e),
    }
}

/// The code of the value that starts at token `i` (an identifier, a literal or a
/// parenthesised form) and the index after it; or the index of the offending token.
pub open spec fn value_code(ts: Seq<TokenModel>, i: int) -> Result<(Seq<Instr>, int), int>
    decreases ts.len() - i, 2nat,
{
    match tok_at(ts, i) {
        TokenModel::Identifier(name) => Ok((seq![Instr::Variable(name)], i + 1)),
        TokenModel::Value(v) => Ok((seq![Instr::Val(v)], i + 1)),
        TokenModel::OpenParen => if 0 <= i < ts.len() {
            expr_code(ts, i)
        } else {
            Err(i)
        },
        _ => Err(i),
    }
}

/// The code of the arguments that start at token `i`, how many there are, and the index
/// after the closing parenthesis.
pub open spec fn args_code(ts: Seq<TokenModel>, i: int) -> Result<(Seq<Instr>, nat, int), int>
    decreases ts.len() - i, 3nat,
{
    match tok_at(ts, i) {
        TokenModel::ClosingParen => Ok((Seq::empty(), 0, i + 1)),
        TokenModel::EndOfInput => Err(i),
        _ => if 0 <= i < ts.len() {
            match value_code(ts, i) {
                Ok((c, j)) => if i < j <= ts.len() {
                    match args_code(ts, j) {
                        Ok((rest, n, k)) => Ok((c + rest, n + 1, k)),
                        Err(e) => Err(e),
                    }
                } else {
                    Err(i)
                },
                Err(e) => Err(e),
            }
        } else {
            Err(i)
        },
    }
}

/// The code of `name value` or `(name params...) body` after `define`, up to the closing
/// parenthesis of the form.
pub open spec fn define_code(ts: Seq<TokenModel>, i: int) -> Result<(Seq<Instr>, int), int>
    decreases ts.len() - i, 0nat,
{
    if i < 0 || i >= ts.len() {
        Err(i)
    } else {
        match tok_at(ts, i) {
            TokenModel::Identifier(name) => match value_code(ts, i + 1) {
                Ok((c, j)) => Ok((seq![Instr::Assign(name)] + c, j)),
                Err(e) => Err(e),
            },
            TokenModel::OpenParen => match tok_at(ts, i + 1) {
                TokenModel::Identifier(name) => {
                    proof {
                        lemma_idents_end(ts, i + 2);
                    }
                    let p = idents_end(ts, i + 2);
                    if tok_at(ts, p) is ClosingParen && p < ts.len() {
                        match value_code(ts, p + 1) {
                            Ok((body, j)) => Ok((
                                seq![Instr::Assign(name)] + body + seq![
                                    Instr::Lambda(ident_names(ts, i + 2, p), body.len()),
                                ],
                                j,
                            )),
                            Err(e) => Err(e),
                        }
                    } else {
                        Err(p)
                    }
                },
                _ => Err(i + 1),
            },
            _ => Err(i),
        }
    }
}

/// The code of `param body` or `(params...) body` after `lambda`.
pub open spec fn lambda_code(ts: Seq<TokenModel>, i: int) -> Result<(Seq<Instr>, int), int>
    decreases ts.len() - i, 0nat,
{
    if i < 0 || i >= ts.len() {
        Err(i)
    } else {
        let formals: Result<(Seq<Seq<char>>, int), int> = match tok_at(ts, i) {
            TokenModel::Identifier(name) => Ok((seq![name], i + 1)),
            TokenModel::OpenParen => {
                let p = idents_end(ts, i + 1);
                if tok_at(ts, p) is ClosingParen {
                    Ok((ident_names(ts, i + 1, p), p + 1))
                } else {
                    Err(p)
                }
            },
            _ => Err(i),
        };
        match formals {
            Ok((params, k)) => {
                proof {
                    lemma_idents_end(ts, i + 1);
                }
                if i < k {
                    match value_code(ts, k) {
                        Ok((body, j)) => Ok((body + seq![Instr::Lambda(params, body.len())], j)),
                        Err(e) => Err(e),
                    }
                } else {
                    Err(i)
                }
            },
            Err(e) => Err(e),
        }
    }
}

/// The layout of a compiled `if` in program order.
pub open spec fn if_layout(e: Seq<Instr>, t: Seq<Instr>, c: Seq<Instr>) -> Seq<Instr> {
    e + seq![Instr::FalseBranch(e.len())] + t + seq![Instr::TrueBranch(t.len())] + c
}

/// The code of `cond then [else]` after `if`. In program order: the else code, a
/// `FalseBranch` that skips it, the then code, a `TrueBranch` holding the length of the
/// then code, the condition code. A missing else branch is `Nil`.
pub open spec fn if_code(ts: Seq<TokenModel>, i: int) -> Result<(Seq<Instr>, int), int>
    decreases ts.len() - i, 3nat,
{
    match value_code(ts, i) {
        Ok((c, j)) => if i < j <= ts.len() {
            match value_code(ts, j) {
                Ok((t, k)) => if j < k <= ts.len() {
                    if tok_at(ts, k) is ClosingParen {
                        Ok((if_layout(seq![Instr::Val(Datum::Nil)], t, c), k))
                    } else {
                        match value_code(ts, k) {
                            Ok((e, m)) => Ok((if_layout(e, t, c), m)),
                            Err(err) => Err(err),
                        }
                    }
                } else {
                    Err(j)
                },
                Err(e) => Err(e),
            }
        } else {
            Err(i)
        },
        Err(e) => Err(e),
    }
}

/// The code of the parenthesised form that starts at token `i` and the index after it.
pub open spec fn expr_code(ts: Seq<TokenModel>, i: int) -> Result<(Seq<Instr>, int), int>
    decreases ts.len() - i, 1nat,
{
    if !(tok_at(ts, i) is OpenParen) || i < 0 {
        Err(i)
    } else {
        let h = i + 1;
        match tok_at(ts, h) {
            TokenModel::Identifier(name) => if name == "define"@ {
                closed_by_paren(
                    ts,
                    match define_code(ts, h + 1) {
                        Ok((c, j)) => Ok((seq![Instr::Val(Datum::Nil)] + c, j)),
                        Err(e) => Err(e),
                    },
                )
            } else if name == "lambda"@ {
                closed_by_paren(ts, lambda_code(ts, h + 1))
            } else if name == "if"@ {
                closed_by_paren(ts, if_code(ts, h + 1))
            } else {
                match args_code(ts, h + 1) {
                    Ok((c, n, j)) => Ok((seq![Instr::ProcCall(name, n)] + c, j)),
                    Err(e) => Err(e),
                }
            },
            TokenModel::Value(v) => match args_code(ts, h + 1) {
                Ok((c, n, j)) => Ok((
                    seq![
                        Instr::ProcCall("apply"@, 2),
                        Instr::Val(v),
                        Instr::ProcCall("list"@, n),
                    ] + c,
                    j,
                )),
                Err(e) => Err(e),
            },
            TokenModel::OpenParen => match expr_code(ts, h) {
                Ok((f, k)) => if h < k <= ts.len() {
                    match args_code(ts, k) {
                        Ok((c, n, j)) => Ok((
                            seq![Instr::ProcCall("apply"@, 2)] + f + seq![Instr::ProcCall("list"@, n)] + c,
                            j,
                        )),
                        Err(e) => Err(e),
                    }
                } else {
                    Err(h)
                },
                Err(e) => Err(e),
            },
            TokenModel::ClosingParen => Ok((seq![Instr::Val(Datum::Nil)], h + 1)),
            TokenModel::EndOfInput => Err(h),
        }
    }
}

/// The code of each top-level form from token `i` on; the forms must be followed by the
/// end marker.
pub open spec fn forms_code(ts: Seq<TokenModel>, i: int) -> Result<Seq<Seq<Instr>>, int>
    decreases ts.len() - i,
{
    match tok_at(ts, i) {
        TokenModel::OpenParen => if 0 <= i < ts.len() {
            match expr_code(ts, i) {
                Ok((c, j)) => if i < j <= ts.len() {
                    match forms_code(ts, j) {
                        Ok(rest) => Ok(seq![c] + rest),
                        Err(e) => Err(e),
                    }
                } else {
                    Err(i)
                },
                Err(e) => Err(e),
            }
        } else {
            Err(i)
        },
        TokenModel::EndOfInput => Ok(Seq::empty()),
        _ => Err(i),
    }
}

/// The procedure, without parameters, that runs the code of one top-level form.
pub open spec fn form_procedure(code: Seq<Instr>) -> Datum {
    Datum::Custom(ProcModel { params: Seq::empty(), body: code })
}

pub open spec fn proc_body_is(p: ScmCallable, c: Seq<Instr>) -> bool {
    p@ == form_procedure(c)
}

/// The forms compiled so far, `done`, and those from `i` on together make up the forms from `start` on.
pub open spec fn forall_codes(ts: Seq<TokenModel>, start: int, done: Seq<Seq<Instr>>, i: int) -> bool {
    forms_code(ts, start) == match forms_code(ts, i) {
        Ok(rest) => Ok(done + rest),
        Err(e) => Err(e),
    }
}

/// Compiles a token stream into one instruction vector per top-level form.
pub struct Parser {
    tokens: Vec<Token>,
    idx: usize,
}

impl Parser {
    /// The tokens being compiled.
    pub closed spec fn tokens(&self) -> Seq<TokenModel> {
        tokens_model(self.tokens@)
    }

    /// The index of the next token.
    pub closed spec fn index(&self) -> int {
        self.idx as int
    }

    /// The tokens end with the end marker, and the index lies within them.
    pub closed spec fn wf(&self) -> bool {
        &&& self.tokens@.len() > 0
        &&& self.tokens@.last() is EndOfInput
        &&& self.idx < self.tokens@.len()
    }

    fn peek(&self) -> (r: &Token)
        requires
            self.wf(),
        ensures
            r@ == tok_at(self.tokens(), self.index()),
    {
        &self.tokens[self.idx]
    }

    /// Moves past the current token, which is not the end marker.
    fn advance(&mut self)
        requires
            old(self).wf(),
            !(tok_at(old(self).tokens(), old(self).index()) is EndOfInput),
        ensures
            final(self).wf(),
            final(self).tokens() == old(self).tokens(),
            final(self).index() == old(self).index() + 1,
    {
        let len = self.tokens.len();
        proof {
            if self.idx == self.tokens@.len() - 1 {
                assert(tok_at(self.tokens(), self.index()) == self.tokens@.last()@);
            }
            assert(self.idx + 1 < len);
        }
        self.idx = self.idx + 1;
    }

    fn emit(instr: &mut Vec<ScmProcUnit>, u: ScmProcUnit)
        ensures
            units_model(final(instr)@) == units_model(old(instr)@).push(u@),
    {
        instr.push(u);
        assert(units_model(instr@) =~= units_model(old(instr)@).push(u@));
    }

    fn emit_all(instr: &mut Vec<ScmProcUnit>, more: &mut Vec<ScmProcUnit>)
        ensures
            units_model(final(instr)@) == units_model(old(instr)@) + units_model(old(more)@),
    {
        instr.append(more);
        assert(units_model(instr@) =~= units_model(old(instr)@) + units_model(old(more)@));
    }

    fn word(w: &str) -> (r: String)
        ensures
            r@ == w@,
    {
        w.to_owned()
    }

    /// Reads identifiers up to the first other token.
    fn parse_params(&mut self) -> (r: Vec<String>)
        requires
            old(self).wf(),
        ensures
            final(self).wf(),
            final(self).tokens() == old(self).tokens(),
            final(self).index() == idents_end(old(self).tokens(), old(self).index()),
            names_model(r@) == ident_names(old(self).tokens(), old(self).index(), final(self).index()),
    {
        let ghost start = self.index();
        let mut params: Vec<String> = Vec::new();
        proof {
            lemma_idents_end(self.tokens(), start);
            assert(names_model(params@) =~= ident_names(self.tokens(), start, start));
        }
        loop
            invariant
                self.wf(),
                self.tokens() == old(self).tokens(),
                start == old(self).index(),
                start <= self.index(),
                idents_end(self.tokens(), start) == idents_end(self.tokens(), self.index()),
                names_model(params@) == ident_names(self.tokens(), start, self.index()),
            decreases self.tokens@.len() - self.idx,
        {
            let ghost ts = self.tokens();
            let ghost idx = self.index();
            match self.peek() {
                Token::Identifier(name) => {
                    let n = name.clone();
                    assert(ts[idx] == TokenModel::Identifier(n@));
                    let ghost before = params@;
                    params.push(n);
                    self.advance();
                    proof {
                        assert(idents_end(ts, idx) == idents_end(ts, idx + 1));
                        assert(names_model(params@) =~= names_model(before).push(n@));
                        assert(ident_names(ts, start, idx + 1) =~= ident_names(ts, start, idx).push(n@));
                    }
                },
                _ => {
                    return params;
                },
            }
        }
    }

    /// Compiles the value at the current token into `instr`; see `value_code`.
    fn parse_value(&mut self, instr: &mut Vec<ScmProcUnit>) -> (r: Result<(), usize>)
        requires
            old(self).wf(),
        ensures
            final(self).wf(),
            final(self).tokens() == old(self).tokens(),
            match value_code(old(self).tokens(), old(self).index()) {
                Ok((c, j)) => r is Ok && final(self).index() == j
                    && units_model(final(instr)@) == units_model(old(instr)@) + c,
                Err(e) => r == Err::<(), usize>(e as usize),
            },
            r is Ok ==> final(self).index() > old(self).index(),
        decreases self.tokens@.len() - self.idx, 2nat,
    {
        match self.peek() {
            Token::Identifier(name) => {
                let u = ScmProcUnit::Variable(name.clone());
                Self::emit(instr, u);
                self.advance();
                proof {
                    assert(units_model(instr@) =~= units_model(old(instr)@) + seq![u@]);
                }
                Ok(())
            },
            Token::Value(v) => {
                let u = ScmProcUnit::Val(v.clone());
                Self::emit(instr, u);
                self.advance();
                proof {
                    assert(units_model(instr@) =~= units_model(old(instr)@) + seq![u@]);
                }
                Ok(())
            },
            Token::OpenParen => self.parse_expr(instr),
            _ => Err(self.idx),
        }
    }

    /// Compiles arguments up to and including the closing parenthesis into `instr` and
    /// returns how many there were; see `args_code`.
    fn parse_args(&mut self, instr: &mut Vec<ScmProcUnit>) -> (r: Result<usize, usize>)
        requires
            old(self).wf(),
        ensures
            final(self).wf(),
            final(self).tokens() == old(self).tokens(),
            match args_code(old(self).tokens(), old(self).index()) {
                Ok((c, n, j)) => r is Ok && r->Ok_0 == n && final(self).index() == j
                    && units_model(final(instr)@) == units_model(old(instr)@) + c,
                Err(e) => r == Err::<usize, usize>(e as usize),
            },
            r is Ok ==> r->Ok_0 < final(self).index() - old(self).index(),
        decreases self.tokens@.len() - self.idx, 3nat,
    {
        match self.peek() {
            Token::ClosingParen => {
                self.advance();
                assert(units_model(instr@) =~= units_model(old(instr)@) + Seq::<Instr>::empty());
                Ok(0)
            },
            Token::EndOfInput => Err(self.idx),
            _ => {
                match self.parse_value(instr) {
                    Ok(()) => {},
                    Err(e) => {
                        return Err(e);
                    },
                }
                proof {
                    assert(self.index() <= self.tokens().len());
                }
                match self.parse_args(instr) {
                    Ok(n) => {
                        proof {
                            let (c, j) = value_code(old(self).tokens(), old(self).index())->Ok_0;
                            let (rest, m, k) = args_code(old(self).tokens(), j)->Ok_0;
                            assert(units_model(instr@) =~= units_model(old(instr)@) + (c + rest));
                            assert(n == m);
                        }
                        Ok(n + 1)
                    },
                    Err(e) => Err(e),
                }
            },
        }
    }

    /// Consumes the closing parenthesis of a form.
    fn expect_close(&mut self) -> (r: Result<(), usize>)
        requires
            old(self).wf(),
        ensures
            final(self).wf(),
            final(self).tokens() == old(self).tokens(),
            tok_at(old(self).tokens(), old(self).index()) is ClosingParen ==> r is Ok
                && final(self).index() == old(self).index() + 1,
            !(tok_at(old(self).tokens(), old(self).index()) is ClosingParen) ==> r
                == Err::<(), usize>(old(self).idx),
    {
        match self.peek() {
            Token::ClosingParen => {
                self.advance();
                Ok(())
            },
            _ => Err(self.idx),
        }
    }

    /// Compiles what follows `define`; see `define_code`.
    fn parse_define(&mut self, instr: &mut Vec<ScmProcUnit>) -> (r: Result<(), usize>)
        requires
            old(self).wf(),
        ensures
            final(self).wf(),
            final(self).tokens() == old(self).tokens(),
            match define_code(old(self).tokens(), old(self).index()) {
                Ok((c, j)) => r is Ok && final(self).index() == j
                    && units_model(final(instr)@) == units_model(old(instr)@) + c,
                Err(e) => r == Err::<(), usize>(e as usize),
            },
            r is Ok ==> final(self).index() > old(self).index(),
        decreases self.tokens@.len() - self.idx, 0nat,
    {
        let ghost ts = self.tokens();
        let ghost i = self.index();
        match self.peek() {
            Token::Identifier(name) => {
                let u = ScmProcUnit::Assign(name.clone());
                Self::emit(instr, u);
                self.advance();
                let r = self.parse_value(instr);
                proof {
                    if r is Ok {
                        let (c, j) = value_code(ts, i + 1)->Ok_0;
                        assert(units_model(instr@) =~= units_model(old(instr)@) + (seq![u@] + c));
                    }
                }
                r
            },
            Token::OpenParen => {
                self.advance();
                let name = match self.peek() {
                    Token::Identifier(name) => name.clone(),
                    _ => {
                        return Err(self.idx);
                    },
                };
                self.advance();
                proof {
                    lemma_idents_end(ts, i + 2);
                }
                let params = self.parse_params();
                let p = self.idx;
                match self.peek() {
                    Token::ClosingParen => {},
                    _ => {
                        return Err(p);
                    },
                }
                self.advance();
                let u = ScmProcUnit::Assign(name);
                Self::emit(instr, u);
                let ghost before_body = units_model(instr@);
                let ghost k0 = self.index();
                let start = instr.len();
                match self.parse_value(instr) {
                    Ok(()) => {},
                    Err(e) => {
                        return Err(e);
                    },
                }
                assert(value_code(ts, k0) is Ok);
                assert(units_model(instr@) == before_body + value_code(ts, k0)->Ok_0.0);
                assert(units_model(instr@).len() == instr@.len());
                let size = instr.len() - start;
                let lam = ScmProcUnit::Lambda { args: params, units_cnt: size };
                let ghost body_model = units_model(instr@).subrange(start as int, instr@.len() as int);
                proof {
                    let (body, j) = value_code(ts, p + 1)->Ok_0;
                    assert(body_model =~= body);
                }
                Self::emit(instr, lam);
                proof {
                    let (body, j) = value_code(ts, p + 1)->Ok_0;
                    assert(units_model(instr@) =~= units_model(old(instr)@) + (seq![u@] + body + seq![lam@]));
                }
                Ok(())
            },
            _ => Err(self.idx),
        }
    }

    /// Compiles what follows `lambda`; see `lambda_code`.
    fn parse_lambda(&mut self, instr: &mut Vec<ScmProcUnit>) -> (r: Result<(), usize>)
        requires
            old(self).wf(),
        ensures
            final(self).wf(),
            final(self).tokens() == old(self).tokens(),
            match lambda_code(old(self).tokens(), old(self).index()) {
                Ok((c, j)) => r is Ok && final(self).index() == j
                    && units_model(final(instr)@) == units_model(old(instr)@) + c,
                Err(e) => r == Err::<(), usize>(e as usize),
            },
            r is Ok ==> final(self).index() > old(self).index(),
        decreases self.tokens@.len() - self.idx, 0nat,
    {
        let ghost ts = self.tokens();
        let ghost i = self.index();
        proof {
            lemma_idents_end(ts, i + 1);
        }
        let params: Vec<String> = match self.peek() {
            Token::Identifier(name) => {
                let mut ps: Vec<String> = Vec::new();
                ps.push(name.clone());
                self.advance();
                proof {
                    assert(names_model(ps@) =~= seq![ts[i]->Identifier_0]);
                }
                ps
            },
            Token::OpenParen => {
                self.advance();
                let ps = self.parse_params();
                match self.peek() {
                    Token::ClosingParen => {},
                    _ => {
                        return Err(self.idx);
                    },
                }
                self.advance();
                ps
            },
            _ => {
                return Err(self.idx);
            },
        };
        let start = instr.len();
        let ghost before = units_model(instr@);
        let ghost k0 = self.index();
        let rv = self.parse_value(instr);
        match rv {
            Ok(()) => {},
            Err(e) => {
                return Err(e);
            },
        }
        assert(value_code(ts, k0) is Ok);
        assert(units_model(instr@) == before + value_code(ts, k0)->Ok_0.0);
        assert(units_model(instr@).len() == instr@.len());
        let size = instr.len() - start;
        proof {
            let (params_m, k2) = match tok_at(ts, i) {
                TokenModel::Identifier(name) => (seq![name], i + 1),
                _ => (ident_names(ts, i + 1, idents_end(ts, i + 1)), idents_end(ts, i + 1) + 1),
            };
            let (body, j) = value_code(ts, k2)->Ok_0;
            assert(units_model(instr@).subrange(start as int, instr@.len() as int) =~= body);
            assert(units_model(instr@) =~= units_model(old(instr)@) + body);
        }
        let lam = ScmProcUnit::Lambda { args: params, units_cnt: size };
        Self::emit(instr, lam);
        proof {
            let (params_m, k2) = match tok_at(ts, i) {
                TokenModel::Identifier(name) => (seq![name], i + 1),
                _ => (ident_names(ts, i + 1, idents_end(ts, i + 1)), idents_end(ts, i + 1) + 1),
            };
            let (body, j) = value_code(ts, k2)->Ok_0;
            assert(units_model(instr@) =~= units_model(old(instr)@) + (body + seq![lam@]));
        }
        Ok(())
    }

    /// Compiles what follows `if`; see `if_code`.
    fn parse_if(&mut self, instr: &mut Vec<ScmProcUnit>) -> (r: Result<(), usize>)
        requires
            old(self).wf(),
        ensures
            final(self).wf(),
            final(self).tokens() == old(self).tokens(),
            match if_code(old(self).tokens(), old(self).index()) {
                Ok((c, j)) => r is Ok && final(self).index() == j
                    && units_model(final(instr)@) == units_model(old(instr)@) + c,
                Err(e) => r == Err::<(), usize>(e as usize),
            },
            r is Ok ==> final(self).index() > old(self).index(),
        decreases self.tokens@.len() - self.idx, 3nat,
    {
        let ghost ts = self.tokens();
        let ghost i = self.index();
        let mut cond: Vec<ScmProcUnit> = Vec::new();
        match self.parse_value(&mut cond) {
            Ok(()) => {},
            Err(e) => {
                return Err(e);
            },
        }
        let ghost j = self.index();
        let mut then_code: Vec<ScmProcUnit> = Vec::new();
        match self.parse_value(&mut then_code) {
            Ok(()) => {},
            Err(e) => {
                return Err(e);
            },
        }
        let ghost k = self.index();
        let ghost c = value_code(ts, i)->Ok_0.0;
        let ghost t = value_code(ts, j)->Ok_0.0;
        assert(units_model(cond@) =~= Seq::<Instr>::empty() + c);
        assert(units_model(then_code@) =~= Seq::<Instr>::empty() + t);
        let then_len = then_code.len();
        let ghost else_part: Seq<Instr>;
        match self.peek() {
            Token::ClosingParen => {
                Self::emit(instr, ScmProcUnit::Val(ScmValue::Nil));
                Self::emit(instr, ScmProcUnit::FalseBranch(1));
                proof {
                    else_part = seq![Instr::Val(Datum::Nil)] + seq![Instr::FalseBranch(1)];
                    assert(units_model(instr@) =~= units_model(old(instr)@) + else_part);
                }
            },
            _ => {
                let start = instr.len();
                let ghost before_else = units_model(instr@);
                match self.parse_value(instr) {
                    Ok(()) => {},
                    Err(e) => {
                        return Err(e);
                    },
                }
                assert(value_code(ts, k) is Ok);
                assert(units_model(instr@) == before_else + value_code(ts, k)->Ok_0.0);
                assert(units_model(instr@).len() == instr@.len());
                let size = instr.len() - start;
                proof {
                    let e = value_code(ts, k)->Ok_0.0;
                    assert(units_model(instr@).subrange(start as int, instr@.len() as int) =~= e);
                }
                Self::emit(instr, ScmProcUnit::FalseBranch(size));
                proof {
                    let e = value_code(ts, k)->Ok_0.0;
                    else_part = e + seq![Instr::FalseBranch(e.len())];
                    assert(units_model(instr@) =~= units_model(old(instr)@) + else_part);
                }
            },
        }
        Self::emit_all(instr, &mut then_code);
        Self::emit(instr, ScmProcUnit::TrueBranch(then_len));
        Self::emit_all(instr, &mut cond);
        proof {
            assert(units_model(instr@) =~= units_model(old(instr)@) + (else_part + t + seq![
                Instr::TrueBranch(t.len()),
            ] + c));
            if tok_at(ts, k) is ClosingParen {
                assert(else_part + t + seq![Instr::TrueBranch(t.len())] + c =~= if_layout(
                    seq![Instr::Val(Datum::Nil)],
                    t,
                    c,
                ));
            } else {
                let e = value_code(ts, k)->Ok_0.0;
                assert(else_part + t + seq![Instr::TrueBranch(t.len())] + c =~= if_layout(e, t, c));
            }
        }
        Ok(())
    }

    /// Compiles a call whose head is the identifier `name`, after the head.
    fn parse_call(&mut self, name: String, instr: &mut Vec<ScmProcUnit>) -> (r: Result<(), usize>)
        requires
            old(self).wf(),
        ensures
            final(self).wf(),
            final(self).tokens() == old(self).tokens(),
            match args_code(old(self).tokens(), old(self).index()) {
                Ok((c, n, j)) => r is Ok && final(self).index() == j
                    && units_model(final(instr)@) == units_model(old(instr)@) + (seq![
                        Instr::ProcCall(name@, n),
                    ] + c),
                Err(e) => r == Err::<(), usize>(e as usize),
            },
            r is Ok ==> final(self).index() > old(self).index(),
        decreases self.tokens@.len() - self.idx, 4nat,
    {
        let mut args: Vec<ScmProcUnit> = Vec::new();
        let ghost args0 = units_model(args@);
        assert(args0 =~= Seq::<Instr>::empty());
        let n = match self.parse_args(&mut args) {
            Ok(n) => n,
            Err(e) => {
                return Err(e);
            },
        };
        let u = ScmProcUnit::ProcCall(name, n);
        Self::emit(instr, u);
        Self::emit_all(instr, &mut args);
        proof {
            let c = args_code(old(self).tokens(), old(self).index())->Ok_0.0;
            assert(args0 + c =~= c);
            assert(units_model(instr@) =~= units_model(old(instr)@) + (seq![u@] + c));
        }
        Ok(())
    }

    /// Compiles the parenthesised form at the current token into `instr`; see `expr_code`.
    fn parse_expr(&mut self, instr: &mut Vec<ScmProcUnit>) -> (r: Result<(), usize>)
        requires
            old(self).wf(),
        ensures
            final(self).wf(),
            final(self).tokens() == old(self).tokens(),
            match expr_code(old(self).tokens(), old(self).index()) {
                Ok((c, j)) => r is Ok && final(self).index() == j
                    && units_model(final(instr)@) == units_model(old(instr)@) + c,
                Err(e) => r == Err::<(), usize>(e as usize),
            },
            r is Ok ==> final(self).index() > old(self).index(),
        decreases self.tokens@.len() - self.idx, 1nat,
    {
        let ghost ts = self.tokens();
        let ghost i = self.index();
        match self.peek() {
            Token::OpenParen => {},
            _ => {
                return Err(self.idx);
            },
        }
        self.advance();
        let ghost h = i + 1;
        match self.peek() {
            Token::Identifier(name) => {
                let name = name.clone();
                self.advance();
                if name == Self::word("define") {
                    let nil = ScmProcUnit::Val(ScmValue::Nil);
                    Self::emit(instr, nil);
                    match self.parse_define(instr) {
                        Ok(()) => {},
                        Err(e) => {
                            return Err(e);
                        },
                    }
                    proof {
                        let c = define_code(ts, h + 1)->Ok_0.0;
                        assert(units_model(instr@) =~= units_model(old(instr)@) + (seq![nil@] + c));
                    }
                    self.expect_close()
                } else if name == Self::word("lambda") {
                    match self.parse_lambda(instr) {
                        Ok(()) => {},
                        Err(e) => {
                            return Err(e);
                        },
                    }
                    self.expect_close()
                } else if name == Self::word("if") {
                    match self.parse_if(instr) {
                        Ok(()) => {},
                        Err(e) => {
                            return Err(e);
                        },
                    }
                    self.expect_close()
                } else {
                    self.parse_call(name, instr)
                }
            },
            Token::Value(v) => {
                let v = v.clone();
                self.advance();
                let mut args: Vec<ScmProcUnit> = Vec::new();
        let ghost args0 = units_model(args@);
        assert(args0 =~= Seq::<Instr>::empty());
                let n = match self.parse_args(&mut args) {
                    Ok(n) => n,
                    Err(e) => {
                        return Err(e);
                    },
                };
                let u1 = ScmProcUnit::ProcCall(Self::word("apply"), 2);
                let u2 = ScmProcUnit::Val(v);
                let u3 = ScmProcUnit::ProcCall(Self::word("list"), n);
                Self::emit(instr, u1);
                Self::emit(instr, u2);
                Self::emit(instr, u3);
                Self::emit_all(instr, &mut args);
                proof {
                    let c = args_code(ts, h + 1)->Ok_0.0;
                    assert(args0 + c =~= c);
                    assert(units_model(instr@) =~= units_model(old(instr)@) + (seq![u1@, u2@, u3@] + c));
                }
                Ok(())
            },
            Token::OpenParen => {
                let u1 = ScmProcUnit::ProcCall(Self::word("apply"), 2);
                Self::emit(instr, u1);
                match self.parse_expr(instr) {
                    Ok(()) => {},
                    Err(e) => {
                        return Err(e);
                    },
                }
                let mut args: Vec<ScmProcUnit> = Vec::new();
        let ghost args0 = units_model(args@);
        assert(args0 =~= Seq::<Instr>::empty());
                let n = match self.parse_args(&mut args) {
                    Ok(n) => n,
                    Err(e) => {
                        return Err(e);
                    },
                };
                let u3 = ScmProcUnit::ProcCall(Self::word("list"), n);
                Self::emit(instr, u3);
                Self::emit_all(instr, &mut args);
                proof {
                    let (f, k) = expr_code(ts, h)->Ok_0;
                    let c = args_code(ts, k)->Ok_0.0;
                    assert(args0 + c =~= c);
                    assert(units_model(instr@) =~= units_model(old(instr)@) + (seq![u1@] + f + seq![u3@] + c));
                }
                Ok(())
            },
            Token::ClosingParen => {
                self.advance();
                let nil = ScmProcUnit::Val(ScmValue::Nil);
                Self::emit(instr, nil);
                proof {
                    assert(units_model(instr@) =~= units_model(old(instr)@) + seq![nil@]);
                }
                Ok(())
            },
            Token::EndOfInput => Err(self.idx),
        }
    }

    /// Compiles every top-level form into a procedure without parameters.
    pub fn parse(&mut self) -> (r: Result<Vec<ScmCallable>, SyntaxError>)
        requires
            old(self).wf(),
        ensures
            final(self).wf(),
            match forms_code(old(self).tokens(), old(self).index()) {
                Ok(codes) => r is Ok && r->Ok_0@.len() == codes.len() && forall|k: int|
                    0 <= k < codes.len() ==> (#[trigger] r->Ok_0@[k])@ == form_procedure(codes[k]),
                Err(e) => r is Err && r->Err_0 == SyntaxError::UnexpectedToken(e as usize),
            },
    {
        let ghost ts = self.tokens();
        let ghost start = self.index();
        let mut res: Vec<ScmCallable> = Vec::new();
        let ghost done: Seq<Seq<Instr>> = Seq::empty();
        loop
            invariant
                self.wf(),
                self.tokens() == ts,
                ts == old(self).tokens(),
                start == old(self).index(),
                start <= self.index(),
                res@.len() == done.len(),
                forall|k: int| 0 <= k < done.len() ==> (#[trigger] res@[k])@ == form_procedure(done[k]),
                forall_codes(ts, start, done, self.index()),
            decreases self.tokens@.len() - self.idx,
        {
            match self.peek() {
                Token::OpenParen => {},
                Token::EndOfInput => {
                    proof {
                        assert(done + Seq::<Seq<Instr>>::empty() =~= done);
                    }
                    return Ok(res);
                },
                _ => {
                    return Err(SyntaxError::UnexpectedToken(self.idx));
                },
            }
            let ghost i = self.index();
            let mut instr: Vec<ScmProcUnit> = Vec::new();
            match self.parse_expr(&mut instr) {
                Ok(()) => {},
                Err(e) => {
                    return Err(SyntaxError::UnexpectedToken(e));
                },
            }
            let params: Vec<String> = Vec::new();
            proof {
                assert(names_model(params@) =~= Seq::<Seq<char>>::empty());
            }
            let body = ScmProcedure { params, instructions: instr };
            proof {
                lemma_proc_model(body);
                let c = expr_code(ts, i)->Ok_0.0;
                assert(units_model(body.instructions@) =~= c);
                let rest = forms_code(ts, self.index());
                if rest is Ok {
                    assert(done + (seq![c] + rest->Ok_0) =~= done.push(c) + rest->Ok_0);
                }
            }
            let p = ScmCallable::CustomProc(body);
            proof {
                let c = expr_code(ts, i)->Ok_0.0;
                assert(proc_body_is(p, c));
            }
            res.push(p);
            proof {
                done = done.push(expr_code(ts, i)->Ok_0.0);
            }
        }
    }

    /// Builds a parser over the tokens of `s`.
    pub fn new(s: &str) -> (r: Result<Parser, SyntaxError>)
        ensures
            match lex_spec(s@) {
                Ok(ts) => r is Ok && r->Ok_0.wf() && r->Ok_0.tokens() == ts && r->Ok_0.index() == 0,
                Err(e) => r is Err && r->Err_0 is Lexical
                    && r->Err_0->Lexical_0.line == position_of(s@, e).0
                    && r->Err_0->Lexical_0.row == position_of(s@, e).1,
            },
    {
        match lex(s) {
            Ok(tokens) => {
                proof {
                    assert(tokens_model(tokens@).last() == tokens@.last()@);
                }
                Ok(Parser { tokens, idx: 0 })
            },
            Err(p) => Err(SyntaxError::Lexical(p)),
        }
    }
}

/// The arguments of a call are compiled in the order of the text: the code of the first
/// argument comes before the code of the others. The walk from the end of the code to
/// its start therefore evaluates the last argument first.
pub proof fn law_arguments_in_text_order(ts: Seq<TokenModel>, i: int)
    requires
        0 <= i < ts.len(),
        !(ts[i] is ClosingParen),
        !(ts[i] is EndOfInput),
        args_code(ts, i) is Ok,
    ensures
        value_code(ts, i) is Ok,
        ({
            let (first, j) = value_code(ts, i)->Ok_0;
            &&& args_code(ts, j) is Ok
            &&& args_code(ts, i)->Ok_0.0 == first + args_code(ts, j)->Ok_0.0
            &&& args_code(ts, i)->Ok_0.1 == args_code(ts, j)->Ok_0.1 + 1
        }),
{
}

} // verus!
