//! The parser: tokens to a surface term, by recursive descent with one
//! token of look-back.
use vstd::prelude::*;
use crate::error::{Error, ErrorV, ParseErrV, ParseError, ParseStage};
use crate::lispy::tokenize::Lex;
use crate::lispy::tokens::{Token, TokV, toks_view};
use crate::toplevel::{NamedV, Term, lemma_nameds_view, nameds_view, params_view};
use crate::ty::{Ty, TyV};

verus! {

/// The failure at the end of the tokens.
pub open spec fn end_err() -> ParseErrV {
    ParseErrV { stage: ParseStage::EndOfInput, token: None }
}

/// The failure at an unexpected token.
pub open spec fn unexpected(stage: ParseStage, t: TokV) -> ParseErrV {
    ParseErrV { stage, token: Some(t) }
}

/// The token `t` at `i`: gives the position after it.
pub open spec fn expect_at(toks: Seq<TokV>, i: int, t: TokV) -> Result<int, ParseErrV> {
    if 0 <= i < toks.len() {
        if toks[i] == t {
            Ok(i + 1)
        } else {
            Err(unexpected(ParseStage::Literal, toks[i]))
        }
    } else {
        Err(end_err())
    }
}

/// Whether `j` is a position after `i` within the tokens. Each step of the
/// parser takes at least one token, so every position it reaches from `i`
/// is one.
pub open spec fn advances(toks: Seq<TokV>, i: int, j: int) -> bool {
    i < j <= toks.len()
}

/// A type at `i`: a base type, or `( T -> T )`. Gives the type and the
/// position after it.
pub open spec fn ty_at(toks: Seq<TokV>, i: int) -> Result<(TyV, int), ParseErrV>
    decreases toks.len() - i,
{
    if !(0 <= i < toks.len()) {
        Err(end_err())
    } else {
        match toks[i] {
            TokV::TypeLit(l) => Ok((TyV::Base(l), i + 1)),
            TokV::LParen => match ty_at(toks, i + 1) {
                Err(e) => Err(e),
                Ok((t1, j)) => match expect_at(toks, j, TokV::Arrow) {
                    Err(e) => Err(e),
                    Ok(k) => if !advances(toks, i, k) {
                        Err(end_err())
                    } else {
                        match ty_at(toks, k) {
                            Err(e) => Err(e),
                            Ok((t2, m)) => match expect_at(toks, m, TokV::RParen) {
                                Err(e) => Err(e),
                                Ok(q) => Ok((TyV::Arrow(seq![t1], Box::new(t2)), q)),
                            },
                        }
                    },
                },
            },
            t => Err(unexpected(ParseStage::Type, t)),
        }
    }
}

/// A term at `i`, and the position after it. After `(` comes `/lam` for an
/// abstraction, `if` for a conditional, and otherwise an application whose
/// function starts at that token.
pub open spec fn term_at(toks: Seq<TokV>, i: int) -> Result<(NamedV, int), ParseErrV>
    decreases toks.len() - i, 0int,
{
    if !(0 <= i < toks.len()) {
        Err(end_err())
    } else {
        match toks[i] {
            TokV::True => Ok((NamedV::True, i + 1)),
            TokV::False => Ok((NamedV::False, i + 1)),
            TokV::Not => Ok((NamedV::Not, i + 1)),
            TokV::LParen => if i + 1 >= toks.len() {
                Err(end_err())
            } else {
                match toks[i + 1] {
                    TokV::Lambda => lambda_at(toks, i + 2),
                    TokV::If => if_at(toks, i + 2),
                    _ => app_at(toks, i + 1),
                }
            },
            TokV::Id(x) => Ok((NamedV::Var(x), i + 1)),
            TokV::Int(n) => Ok((NamedV::Int(n), i + 1)),
            t => Err(unexpected(ParseStage::Term, t)),
        }
    }
}

/// An application at `i`: the function, then one or more arguments up to
/// `)`.
pub open spec fn app_at(toks: Seq<TokV>, i: int) -> Result<(NamedV, int), ParseErrV>
    decreases toks.len() - i, 1int,
{
    match term_at(toks, i) {
        Err(e) => Err(e),
        Ok((f, j)) => if !advances(toks, i, j) {
            Err(end_err())
        } else {
            match args_at(toks, j) {
                Err(e) => Err(e),
                Ok((args, k)) => Ok((NamedV::App(Box::new(f), args), k)),
            }
        },
    }
}

/// Arguments at `i`: terms, until one is followed by `)`.
pub open spec fn args_at(toks: Seq<TokV>, i: int) -> Result<(Seq<NamedV>, int), ParseErrV>
    decreases toks.len() - i, 1int,
{
    match term_at(toks, i) {
        Err(e) => Err(e),
        Ok((x, j)) => if !advances(toks, i, j) {
            Err(end_err())
        } else if 0 <= j < toks.len() && toks[j] == TokV::RParen {
            Ok((seq![x], j + 1))
        } else {
            match args_at(toks, j) {
                Err(e) => Err(e),
                Ok((xs, k)) => Ok((seq![x] + xs, k)),
            }
        },
    }
}

/// A conditional after `( if`: three terms and `)`.
pub open spec fn if_at(toks: Seq<TokV>, i: int) -> Result<(NamedV, int), ParseErrV>
    decreases toks.len() - i, 1int,
{
    match term_at(toks, i) {
        Err(e) => Err(e),
        Ok((c, j)) => if !advances(toks, i, j) {
            Err(end_err())
        } else {
            match term_at(toks, j) {
                Err(e) => Err(e),
                Ok((a, k)) => if !advances(toks, j, k) {
                    Err(end_err())
                } else {
                    match term_at(toks, k) {
                        Err(e) => Err(e),
                        Ok((b, m)) => match expect_at(toks, m, TokV::RParen) {
                            Err(e) => Err(e),
                            Ok(q) => Ok((NamedV::If(Box::new(c), Box::new(a), Box::new(b)), q)),
                        },
                    }
                },
            }
        },
    }
}

/// A parameter name at `i`.
pub open spec fn var_at(toks: Seq<TokV>, i: int) -> Result<(Seq<char>, int), ParseErrV> {
    if !(0 <= i < toks.len()) {
        Err(end_err())
    } else {
        match toks[i] {
            TokV::Id(x) => Ok((x, i + 1)),
            t => Err(unexpected(ParseStage::Var, t)),
        }
    }
}

/// A parameter list at `i`: `name : T`, separated by `,`.
pub open spec fn params_at(toks: Seq<TokV>, i: int) -> Result<(Seq<(Seq<char>, TyV)>, int), ParseErrV>
    decreases toks.len() - i,
{
    match var_at(toks, i) {
        Err(e) => Err(e),
        Ok((x, j)) => match expect_at(toks, j, TokV::Colon) {
            Err(e) => Err(e),
            Ok(k) => match ty_at(toks, k) {
                Err(e) => Err(e),
                Ok((t, m)) => if 0 <= m < toks.len() && toks[m] == TokV::Comma {
                    if !advances(toks, i, m + 1) {
                        Err(end_err())
                    } else {
                        match params_at(toks, m + 1) {
                            Err(e) => Err(e),
                            Ok((ps, q)) => Ok((seq![(x, t)] + ps, q)),
                        }
                    }
                } else {
                    Ok((seq![(x, t)], m))
                },
            },
        },
    }
}

/// An abstraction after `( /lam`: parameters, `.`, the body and `)`.
pub open spec fn lambda_at(toks: Seq<TokV>, i: int) -> Result<(NamedV, int), ParseErrV>
    decreases toks.len() - i, 1int,
{
    match params_at(toks, i) {
        Err(e) => Err(e),
        Ok((ps, j)) => match expect_at(toks, j, TokV::Dot) {
            Err(e) => Err(e),
            Ok(k) => if !advances(toks, i, k) {
                Err(end_err())
            } else {
                match term_at(toks, k) {
                    Err(e) => Err(e),
                    Ok((b, m)) => match expect_at(toks, m, TokV::RParen) {
                        Err(e) => Err(e),
                        Ok(q) => Ok((NamedV::Abs(ps, Box::new(b)), q)),
                    },
                }
            },
        },
    }
}

/// The term that the tokens start with.
pub open spec fn parse_tokens(toks: Seq<TokV>) -> Result<NamedV, ParseErrV> {
    match term_at(toks, 0) {
        Ok((t, _)) => Ok(t),
        Err(e) => Err(e),
    }
}

/// Whether an executable result with the cursor at `idx` matches a
/// specified one.
pub open spec fn matches_at<T: View>(r: Result<T, Error>, idx: int, s: Result<(T::V, int), ParseErrV>) -> bool {
    match s {
        Ok((v, j)) => match r {
            Ok(x) => x@ == v && idx == j,
            Err(_) => false,
        },
        Err(e) => match r {
            Ok(_) => false,
            Err(x) => x@ == ErrorV::Parse(e),
        },
    }
}

/// A parser over the tokens of one input, with a cursor at the next token.
pub struct Parser {
    lex: Lex,
    idx: usize,
}

fn end_error() -> (r: Error)
    ensures
        r@ == ErrorV::Parse(end_err()),
{
    Error::Parse(ParseError { stage: ParseStage::EndOfInput, token: None })
}

fn unexpected_error(stage: ParseStage, t: Token) -> (r: Error)
    ensures
        r@ == ErrorV::Parse(unexpected(stage, t@)),
{
    Error::Parse(ParseError { stage, token: Some(t) })
}

impl Parser {
    /// The token values.
    pub closed spec fn toks(&self) -> Seq<TokV> {
        toks_view(self.lex.tokens@)
    }

    /// The position of the next token.
    pub closed spec fn pos(&self) -> int {
        self.idx as int
    }

    /// A parser at the first token of `lex`.
    pub fn new(lex: Lex) -> (p: Parser)
        ensures
            p.toks() == toks_view(lex.tokens@),
            p.pos() == 0,
    {
        Parser { lex, idx: 0 }
    }

    /// How many tokens have been read: after `parse_term`, the number of
    /// tokens the term spans.
    pub fn consumed(&self) -> (r: usize)
        ensures
            r == self.pos(),
    {
        self.idx
    }

    /// Takes the next token.
    fn next(&mut self) -> (r: Result<Token, Error>)
        requires
            old(self).idx <= old(self).lex.tokens@.len(),
        ensures
            final(self).lex == old(self).lex,
            old(self).idx < old(self).lex.tokens@.len() ==> (r matches Ok(t) && t@ == old(self).toks()[old(self).idx as int]
                && final(self).idx == old(self).idx + 1),
            old(self).idx >= old(self).lex.tokens@.len() ==> (r matches Err(e) && e@ == ErrorV::Parse(end_err())
                && final(self).idx == old(self).idx),
    {
        if self.idx < self.lex.tokens.len() {
            let t = self.lex.tokens[self.idx].clone();
            self.idx += 1;
            Ok(t)
        } else {
            Err(end_error())
        }
    }

    /// Steps back over the last token taken and gives it.
    fn prev(&mut self) -> (r: Result<Token, Error>)
        requires
            old(self).idx <= old(self).lex.tokens@.len(),
        ensures
            final(self).lex == old(self).lex,
            old(self).idx > 0 ==> (r matches Ok(t) && t@ == old(self).toks()[old(self).idx - 1]
                && final(self).idx == old(self).idx - 1),
            old(self).idx == 0 ==> (r matches Err(e) && e@ == ErrorV::Parse(
                ParseErrV { stage: ParseStage::StartOfInput, token: None },
            ) && final(self).idx == 0),
    {
        if self.idx > 0 {
            self.idx -= 1;
            Ok(self.lex.tokens[self.idx].clone())
        } else {
            Err(Error::Parse(ParseError { stage: ParseStage::StartOfInput, token: None }))
        }
    }

    /// Takes the next token, which must be `token`.
    fn expect(&mut self, token: Token) -> (r: Result<(), Error>)
        requires
            old(self).idx <= old(self).lex.tokens@.len(),
        ensures
            final(self).lex == old(self).lex,
            match expect_at(old(self).toks(), old(self).idx as int, token@) {
                Ok(j) => r is Ok && final(self).idx == j,
                Err(e) => r matches Err(x) && x@ == ErrorV::Parse(e),
            },
            final(self).idx <= final(self).lex.tokens@.len(),
    {
        let t = match self.next() {
            Ok(t) => t,
            Err(e) => return Err(e),
        };
        if t == token {
            Ok(())
        } else {
            Err(unexpected_error(ParseStage::Literal, t))
        }
    }

    /// Whether the next token is `token`, without taking it.
    fn peek_expect(&self, token: &Token) -> (r: bool)
        requires
            self.idx <= self.lex.tokens@.len(),
        ensures
            r == (self.idx < self.lex.tokens@.len() && self.toks()[self.idx as int] == token@),
    {
        self.idx < self.lex.tokens.len() && self.lex.tokens[self.idx] == *token
    }

    /// Steps over the next token.
    fn skip(&mut self)
        requires
            old(self).idx < old(self).lex.tokens@.len(),
        ensures
            final(self).lex == old(self).lex,
            final(self).idx == old(self).idx + 1,
    {
        if self.idx < self.lex.tokens.len() {
            self.idx += 1;
        }
    }

    fn parse_ty(&mut self) -> (r: Result<Ty, Error>)
        requires
            old(self).pos() <= old(self).toks().len(),
        ensures
            final(self).toks() == old(self).toks(),
            final(self).pos() <= final(self).toks().len(),
            matches_at(r, final(self).idx as int, ty_at(old(self).toks(), old(self).idx as int)),
            r is Ok ==> old(self).idx < final(self).idx,
        decreases old(self).lex.tokens@.len() - old(self).idx,
    {
        let t = match self.next() {
            Ok(t) => t,
            Err(e) => return Err(e),
        };
        match t {
            Token::TypeLit(lit) => Ok(Ty::Base(lit)),
            Token::LParen => {
                let ty1 = match self.parse_ty() {
                    Ok(t) => t,
                    Err(e) => return Err(e),
                };
                match self.expect(Token::Arrow) {
                    Ok(()) => {},
                    Err(e) => return Err(e),
                }
                let ty2 = match self.parse_ty() {
                    Ok(t) => t,
                    Err(e) => return Err(e),
                };
                match self.expect(Token::RParen) {
                    Ok(()) => {},
                    Err(e) => return Err(e),
                }
                let mut ps: Vec<Ty> = Vec::new();
                ps.push(ty1);
                proof {
                    crate::ty::lemma_tys_view(ps@);
                    assert(crate::ty::tys_view(ps@) =~= seq![ty1@]);
                }
                Ok(Ty::Arrow(ps, Box::new(ty2)))
            },
            t => Err(unexpected_error(ParseStage::Type, t)),
        }
    }

    fn parse_var(&mut self) -> (r: Result<Term, Error>)
        requires
            old(self).pos() <= old(self).toks().len(),
        ensures
            final(self).toks() == old(self).toks(),
            final(self).pos() <= final(self).toks().len(),
            match var_at(old(self).toks(), old(self).idx as int) {
                Ok((x, j)) => r matches Ok(v) && v@ == NamedV::Var(x) && final(self).idx == j,
                Err(e) => r matches Err(v) && v@ == ErrorV::Parse(e),
            },
    {
        let t = match self.next() {
            Ok(t) => t,
            Err(e) => return Err(e),
        };
        if let Token::Id(name) = t {
            Ok(Term::Var(name))
        } else {
            Err(unexpected_error(ParseStage::Var, t))
        }
    }

    fn parse_params(&mut self) -> (r: Result<Vec<(String, Ty)>, Error>)
        requires
            old(self).pos() <= old(self).toks().len(),
        ensures
            final(self).toks() == old(self).toks(),
            final(self).pos() <= final(self).toks().len(),
            match params_at(old(self).toks(), old(self).idx as int) {
                Ok((ps, j)) => r matches Ok(v) && params_view(v@) == ps && final(self).idx == j,
                Err(e) => r matches Err(v) && v@ == ErrorV::Parse(e),
            },
            r is Ok ==> old(self).idx < final(self).idx,
        decreases old(self).lex.tokens@.len() - old(self).idx,
    {
        let var = match self.parse_var() {
            Ok(v) => v,
            Err(e) => return Err(e),
        };
        let name = match var {
            Term::Var(x) => x,
            _ => {
                assert(false);
                return Err(end_error());
            },
        };
        match self.expect(Token::Colon) {
            Ok(()) => {},
            Err(e) => return Err(e),
        }
        let ty = match self.parse_ty() {
            Ok(t) => t,
            Err(e) => return Err(e),
        };
        if self.peek_expect(&Token::Comma) {
            self.skip();
            let mut rest = match self.parse_params() {
                Ok(v) => v,
                Err(e) => return Err(e),
            };
            let ghost old_rest = rest@;
            rest.insert(0, (name, ty));
            proof {
                assert(rest@ =~= seq![rest@[0]] + old_rest);
                assert(params_view(rest@) =~= seq![(rest@[0].0@, rest@[0].1@)] + params_view(old_rest));
            }
            Ok(rest)
        } else {
            let v = vec![(name, ty)];
            proof {
                assert(params_view(v@) =~= seq![(v@[0].0@, v@[0].1@)]);
            }
            Ok(v)
        }
    }

    fn parse_lambda(&mut self) -> (r: Result<Term, Error>)
        requires
            old(self).pos() <= old(self).toks().len(),
        ensures
            final(self).toks() == old(self).toks(),
            final(self).pos() <= final(self).toks().len(),
            matches_at(r, final(self).idx as int, lambda_at(old(self).toks(), old(self).idx as int)),
            r is Ok ==> old(self).idx < final(self).idx,
        decreases old(self).toks().len() - old(self).pos(), 1int,
    {
        let args = match self.parse_params() {
            Ok(v) => v,
            Err(e) => return Err(e),
        };
        match self.expect(Token::Dot) {
            Ok(()) => {},
            Err(e) => return Err(e),
        }
        let body = match self.parse_term() {
            Ok(t) => t,
            Err(e) => return Err(e),
        };
        match self.expect(Token::RParen) {
            Ok(()) => {},
            Err(e) => return Err(e),
        }
        Ok(Term::Abs(args, Box::new(body)))
    }

    fn parse_args(&mut self) -> (r: Result<Vec<Term>, Error>)
        requires
            old(self).pos() <= old(self).toks().len(),
        ensures
            final(self).toks() == old(self).toks(),
            final(self).pos() <= final(self).toks().len(),
            match args_at(old(self).toks(), old(self).idx as int) {
                Ok((xs, j)) => r matches Ok(v) && nameds_view(v@) == xs && final(self).idx == j,
                Err(e) => r matches Err(v) && v@ == ErrorV::Parse(e),
            },
            r is Ok ==> old(self).idx < final(self).idx,
        decreases old(self).toks().len() - old(self).pos(), 1int,
    {
        let x = match self.parse_term() {
            Ok(t) => t,
            Err(e) => return Err(e),
        };
        if self.peek_expect(&Token::RParen) {
            self.skip();
            let v = vec![x];
            proof {
                lemma_nameds_view(v@);
                assert(nameds_view(v@) =~= seq![v@[0]@]);
            }
            Ok(v)
        } else {
            let mut rest = match self.parse_args() {
                Ok(v) => v,
                Err(e) => return Err(e),
            };
            let ghost old_rest = rest@;
            rest.insert(0, x);
            proof {
                lemma_nameds_view(rest@);
                lemma_nameds_view(old_rest);
                assert(nameds_view(rest@) =~= seq![rest@[0]@] + nameds_view(old_rest));
            }
            Ok(rest)
        }
    }

    fn parse_app(&mut self) -> (r: Result<Term, Error>)
        requires
            1 <= old(self).pos() <= old(self).toks().len(),
        ensures
            final(self).toks() == old(self).toks(),
            final(self).pos() <= final(self).toks().len(),
            matches_at(r, final(self).idx as int, app_at(old(self).toks(), old(self).idx - 1)),
            r is Ok ==> old(self).idx - 1 < final(self).idx,
        decreases old(self).toks().len() - old(self).pos() + 1, 1int,
    {
        match self.prev() {
            Ok(_) => {},
            Err(e) => return Err(e),
        }
        let f = match self.parse_term() {
            Ok(t) => t,
            Err(e) => return Err(e),
        };
        let args = match self.parse_args() {
            Ok(v) => v,
            Err(e) => return Err(e),
        };
        Ok(Term::App(Box::new(f), args))
    }

    fn parse_if(&mut self) -> (r: Result<Term, Error>)
        requires
            old(self).pos() <= old(self).toks().len(),
        ensures
            final(self).toks() == old(self).toks(),
            final(self).pos() <= final(self).toks().len(),
            matches_at(r, final(self).idx as int, if_at(old(self).toks(), old(self).idx as int)),
            r is Ok ==> old(self).idx < final(self).idx,
        decreases old(self).toks().len() - old(self).pos(), 1int,
    {
        let cond = match self.parse_term() {
            Ok(t) => t,
            Err(e) => return Err(e),
        };
        let pass = match self.parse_term() {
            Ok(t) => t,
            Err(e) => return Err(e),
        };
        let fail = match self.parse_term() {
            Ok(t) => t,
            Err(e) => return Err(e),
        };
        match self.expect(Token::RParen) {
            Ok(()) => {},
            Err(e) => return Err(e),
        }
        Ok(Term::If(Box::new(cond), Box::new(pass), Box::new(fail)))
    }

    /// Parses one term from the cursor on.
    pub fn parse_term(&mut self) -> (r: Result<Term, Error>)
        requires
            old(self).pos() <= old(self).toks().len(),
        ensures
            final(self).toks() == old(self).toks(),
            final(self).pos() <= final(self).toks().len(),
            matches_at(r, final(self).pos(), term_at(old(self).toks(), old(self).pos())),
            r is Ok ==> old(self).pos() < final(self).pos(),
        decreases old(self).toks().len() - old(self).pos(), 0int,
    {
        let tok = match self.next() {
            Ok(t) => t,
            Err(e) => return Err(e),
        };
        match tok {
            Token::True => Ok(Term::True),
            Token::False => Ok(Term::False),
            Token::Not => Ok(Term::Not),
            Token::LParen => {
                let t2 = match self.next() {
                    Ok(t) => t,
                    Err(e) => return Err(e),
                };
                match t2 {
                    Token::Lambda => self.parse_lambda(),
                    Token::If => self.parse_if(),
                    _ => self.parse_app(),
                }
            },
            Token::Id(x) => Ok(Term::Var(x)),
            Token::Int(n) => Ok(Term::Int(n)),
            t => Err(unexpected_error(ParseStage::Term, t)),
        }
    }
}

/// The term that the tokens of `tokens` start with; tokens after it are
/// left unread.
pub fn parse(tokens: Lex) -> (r: Result<Term, Error>)
    ensures
        match parse_tokens(toks_view(tokens.tokens@)) {
            Ok(t) => r matches Ok(x) && x@ == t,
            Err(e) => r matches Err(x) && x@ == ErrorV::Parse(e),
        },
{
    let mut p = Parser::new(tokens);
    p.parse_term()
}

} // verus!
