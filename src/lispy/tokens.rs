//! Tokens of the surface syntax.
use vstd::prelude::*;
use vstd::string::*;
use crate::text::{int_text, push_int};
use crate::ty::{TyLit, lit_text};

verus! {

/// A token; its position is its index in the token stream.
#[derive(Eq, Debug, Hash)]
pub enum Token {
    True,
    False,
    Not,
    If,
    Id(String),
    Int(i64),
    Comma,
    Lambda,
    Colon,
    Arrow,
    Dot,
    LParen,
    RParen,
    Bottom,
    TypeLit(TyLit),
}

/// The mathematical value of a token.
pub enum TokV {
    True,
    False,
    Not,
    If,
    Id(Seq<char>),
    Int(i64),
    Comma,
    Lambda,
    Colon,
    Arrow,
    Dot,
    LParen,
    RParen,
    Bottom,
    TypeLit(TyLit),
}

impl View for Token {
    type V = TokV;

    open spec fn view(&self) -> TokV {
        match self {
            Token::True => TokV::True,
            Token::False => TokV::False,
            Token::Not => TokV::Not,
            Token::If => TokV::If,
            Token::Id(s) => TokV::Id(s@),
            Token::Int(n) => TokV::Int(*n),
            Token::Comma => TokV::Comma,
            Token::Lambda => TokV::Lambda,
            Token::Colon => TokV::Colon,
            Token::Arrow => TokV::Arrow,
            Token::Dot => TokV::Dot,
            Token::LParen => TokV::LParen,
            Token::RParen => TokV::RParen,
            Token::Bottom => TokV::Bottom,
            Token::TypeLit(l) => TokV::TypeLit(*l),
        }
    }
}

/// The values of a token sequence.
pub open spec fn toks_view(s: Seq<Token>) -> Seq<TokV> {
    s.map_values(|t: Token| t@)
}

/// The text of a token.
pub open spec fn tok_text(t: TokV) -> Seq<char> {
    match t {
        TokV::True => seq!['#', 'T'],
        TokV::False => seq!['#', 'F'],
        TokV::TypeLit(l) => lit_text(l),
        TokV::Not => seq!['!'],
        TokV::If => seq!['i', 'f'],
        TokV::Id(s) => s,
        TokV::Int(n) => int_text(n as int),
        TokV::Comma => seq![','],
        TokV::Lambda => seq!['/', 'l', 'a', 'm'],
        TokV::Colon => seq![':'],
        TokV::Arrow => seq!['-', '>'],
        TokV::Dot => seq!['.'],
        TokV::LParen => seq!['('],
        TokV::RParen => seq![')'],
        TokV::Bottom => seq!['_', '|', '_'],
    }
}

impl Clone for Token {
    fn clone(&self) -> (r: Token)
        ensures
            r@ == self@,
    {
        match self {
            Token::True => Token::True,
            Token::False => Token::False,
            Token::Not => Token::Not,
            Token::If => Token::If,
            Token::Id(s) => Token::Id(s.clone()),
            Token::Int(n) => Token::Int(*n),
            Token::Comma => Token::Comma,
            Token::Lambda => Token::Lambda,
            Token::Colon => Token::Colon,
            Token::Arrow => Token::Arrow,
            Token::Dot => Token::Dot,
            Token::LParen => Token::LParen,
            Token::RParen => Token::RParen,
            Token::Bottom => Token::Bottom,
            Token::TypeLit(l) => Token::TypeLit(*l),
        }
    }
}

impl PartialEq for Token {
    fn eq(&self, o: &Token) -> (r: bool) {
        match (self, o) {
            (Token::Id(a), Token::Id(b)) => *a == *b,
            (Token::Int(a), Token::Int(b)) => *a == *b,
            (Token::TypeLit(a), Token::TypeLit(b)) => *a == *b,
            (Token::True, Token::True) => true,
            (Token::False, Token::False) => true,
            (Token::Not, Token::Not) => true,
            (Token::If, Token::If) => true,
            (Token::Comma, Token::Comma) => true,
            (Token::Lambda, Token::Lambda) => true,
            (Token::Colon, Token::Colon) => true,
            (Token::Arrow, Token::Arrow) => true,
            (Token::Dot, Token::Dot) => true,
            (Token::LParen, Token::LParen) => true,
            (Token::RParen, Token::RParen) => true,
            (Token::Bottom, Token::Bottom) => true,
            _ => false,
        }
    }
}

impl vstd::std_specs::cmp::PartialEqSpecImpl for Token {
    open spec fn obeys_eq_spec() -> bool {
        true
    }

    open spec fn eq_spec(&self, o: &Token) -> bool {
        self@ == o@
    }
}

impl Token {
    /// The text of this token.
    pub fn unparse(&self) -> (r: String)
        ensures
            r@ == tok_text(self@),
    {
        proof {
            reveal_strlit("#T");
            reveal_strlit("#F");
            reveal_strlit("!");
            reveal_strlit("if");
            reveal_strlit(",");
            reveal_strlit("/lam");
            reveal_strlit(":");
            reveal_strlit("->");
            reveal_strlit(".");
            reveal_strlit("(");
            reveal_strlit(")");
            reveal_strlit("_|_");
        }
        match self {
            Token::True => String::from_str("#T"),
            Token::False => String::from_str("#F"),
            Token::TypeLit(tl) => String::from_str(tl.to_lit()),
            Token::Not => String::from_str("!"),
            Token::If => String::from_str("if"),
            Token::Id(s) => s.clone(),
            Token::Int(n) => {
                let mut s = String::new();
                push_int(&mut s, *n);
                s
            },
            Token::Comma => String::from_str(","),
            Token::Lambda => String::from_str("/lam"),
            Token::Colon => String::from_str(":"),
            Token::Arrow => String::from_str("->"),
            Token::Dot => String::from_str("."),
            Token::LParen => String::from_str("("),
            Token::RParen => String::from_str(")"),
            Token::Bottom => String::from_str("_|_"),
        }
    }
}

} // verus!
