//! The surface syntax: tokens, the lexer and the parser.
pub mod tokens;
pub mod tokenize;
pub mod scan;

use vstd::prelude::*;
use crate::error::{Error, ErrorV};
use crate::lispy::scan::{parse, parse_tokens};
use crate::lispy::tokenize::{lex, lex_from, scan};
use crate::toplevel::{NamedV, Term};

verus! {

/// What reading `s` gives: the term that its tokens start with, or the
/// failure of the lexer or of the parser.
pub open spec fn read_code(s: Seq<u8>) -> Result<NamedV, ErrorV> {
    match lex(s) {
        None => Err(ErrorV::Lex(s.subrange(lex_from(s, 0).1, s.len() as int))),
        Some(ts) => match parse_tokens(ts) {
            Ok(t) => Ok(t),
            Err(e) => Err(ErrorV::Parse(e)),
        },
    }
}

/// Lexes the whole of `data` and parses one term from its tokens.
pub fn get_code(data: &[u8]) -> (r: Result<Term, Error>)
    ensures
        match read_code(data@) {
            Ok(t) => r matches Ok(x) && x@ == t,
            Err(e) => r matches Err(x) && x@ == e,
        },
{
    let lex = match scan(data) {
        Ok(l) => l,
        Err(e) => return Err(e),
    };
    parse(lex)
}

} // verus!
