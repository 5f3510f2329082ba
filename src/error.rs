//! What can go wrong on the way from text to a type.
use vstd::prelude::*;
use crate::lispy::tokens::{Token, TokV};

verus! {

/// A typing failure.
#[derive(Clone, Copy, PartialEq, Eq, Structural, Debug)]
pub enum TypeError {
    /// A variable index that no binder of the environment matches.
    UnknownVariable,
    /// An application whose function does not have an arrow type.
    NonFunction,
    /// An application with as many arguments as the arrow has not parameters.
    ArityMismatch,
    /// An argument whose type differs from its parameter's.
    ArgumentMismatch,
    /// A conditional whose condition is not boolean.
    ConditionNotBool,
    /// A conditional whose branches differ in type.
    BranchMismatch,
}

/// Where in the grammar the parser stopped.
#[derive(Clone, Copy, PartialEq, Eq, Structural, Debug)]
pub enum ParseStage {
    /// A fixed token was expected.
    Literal,
    /// A parameter name was expected.
    Var,
    /// A type was expected.
    Type,
    /// A term was expected.
    Term,
    /// The tokens ran out.
    EndOfInput,
    /// A step back was asked for before the first token.
    StartOfInput,
}

/// A parse failure: the stage and the offending token (none at the end of
/// the input).
#[derive(Debug, PartialEq, Eq)]
pub struct ParseError {
    pub stage: ParseStage,
    pub token: Option<Token>,
}

/// Any failure of the pipeline.
#[derive(Debug, PartialEq, Eq)]
pub enum Error {
    /// No token rule matches; holds the input that was not consumed.
    Lex(Vec<u8>),
    Parse(ParseError),
    /// An abstraction names this parameter twice.
    DuplicateBinder(String),
    /// This variable has no enclosing binder.
    FreeVariable(String),
    Type(TypeError),
}

/// The mathematical value of a parse failure.
pub struct ParseErrV {
    pub stage: ParseStage,
    pub token: Option<TokV>,
}

/// The mathematical value of a failure.
pub enum ErrorV {
    Lex(Seq<u8>),
    Parse(ParseErrV),
    DuplicateBinder(Seq<char>),
    FreeVariable(Seq<char>),
    Type(TypeError),
}

impl View for ParseError {
    type V = ParseErrV;

    open spec fn view(&self) -> ParseErrV {
        ParseErrV {
            stage: self.stage,
            token: match self.token {
                Some(t) => Some(t@),
                None => None,
            },
        }
    }
}

impl View for Error {
    type V = ErrorV;

    open spec fn view(&self) -> ErrorV {
        match self {
            Error::Lex(rest) => ErrorV::Lex(rest@),
            Error::Parse(e) => ErrorV::Parse(e@),
            Error::DuplicateBinder(x) => ErrorV::DuplicateBinder(x@),
            Error::FreeVariable(x) => ErrorV::FreeVariable(x@),
            Error::Type(e) => ErrorV::Type(*e),
        }
    }
}

} // verus!
