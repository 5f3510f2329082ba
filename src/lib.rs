//! Front end of a small simply-typed lambda calculus: a lexer, a parser for
//! named terms, a resolver from names to binder-relative indices and a
//! syntax-directed type checker.
pub mod error;
pub mod text;
pub mod ty;
pub mod term;
pub mod toplevel;
pub mod lispy;
pub mod debrujin;
pub mod typecheck;
pub mod visitor;
pub mod vars;
