use stlc::error::{Error, ParseError, ParseStage};
use stlc::lispy::get_code;
use stlc::lispy::scan::{parse, Parser};
use stlc::lispy::tokenize::scan;
use stlc::lispy::tokens::Token;
use stlc::toplevel::Term;
use stlc::ty::{Ty, TyLit};

fn get_parser(bytes: &[u8]) -> Result<Term, Error> {
    let lex = scan(bytes).unwrap();
    Parser::new(lex).parse_term()
}

#[test]
fn test_parse() {
    let mut p = get_parser(b"#T");
    assert_eq!(p.unwrap(), Term::True);

    p = get_parser(b"#F");
    assert_eq!(p.unwrap(), Term::False);

    p = get_parser(b"x");
    assert_eq!(p.unwrap(), Term::Var("x".into()));

    p = get_parser(b"( /lam x: #B. x)");
    assert_eq!(p.unwrap(), Term::abs(&[("x", Ty::Base(TyLit::Bool))], Term::var("x")));

    p = get_parser(b"( /lam x: #Int. x)");
    assert_eq!(p.unwrap(), Term::abs(&[("x", Ty::Base(TyLit::Int))], Term::var("x")));

    p = get_parser(b"( /lam x: #Int, t: #B. (if t x 0))");
    assert_eq!(
        p.unwrap(),
        Term::abs(
            &[("x", Ty::Base(TyLit::Int)), ("t", Ty::Base(TyLit::Bool))],
            Term::if_(Term::var("t"), Term::var("x"), Term::Int(0))
        )
    );

    p = get_parser(b"(if (! #T) #T #F)");
    let test = Term::if_(Term::app(Term::Not, &[Term::True]), Term::True, Term::False);
    assert_eq!(p.unwrap(), test);

    p = get_parser(b"(/lam x: (#B -> #B). (x #F))");
    let test = Term::abs(
        &[("x", Ty::arrow(&[TyLit::Bool.into()], TyLit::Bool.into()))],
        Term::app(Term::var("x"), &[Term::False]),
    );
    assert_eq!(p.unwrap(), test);

    p = get_parser(b"((/lam x: (#B -> #B). (x #F)) !)");
    let test = Term::app(
        Term::abs(
            &[("x", Ty::arrow(&[TyLit::Bool.into()], TyLit::Bool.into()))],
            Term::app(Term::var("x"), &[Term::False]),
        ),
        &[Term::Not],
    );
    assert_eq!(p.unwrap(), test);

    p = get_parser(b"((/lam test: #B, val: #Int. (if test val -2000)) #T 2000)");
    let test = Term::app(
        Term::abs(
            &[("test", TyLit::Bool.into()), ("val", TyLit::Int.into())],
            Term::if_(Term::var("test"), Term::var("val"), Term::Int(-2000)),
        ),
        &[Term::True, Term::Int(2000)],
    );
    assert_eq!(p.unwrap(), test);
}

#[test]
fn parse_errors_name_the_token() {
    assert_eq!(
        get_code(b"(if #T #T"),
        Err(Error::Parse(ParseError { stage: ParseStage::EndOfInput, token: None }))
    );
    assert_eq!(
        get_code(b")"),
        Err(Error::Parse(ParseError { stage: ParseStage::Term, token: Some(Token::RParen) }))
    );
    assert_eq!(
        get_code(b"(/lam 3: #B. 3)"),
        Err(Error::Parse(ParseError { stage: ParseStage::Var, token: Some(Token::Int(3)) }))
    );
    assert_eq!(
        get_code(b"(/lam x: #T. x)"),
        Err(Error::Parse(ParseError { stage: ParseStage::Type, token: Some(Token::True) }))
    );
    assert_eq!(
        get_code(b"(/lam x #B. x)"),
        Err(Error::Parse(ParseError {
            stage: ParseStage::Literal,
            token: Some(Token::TypeLit(TyLit::Bool))
        }))
    );
    assert_eq!(
        get_code(b"(f)"),
        Err(Error::Parse(ParseError { stage: ParseStage::Term, token: Some(Token::RParen) }))
    );
    assert_eq!(
        get_code(b"_|_"),
        Err(Error::Parse(ParseError { stage: ParseStage::Term, token: Some(Token::Bottom) }))
    );
}

#[test]
fn trailing_tokens_stay_unread() {
    assert_eq!(parse(scan(b"! )").unwrap()).unwrap(), Term::Not);
    assert_eq!(get_code(b"#T #F").unwrap(), Term::True);
    let mut p = Parser::new(scan(b"(! #T) #F").unwrap());
    assert_eq!(p.parse_term().unwrap(), Term::app(Term::Not, &[Term::True]));
    assert_eq!(p.consumed(), 4);
}

#[test]
fn nested_arrow_types_parse() {
    let t = get_code(b"(/lam f: ((#B -> #Int) -> #B). f)").unwrap();
    let inner = Ty::arrow(&[TyLit::Bool.into()], TyLit::Int.into());
    let ty = Ty::arrow(&[inner], TyLit::Bool.into());
    assert_eq!(t, Term::abs(&[("f", ty)], Term::var("f")));
}

#[test]
fn surface_unparse() {
    let t = get_code(b"((/lam x: #B, y: #Int. (if x y -3)) #T 5)").unwrap();
    assert_eq!(t.unparse(), "((lam x: #B,y: #Int,. (if x y -3)) T 5 )");
    assert_eq!(Term::Bottom.unparse(), "_|_");
    assert!(Term::var("x").is_val());
    assert!(!Term::app(Term::Not, &[Term::True]).is_val());
    assert!(!Term::Bottom.is_val());
    let named = vec![("a".to_string(), Ty::Base(TyLit::Int))];
    assert_eq!(Term::abss(&named, Term::var("a")), Term::abs(&[("a", Ty::Base(TyLit::Int))], Term::var("a")));
}
