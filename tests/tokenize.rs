use stlc::error::Error;
use stlc::lispy::tokenize::{integer, scan, tokenize, variable};
use stlc::lispy::tokens::Token as T;
use stlc::ty::TyLit;

#[test]
fn test_parse_int() {
    let res = integer(b"0");
    assert_eq!(res.unwrap().1, T::Int(0));

    assert!(integer(b"#").is_none());

    let res = integer(b"-534");
    assert_eq!(res.unwrap().1, T::Int(-534));

    let res = integer(b"+534");
    assert_eq!(res.unwrap().1, T::Int(534));
}

#[test]
fn tokenize_test_parse_variable() {
    assert_eq!(variable(b"a1v1a1r").unwrap().1, T::Id("a1v1a1r".into()));
    assert!(variable(b"2badvar").is_none());
    assert_eq!(variable(b"GoodVar").unwrap().1, T::Id("GoodVar".into()));
    assert_eq!(variable(b"almost-goodvar").unwrap().1, T::Id("almost".into()));
}

#[test]
fn test_tokenize() {
    let mut p = tokenize(b"#T");
    assert_eq!(p.1, vec![T::True]);

    p = tokenize(b"#F");
    assert_eq!(p.1, vec![T::False]);

    p = tokenize(b"x");
    assert_eq!(p.1, vec![T::Id("x".into())]);

    p = tokenize(b"( /lam x: #B. x)");
    assert_eq!(
        p.1,
        vec![
            T::LParen,
            T::Lambda,
            T::Id("x".into()),
            T::Colon,
            T::TypeLit(TyLit::Bool),
            T::Dot,
            T::Id("x".into()),
            T::RParen
        ]
    );

    p = tokenize(b"(if #T #T #F)");
    let test = vec![T::LParen, T::If, T::True, T::True, T::False, T::RParen];
    assert_eq!(p.1, test);

    p = tokenize(b"(if #T +100 -2)");
    let test = vec![T::LParen, T::If, T::True, T::Int(100), T::Int(-2), T::RParen];
    assert_eq!(p.1, test);

    p = tokenize(b"( /lam x: #Int. x)");
    let test = vec![
        T::LParen,
        T::Lambda,
        T::Id("x".into()),
        T::Colon,
        T::TypeLit(TyLit::Int),
        T::Dot,
        T::Id("x".into()),
        T::RParen,
    ];
    assert_eq!(p.1, test);

    p = tokenize(b"(/lam x: #B. (if x +100 -2))");
    let test = vec![
        T::LParen,
        T::Lambda,
        T::Id("x".into()),
        T::Colon,
        T::TypeLit(TyLit::Bool),
        T::Dot,
        T::LParen,
        T::If,
        T::Id("x".into()),
        T::Int(100),
        T::Int(-2),
        T::RParen,
        T::RParen,
    ];
    assert_eq!(p.1, test);

    p = tokenize(b"(if (! #T) #T #F)");
    let test = vec![
        T::LParen,
        T::If,
        T::LParen,
        T::Not,
        T::True,
        T::RParen,
        T::True,
        T::False,
        T::RParen,
    ];
    assert_eq!(p.1, test);

    p = tokenize(b"((/lam x: (#B -> #B). (x #F)) !)");
    let test = vec![
        T::LParen,
        T::LParen,
        T::Lambda,
        T::Id("x".into()),
        T::Colon,
        T::LParen,
        T::TypeLit(TyLit::Bool),
        T::Arrow,
        T::TypeLit(TyLit::Bool),
        T::RParen,
        T::Dot,
        T::LParen,
        T::Id("x".into()),
        T::False,
        T::RParen,
        T::RParen,
        T::Not,
        T::RParen,
    ];
    assert_eq!(p.1, test);

    p = tokenize(b"((/lam test: #B, val: #Int. (if test val -2000)) #T 2000)");
    let test = vec![
        T::LParen,
        T::LParen,
        T::Lambda,
        T::Id("test".into()),
        T::Colon,
        T::TypeLit(TyLit::Bool),
        T::Comma,
        T::Id("val".into()),
        T::Colon,
        T::TypeLit(TyLit::Int),
        T::Dot,
        T::LParen,
        T::If,
        T::Id("test".into()),
        T::Id("val".into()),
        T::Int(-2000),
        T::RParen,
        T::RParen,
        T::True,
        T::Int(2000),
        T::RParen,
    ];
    assert_eq!(p.1, test);
}

fn one_token(text: &str) -> T {
    let lex = scan(text.as_bytes()).unwrap();
    assert_eq!(lex.tokens.len(), 1, "{}", text);
    lex.tokens[0].clone()
}

#[test]
fn minimal_literals_lex_to_one_token() {
    assert_eq!(one_token("#T"), T::True);
    assert_eq!(one_token("#F"), T::False);
    assert_eq!(one_token("!"), T::Not);
    assert_eq!(one_token("if"), T::If);
    assert_eq!(one_token("x"), T::Id("x".into()));
    assert_eq!(one_token("7"), T::Int(7));
    assert_eq!(one_token(","), T::Comma);
    assert_eq!(one_token("/lam"), T::Lambda);
    assert_eq!(one_token(":"), T::Colon);
    assert_eq!(one_token("#B"), T::TypeLit(TyLit::Bool));
    assert_eq!(one_token("#Int"), T::TypeLit(TyLit::Int));
    assert_eq!(one_token("->"), T::Arrow);
    assert_eq!(one_token("."), T::Dot);
    assert_eq!(one_token("("), T::LParen);
    assert_eq!(one_token(")"), T::RParen);
    assert_eq!(one_token("_|_"), T::Bottom);
}

#[test]
fn token_text_lexes_back() {
    let toks = vec![
        T::True,
        T::False,
        T::Not,
        T::If,
        T::Id("abc9".into()),
        T::Int(-42),
        T::Int(i64::MIN),
        T::Int(i64::MAX),
        T::Comma,
        T::Lambda,
        T::Colon,
        T::Arrow,
        T::Dot,
        T::LParen,
        T::RParen,
        T::Bottom,
        T::TypeLit(TyLit::Bool),
        T::TypeLit(TyLit::Int),
    ];
    for t in toks {
        assert_eq!(one_token(&t.unparse()), t);
    }
}

#[test]
fn keyword_prefix_splits_identifier() {
    assert_eq!(tokenize(b"iffy").1, vec![T::If, T::Id("fy".into())]);
}

#[test]
fn whitespace_kinds_are_skipped() {
    let lex = scan(b" \t#T\r\n #F \n").unwrap();
    assert_eq!(lex.tokens, vec![T::True, T::False]);
    assert_eq!(lex.orig, " \t#T\r\n #F \n");
    assert_eq!(scan(b"").unwrap().tokens, vec![]);
}

#[test]
fn integer_limits() {
    assert_eq!(integer(b"-9223372036854775808").unwrap(), (20, T::Int(i64::MIN)));
    assert_eq!(integer(b"9223372036854775807").unwrap(), (19, T::Int(i64::MAX)));
    assert!(integer(b"9223372036854775808").is_none());
    assert!(integer(b"-").is_none());
    assert_eq!(integer(b"007x").unwrap(), (3, T::Int(7)));
}

#[test]
fn lex_error_keeps_the_rest() {
    match scan(b"(x $)") {
        Err(Error::Lex(rest)) => assert_eq!(rest, b"$)".to_vec()),
        _ => panic!("expected a lexical error"),
    }
    match scan(b"#") {
        Err(Error::Lex(rest)) => assert_eq!(rest, b"#".to_vec()),
        _ => panic!("expected a lexical error"),
    }
    assert_eq!(tokenize(b"#T $").0, 3);
}

#[test]
fn identifier_text_is_copied() {
    assert_eq!(variable(b"Zz9 ").unwrap(), (3, T::Id("Zz9".into())));
}
