use stlc::debrujin::RenameVisitor;
use stlc::error::TypeError;
use stlc::lispy;
use stlc::term::Term;
use stlc::ty::{Ty, TyLit};
use stlc::typecheck::{fold_abs, fold_app, fold_if, TypeCheckVisitor};

fn get(s: &str) -> Term {
    let tl = lispy::get_code(s.as_bytes()).unwrap();

    let mut rv = RenameVisitor::new();
    rv.rename_term(&tl).unwrap()
}

#[test]
fn test_tyck() {
    let mut tc = TypeCheckVisitor::new();

    assert_eq!(tc.type_of(&get("#T")).unwrap(), TyLit::Bool.into());
    assert_eq!(
        tc.type_of(&get("!")).unwrap(),
        Ty::arrow(&[TyLit::Bool.into()], TyLit::Bool.into())
    );
    assert_eq!(
        tc.type_of(&get("(/lam x: #B.x)")).unwrap(),
        Ty::arrow(&[TyLit::Bool.into()], TyLit::Bool.into())
    );
    assert_eq!(tc.type_of(&get("(! #T)")).unwrap(), TyLit::Bool.into());
    assert_eq!(
        tc.type_of(&get("!")).unwrap(),
        Ty::arrow(&[TyLit::Bool.into()], TyLit::Bool.into())
    );
    assert_eq!(tc.type_of(&get("((/lam x: #B.x) #T)")).unwrap(), TyLit::Bool.into());
    assert_eq!(tc.type_of(&get("((/lam x: #Int.x) 200)")).unwrap(), TyLit::Int.into());
    assert_eq!(
        tc.type_of(&get("(if (! #F) ! (/lam x: #B. x))")).unwrap(),
        Ty::arrow(&[TyLit::Bool.into()], TyLit::Bool.into())
    );

    let ast = get("( /lam x: #Int, t: #B. (if t x 0))");
    println!("{:?}", ast);
    assert_eq!(
        tc.type_of(&ast).unwrap(),
        Ty::arrow(&[TyLit::Int.into(), TyLit::Bool.into()], TyLit::Int.into())
    );

    let ast = get("((/lam test: #B, val: #Int, dummy: #Int. (if test val -2000)) #T 2000 0)");
    println!("{:?}", ast);
    assert_eq!(tc.type_of(&ast).unwrap(), TyLit::Int.into());
}

#[test]
fn typing_of_basic_terms() {
    let mut tc = TypeCheckVisitor::new();
    assert_eq!(tc.type_of(&get("#T")), Ok(Ty::Base(TyLit::Bool)));
    assert_eq!(
        tc.type_of(&get("!")),
        Ok(Ty::arrow(&[Ty::Base(TyLit::Bool)], Ty::Base(TyLit::Bool)))
    );
    assert_eq!(tc.type_of(&get("(! #T)")), Ok(Ty::Base(TyLit::Bool)));
    assert_eq!(
        tc.type_of(&get("(/lam x:#Int. x)")),
        Ok(Ty::arrow(&[Ty::Base(TyLit::Int)], Ty::Base(TyLit::Int)))
    );
    assert_eq!(tc.type_of(&get("((/lam x:#Int. x) 200)")), Ok(Ty::Base(TyLit::Int)));
    assert_eq!(tc.type_of(&Term::Stuck), Ok(Ty::Bottom));
}

#[test]
fn typing_failures() {
    let mut tc = TypeCheckVisitor::new();
    assert_eq!(tc.type_of(&get("(if #T #T 0)")), Err(TypeError::BranchMismatch));
    assert_eq!(tc.type_of(&get("(if 0 #T #F)")), Err(TypeError::ConditionNotBool));
    assert_eq!(tc.type_of(&get("(if 0 #T 0)")), Err(TypeError::ConditionNotBool));
    assert_eq!(tc.type_of(&get("(#T #F)")), Err(TypeError::NonFunction));
    assert_eq!(tc.type_of(&Term::app(Term::Not, &[])), Err(TypeError::ArityMismatch));
    assert_eq!(tc.type_of(&get("(! #T #F)")), Err(TypeError::ArityMismatch));
    assert_eq!(tc.type_of(&get("(! 0)")), Err(TypeError::ArgumentMismatch));
    assert_eq!(tc.type_of(&Term::Var(1)), Err(TypeError::UnknownVariable));
    assert_eq!(tc.type_of(&Term::Var(0)), Err(TypeError::UnknownVariable));
    // the checker is usable again after a failure
    assert_eq!(tc.type_of(&get("5")), Ok(Ty::Base(TyLit::Int)));
}

#[test]
fn fold_rules() {
    let b = || Ok(Ty::Base(TyLit::Bool));
    let i = || Ok(Ty::Base(TyLit::Int));
    assert_eq!(fold_if(b(), i(), i()), Ok(Ty::Base(TyLit::Int)));
    assert_eq!(fold_if(Err(TypeError::NonFunction), i(), b()), Err(TypeError::NonFunction));
    let not = Ok(Ty::arrow(&[Ty::Base(TyLit::Bool)], Ty::Base(TyLit::Bool)));
    assert_eq!(fold_app(not.clone(), &[b()]), Ok(Ty::Base(TyLit::Bool)));
    assert_eq!(fold_app(not.clone(), &[i()]), Err(TypeError::ArgumentMismatch));
    assert_eq!(fold_app(not, &[Err(TypeError::UnknownVariable)]), Err(TypeError::UnknownVariable));
    assert_eq!(
        fold_abs(&[Ty::Base(TyLit::Int)], b()),
        Ok(Ty::arrow(&[Ty::Base(TyLit::Int)], Ty::Base(TyLit::Bool)))
    );
}

#[test]
fn type_text() {
    let t = Ty::arrow(
        &[Ty::Base(TyLit::Bool), Ty::arrow(&[Ty::Base(TyLit::Int)], Ty::Bottom)],
        Ty::Base(TyLit::Int),
    );
    assert_eq!(t.unparse(), "(#B, (#Int -> _|_) -> #Int)");
    assert_eq!(Ty::arrow(&[], Ty::Bottom).unparse(), "( -> _|_)");
    assert_eq!(TyLit::from_lit("#Int"), Some(TyLit::Int));
    assert_eq!(TyLit::from_lit("#B"), Some(TyLit::Bool));
    assert_eq!(TyLit::from_lit("#b"), None);
    assert_eq!(TyLit::Int.to_lit(), "#Int");
    assert_eq!(Ty::from(TyLit::Bool), Ty::Base(TyLit::Bool));
}
