use stlc::debrujin::{depth_of, RenameVisitor};
use stlc::error::Error;
use stlc::lispy::scan::parse;
use stlc::lispy::tokenize::scan;
use stlc::term::Term as CTerm;
use stlc::toplevel::Term;
use stlc::ty::{Ty, TyLit};

fn get(s: &str) -> Term {
    parse(scan(s.as_bytes()).unwrap()).unwrap()
}

#[test]
fn test_rename() {
    let mut rv = RenameVisitor::new();

    let t = rv.rename_term(&get("(/lam x: #B. x)")).unwrap();
    assert_eq!("(/lam : #B. 1)", t.unparse());

    let t = rv.rename_term(&get("(/lam x: (#B -> (#B -> #B)). (/lam z: #B. z))")).unwrap();
    assert_eq!("(/lam : (#B -> (#B -> #B)). (/lam : #B. 1))", t.unparse());

    let t = rv.rename_term(&get("(/lam y: ((#B -> #B) -> #B). (y (/lam y: #B. y)))")).unwrap();
    assert_eq!("(/lam : ((#B -> #B) -> #B). (1 (/lam : #B. 1)))", t.unparse());

    let t = rv
        .rename_term(&get("(/lam x: #B. (/lam y: #B. (/lam z: #B. ((x z) (y z)) ) ))"))
        .unwrap();
    assert_eq!("(/lam : #B. (/lam : #B. (/lam : #B. ((3 1) (2 1)))))", t.unparse());

    // K Combinator
    let t = rv.rename_term(&get("(/lam x: #B. (/lam y: #B. x))")).unwrap();
    assert_eq!("(/lam : #B. (/lam : #B. 2))", t.unparse());
}

#[test]
fn resolves_innermost_and_outer_binders() {
    let mut rv = RenameVisitor::new();
    let t = rv.rename_term(&get("(/lam x:#B. x)")).unwrap();
    assert_eq!(t, CTerm::abs(&[Ty::Base(TyLit::Bool)], CTerm::Var(1)));
    let t = rv.rename_term(&get("(/lam x:#B. (/lam y:#B. x))")).unwrap();
    assert_eq!(
        t,
        CTerm::abs(&[Ty::Base(TyLit::Bool)], CTerm::abs(&[Ty::Base(TyLit::Bool)], CTerm::Var(2)))
    );
}

#[test]
fn free_variables_fail_resolution() {
    let mut rv = RenameVisitor::new();
    assert_eq!(rv.rename_term(&get("(/lam x:#B. y)")), Err(Error::FreeVariable("y".into())));
    assert_eq!(rv.rename_term(&get("x")), Err(Error::FreeVariable("x".into())));
    // the visitor is usable again after a failure
    assert_eq!(rv.rename_term(&get("#T")), Ok(CTerm::True));
}

#[test]
fn inner_binder_shadows_outer() {
    let mut rv = RenameVisitor::new();
    let t = rv.rename_term(&get("(/lam x:#B. (/lam x:#B. x))")).unwrap();
    assert_eq!(
        t,
        CTerm::abs(&[Ty::Base(TyLit::Bool)], CTerm::abs(&[Ty::Base(TyLit::Bool)], CTerm::Var(1)))
    );
}

#[test]
fn multi_parameter_binders_count_one_each() {
    let mut rv = RenameVisitor::new();
    let t = rv.rename_term(&get("(/lam a:#B, b:#Int, c:#Int. (a b c))")).unwrap();
    assert_eq!(t.unparse(), "(/lam : #B, : #Int, : #Int. (3 2 1))");
    assert_eq!(t.get_vars(), vec![2, 1, 3]);
}

#[test]
fn duplicate_parameters_are_rejected() {
    let mut rv = RenameVisitor::new();
    assert_eq!(
        rv.rename_term(&get("(/lam x:#B, x:#B. x)")),
        Err(Error::DuplicateBinder("x".into()))
    );
}

#[test]
fn resolution_keeps_structure() {
    let mut rv = RenameVisitor::new();
    let t = rv.rename_term(&get("(if #T (! #F) 12)")).unwrap();
    assert_eq!(t.unparse(), "(If #T (! #F) 12)");
    assert_eq!(rv.rename_term(&Term::Bottom).unwrap(), CTerm::Stuck);
    assert_eq!(CTerm::Stuck.unparse(), "#STUCK#");
}

#[test]
fn core_term_helpers() {
    assert!(CTerm::Not.is_val());
    assert!(CTerm::Int(3).is_val());
    assert!(!CTerm::Var(1).is_val());
    assert!(!CTerm::Stuck.is_val());
    let t = CTerm::if_(CTerm::Var(1), CTerm::Var(2), CTerm::Var(3));
    assert_eq!(t.get_vars(), vec![1, 2, 3]);
    assert_eq!(CTerm::Int(-7).unparse(), "-7");
    assert_eq!(CTerm::app(CTerm::Var(1), &[]).unparse(), "(1 )");
}

#[test]
fn binder_depth_counts_parameters_in_scope() {
    assert_eq!(depth_of(&get("#T")), 0);
    assert_eq!(depth_of(&get("(/lam a:#B, b:#B. (/lam c:#B. c))")), 3);
    assert_eq!(depth_of(&get("((/lam a:#B. a) (/lam a:#B, b:#B. a))")), 2);
}
