use stlc::lispy::scan::parse;
use stlc::lispy::tokenize::scan;
use stlc::toplevel::Term;
use stlc::vars::{BasicVar, VarAbs};
use stlc::visitor::FVVisitor;

fn get(s: &str) -> Term {
    parse(scan(s.as_bytes()).unwrap()).unwrap()
}

#[test]
fn test_fv() {
    {
        let check_all = |code: &str, fvs: &[&str]| {
            let term = &get(code);
            let fv = FVVisitor::new(term);

            let ot = fv.open_terms();
            for v in fvs.iter() {
                assert!(ot.iter().any(|o| o == v));
            }
        };

        check_all("x", &["x"]);
        check_all("(x x)", &["x"]);
        check_all("(x y)", &["x", "y"]);
        check_all("#T", &[]);
        check_all("(if #T x y)", &["x", "y"]);
        check_all("((/lam x: #B.x) y)", &["y"])
    }

    assert!(FVVisitor::new(&get("(/lam x: #B.x)")).is_closed());
    assert!(!FVVisitor::new(&get("(/lam x: #B.(y x))")).is_closed());
}

#[test]
fn free_variables_exactly() {
    let fv = FVVisitor::new(&get("((/lam x: #B.x) y)"));
    assert_eq!(fv.open_terms(), vec!["y".to_string()]);
    let fv = FVVisitor::new(&get("(x (/lam x: #B. (x z)) x)"));
    assert_eq!(fv.open_terms(), vec!["x".to_string(), "z".to_string()]);
    assert_eq!(fv.check(), Err("Open Terms found in (x (lam x: #B,. (x z )) x )!".to_string()));
    assert_eq!(FVVisitor::new(&get("#T")).check(), Ok(()));
}

#[test]
fn basic_var_set() {
    let mut vs = BasicVar::new();
    assert!(vs.is_empty());
    vs.extend("a".to_string());
    vs.extend("b".to_string());
    vs.extend("a".to_string());
    assert!(vs.has("a".to_string()));
    assert_eq!(vs.lookup("b".to_string()), Some("b".to_string()));
    assert_eq!(vs.lookup("c".to_string()), None);
    assert!(vs.remove("a".to_string()));
    assert!(!vs.has("a".to_string()));
    assert!(!vs.remove("a".to_string()));
    assert!(!vs.is_empty());
    vs.clear();
    assert!(vs.is_empty());
}
