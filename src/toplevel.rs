//! Surface terms: variables and binders carry names.
use vstd::prelude::*;
use vstd::string::*;
use crate::text::{int_text, push_int};
use crate::ty::{Ty, TyV, ty_text};

verus! {

/// A term as written, with named variables.
#[derive(PartialEq, Eq, Debug)]
pub enum Term {
    Var(String),
    Abs(Vec<(String, Ty)>, Box<Term>),
    App(Box<Term>, Vec<Term>),
    Int(i64),
    True,
    False,
    Not,
    If(Box<Term>, Box<Term>, Box<Term>),
    Bottom,
}

/// The mathematical value of a surface term.
pub enum NamedV {
    Var(Seq<char>),
    Abs(Seq<(Seq<char>, TyV)>, Box<NamedV>),
    App(Box<NamedV>, Seq<NamedV>),
    Int(i64),
    True,
    False,
    Not,
    If(Box<NamedV>, Box<NamedV>, Box<NamedV>),
    Bottom,
}

/// The values of a parameter list.
pub open spec fn params_view(s: Seq<(String, Ty)>) -> Seq<(Seq<char>, TyV)> {
    s.map_values(|p: (String, Ty)| (p.0@, p.1@))
}

pub open spec fn named_view(t: Term) -> NamedV
    decreases t,
{
    match t {
        Term::Var(x) => NamedV::Var(x@),
        Term::Abs(ps, b) => NamedV::Abs(params_view(ps@), Box::new(named_view(*b))),
        Term::App(f, args) => NamedV::App(Box::new(named_view(*f)), nameds_view(args@)),
        Term::Int(n) => NamedV::Int(n),
        Term::True => NamedV::True,
        Term::False => NamedV::False,
        Term::Not => NamedV::Not,
        Term::If(c, a, b) => NamedV::If(
            Box::new(named_view(*c)),
            Box::new(named_view(*a)),
            Box::new(named_view(*b)),
        ),
        Term::Bottom => NamedV::Bottom,
    }
}

/// The values of a sequence of surface terms.
pub open spec fn nameds_view(s: Seq<Term>) -> Seq<NamedV>
    decreases s,
{
    if s.len() == 0 {
        Seq::empty()
    } else {
        nameds_view(s.drop_last()).push(named_view(s.last()))
    }
}

impl View for Term {
    type V = NamedV;

    open spec fn view(&self) -> NamedV {
        named_view(*self)
    }
}

pub proof fn lemma_nameds_view(s: Seq<Term>)
    ensures
        nameds_view(s).len() == s.len(),
        forall|i: int| 0 <= i < s.len() ==> #[trigger] nameds_view(s)[i] == s[i]@,
    decreases s.len(),
{
    if s.len() > 0 {
        lemma_nameds_view(s.drop_last());
    }
}

/// Whether a surface term is a value head: a literal, negation, an
/// abstraction or a variable.
pub open spec fn is_named_value(t: NamedV) -> bool {
    match t {
        NamedV::True | NamedV::False | NamedV::Not | NamedV::Abs(..) | NamedV::Var(..)
        | NamedV::Int(..) => true,
        _ => false,
    }
}

/// The text of a surface term.
pub open spec fn named_text(t: NamedV) -> Seq<char>
    decreases t,
{
    match t {
        NamedV::True => seq!['T'],
        NamedV::False => seq!['F'],
        NamedV::Not => seq!['!'],
        NamedV::Var(x) => x,
        NamedV::Int(n) => int_text(n as int),
        NamedV::App(f, args) => seq!['('] + named_text(*f) + seq![' '] + args_text(args) + seq![')'],
        NamedV::Abs(ps, b) => seq!['(', 'l', 'a', 'm', ' '] + named_params_text(ps) + seq!['.', ' ']
            + named_text(*b) + seq![')'],
        NamedV::If(c, a, b) => seq!['(', 'i', 'f', ' '] + named_text(*c) + seq![' '] + named_text(*a)
            + seq![' '] + named_text(*b) + seq![')'],
        NamedV::Bottom => seq!['_', '|', '_'],
    }
}

/// The texts of a list of arguments, each followed by a space.
pub open spec fn args_text(s: Seq<NamedV>) -> Seq<char>
    decreases s,
{
    if s.len() == 0 {
        Seq::empty()
    } else {
        args_text(s.drop_last()) + named_text(s.last()) + seq![' ']
    }
}

/// A named parameter list: each `name: T` followed by a comma.
pub open spec fn named_params_text(ps: Seq<(Seq<char>, TyV)>) -> Seq<char>
    decreases ps.len(),
{
    if ps.len() == 0 {
        Seq::empty()
    } else {
        named_params_text(ps.drop_last()) + ps.last().0 + seq![':', ' '] + ty_text(ps.last().1)
            + seq![',']
    }
}

fn copy_named(t: &Term) -> (r: Term)
    ensures
        r@ == t@,
    decreases t,
{
    match t {
        Term::Var(x) => Term::Var(x.clone()),
        Term::Abs(ps, b) => Term::Abs(copy_params(ps.as_slice()), Box::new(copy_named(b))),
        Term::App(f, args) => Term::App(Box::new(copy_named(f)), copy_nameds(args.as_slice())),
        Term::Int(n) => Term::Int(*n),
        Term::True => Term::True,
        Term::False => Term::False,
        Term::Not => Term::Not,
        Term::If(c, a, b) => Term::If(
            Box::new(copy_named(c)),
            Box::new(copy_named(a)),
            Box::new(copy_named(b)),
        ),
        Term::Bottom => Term::Bottom,
    }
}

fn copy_nameds(s: &[Term]) -> (r: Vec<Term>)
    ensures
        nameds_view(r@) == nameds_view(s@),
    decreases s@,
{
    let mut r: Vec<Term> = Vec::new();
    let mut i: usize = 0;
    while i < s.len()
        invariant
            i <= s@.len(),
            r@.len() == i,
            forall|j: int| 0 <= j < i ==> #[trigger] r@[j]@ == s@[j]@,
        decreases s@.len() - i,
    {
        assert(decreases_to!(s@ => s@[i as int]));
        r.push(copy_named(&s[i]));
        i += 1;
    }
    proof {
        lemma_nameds_view(r@);
        lemma_nameds_view(s@);
        assert(nameds_view(r@) =~= nameds_view(s@));
    }
    r
}

fn copy_params(s: &[(String, Ty)]) -> (r: Vec<(String, Ty)>)
    ensures
        params_view(r@) == params_view(s@),
{
    let mut r: Vec<(String, Ty)> = Vec::new();
    let mut i: usize = 0;
    while i < s.len()
        invariant
            i <= s@.len(),
            r@.len() == i,
            forall|j: int| 0 <= j < i ==> #[trigger] r@[j].0@ == s@[j].0@ && r@[j].1@ == s@[j].1@,
        decreases s@.len() - i,
    {
        let (name, ty) = &s[i];
        r.push((name.clone(), ty.clone()));
        i += 1;
    }
    assert(params_view(r@) =~= params_view(s@));
    r
}

impl Clone for Term {
    fn clone(&self) -> (r: Term)
        ensures
            r@ == self@,
    {
        copy_named(self)
    }
}

fn named_string(t: &Term) -> (r: String)
    ensures
        r@ == named_text(t@),
    decreases t,
{
    proof {
        reveal_strlit("T");
        reveal_strlit("F");
        reveal_strlit("!");
        reveal_strlit("(");
        reveal_strlit(" ");
        reveal_strlit(")");
        reveal_strlit("(lam ");
        reveal_strlit(". ");
        reveal_strlit("(if ");
        reveal_strlit("_|_");
    }
    match t {
        Term::True => String::from_str("T"),
        Term::False => String::from_str("F"),
        Term::Not => String::from_str("!"),
        Term::Var(x) => x.clone(),
        Term::Int(n) => {
            let mut s = String::new();
            push_int(&mut s, *n);
            s
        },
        Term::App(f, args) => {
            let mut s = String::from_str("(");
            let u = named_string(f);
            s.append(u.as_str());
            s.append(" ");
            let v = args_string(args.as_slice());
            s.append(v.as_str());
            s.append(")");
            s
        },
        Term::Abs(ps, b) => {
            let mut s = String::from_str("(lam ");
            let p = named_params_string(ps.as_slice());
            s.append(p.as_str());
            s.append(". ");
            let u = named_string(b);
            s.append(u.as_str());
            s.append(")");
            s
        },
        Term::If(c, a, b) => {
            let mut s = String::from_str("(if ");
            let u = named_string(c);
            s.append(u.as_str());
            s.append(" ");
            let u = named_string(a);
            s.append(u.as_str());
            s.append(" ");
            let u = named_string(b);
            s.append(u.as_str());
            s.append(")");
            s
        },
        Term::Bottom => String::from_str("_|_"),
    }
}

fn args_string(ts: &[Term]) -> (r: String)
    ensures
        r@ == args_text(nameds_view(ts@)),
    decreases ts@,
{
    proof {
        lemma_nameds_view(ts@);
    }
    let ghost tv = nameds_view(ts@);
    let mut s = String::new();
    let mut i: usize = 0;
    while i < ts.len()
        invariant
            i <= ts@.len(),
            tv.len() == ts@.len(),
            tv == nameds_view(ts@),
            forall|j: int| 0 <= j < ts@.len() ==> #[trigger] tv[j] == ts@[j]@,
            s@ == args_text(tv.take(i as int)),
        decreases ts@.len() - i,
    {
        proof {
            reveal_strlit(" ");
        }
        assert(decreases_to!(ts@ => ts@[i as int]));
        let u = named_string(&ts[i]);
        s.append(u.as_str());
        s.append(" ");
        proof {
            let t = tv.take(i + 1);
            assert(t.drop_last() =~= tv.take(i as int));
            assert(t.last() == ts@[i as int]@);
            assert(s@ =~= args_text(t));
        }
        i += 1;
    }
    assert(tv.take(ts@.len() as int) =~= tv);
    s
}

fn named_params_string(ps: &[(String, Ty)]) -> (r: String)
    ensures
        r@ == named_params_text(params_view(ps@)),
{
    let ghost pv = params_view(ps@);
    let mut s = String::new();
    let mut i: usize = 0;
    while i < ps.len()
        invariant
            i <= ps@.len(),
            pv == params_view(ps@),
            s@ == named_params_text(pv.take(i as int)),
        decreases ps@.len() - i,
    {
        proof {
            reveal_strlit(": ");
            reveal_strlit(",");
        }
        let (name, ty) = &ps[i];
        s.append(name.as_str());
        s.append(": ");
        let u = ty.unparse();
        s.append(u.as_str());
        s.append(",");
        proof {
            let t = pv.take(i + 1);
            assert(t.drop_last() =~= pv.take(i as int));
            assert(t.last() == (ps@[i as int].0@, ps@[i as int].1@));
            assert(s@ =~= named_params_text(t));
        }
        i += 1;
    }
    assert(pv.take(ps@.len() as int) =~= pv);
    s
}

impl Term {
    /// Whether this term is a value head.
    pub fn is_val(&self) -> (r: bool)
        ensures
            r == is_named_value(self@),
    {
        match self {
            Term::True => true,
            Term::False => true,
            Term::Not => true,
            Term::Abs(..) => true,
            Term::Var(..) => true,
            Term::Int(..) => true,
            _ => false,
        }
    }

    /// The text of this term.
    pub fn unparse(&self) -> (r: String)
        ensures
            r@ == named_text(self@),
    {
        named_string(self)
    }

    /// The application of `f` to the arguments `x`.
    pub fn app(f: Term, x: &[Term]) -> (r: Term)
        ensures
            r@ == NamedV::App(Box::new(f@), nameds_view(x@)),
    {
        Term::App(Box::new(f), copy_nameds(x))
    }

    /// The abstraction over the named parameters `args` with body `body`.
    pub fn abs(args: &[(&str, Ty)], body: Term) -> (r: Term)
        ensures
            r@ == NamedV::Abs(
                args@.map_values(|p: (&str, Ty)| (p.0@, p.1@)),
                Box::new(body@),
            ),
    {
        let mut ps: Vec<(String, Ty)> = Vec::new();
        let mut i: usize = 0;
        while i < args.len()
            invariant
                i <= args@.len(),
                ps@.len() == i,
                forall|j: int| 0 <= j < i ==> #[trigger] ps@[j].0@ == args@[j].0@ && ps@[j].1@ == args@[j].1@,
            decreases args@.len() - i,
        {
            let (name, ty) = &args[i];
            ps.push((String::from_str(*name), ty.clone()));
            i += 1;
        }
        let r = Term::Abs(ps, Box::new(body));
        assert(params_view(ps@) =~= args@.map_values(|p: (&str, Ty)| (p.0@, p.1@)));
        r
    }

    /// The abstraction over the named parameters `args` with body `body`.
    pub fn abss(args: &[(String, Ty)], body: Term) -> (r: Term)
        ensures
            r@ == NamedV::Abs(params_view(args@), Box::new(body@)),
    {
        Term::Abs(copy_params(args), Box::new(body))
    }

    /// The conditional on `cond` with branches `pass` and `fail`.
    pub fn if_(cond: Term, pass: Term, fail: Term) -> (r: Term)
        ensures
            r@ == NamedV::If(Box::new(cond@), Box::new(pass@), Box::new(fail@)),
    {
        Term::If(Box::new(cond), Box::new(pass), Box::new(fail))
    }

    /// The variable named `s`.
    pub fn var(s: &str) -> (r: Term)
        ensures
            r@ == NamedV::Var(s@),
    {
        Term::Var(String::from_str(s))
    }
}

} // verus!
