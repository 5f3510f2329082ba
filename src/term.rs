//! Core terms: variables are binder-relative indices.
use vstd::prelude::*;
use vstd::string::*;
use crate::text::{int_text, nat_text, push_int, push_nat};
use crate::ty::{Ty, TyV, copy_tys, lemma_tys_view, ty_text, tys_view};

verus! {

/// A term whose variables are indices: `Var(1)` names the innermost
/// enclosing binder.
#[derive(PartialEq, Eq, Debug)]
pub enum Term {
    Var(u32),
    Abs(Vec<Ty>, Box<Term>),
    App(Box<Term>, Vec<Term>),
    True,
    False,
    Int(i64),
    Not,
    If(Box<Term>, Box<Term>, Box<Term>),
    Stuck,
}

/// The mathematical value of a core term.
pub enum TermV {
    Var(u32),
    Abs(Seq<TyV>, Box<TermV>),
    App(Box<TermV>, Seq<TermV>),
    True,
    False,
    Int(i64),
    Not,
    If(Box<TermV>, Box<TermV>, Box<TermV>),
    Stuck,
}

pub open spec fn term_view(t: Term) -> TermV
    decreases t,
{
    match t {
        Term::Var(i) => TermV::Var(i),
        Term::Abs(tys, b) => TermV::Abs(tys_view(tys@), Box::new(term_view(*b))),
        Term::App(f, args) => TermV::App(Box::new(term_view(*f)), terms_view(args@)),
        Term::True => TermV::True,
        Term::False => TermV::False,
        Term::Int(n) => TermV::Int(n),
        Term::Not => TermV::Not,
        Term::If(c, a, b) => TermV::If(
            Box::new(term_view(*c)),
            Box::new(term_view(*a)),
            Box::new(term_view(*b)),
        ),
        Term::Stuck => TermV::Stuck,
    }
}

/// The values of a sequence of core terms.
pub open spec fn terms_view(s: Seq<Term>) -> Seq<TermV>
    decreases s,
{
    if s.len() == 0 {
        Seq::empty()
    } else {
        terms_view(s.drop_last()).push(term_view(s.last()))
    }
}

impl View for Term {
    type V = TermV;

    open spec fn view(&self) -> TermV {
        term_view(*self)
    }
}

pub proof fn lemma_terms_view(s: Seq<Term>)
    ensures
        terms_view(s).len() == s.len(),
        forall|i: int| 0 <= i < s.len() ==> #[trigger] terms_view(s)[i] == s[i]@,
    decreases s.len(),
{
    if s.len() > 0 {
        lemma_terms_view(s.drop_last());
    }
}

/// Whether a term is a value head: a boolean or integer literal, negation or
/// an abstraction.
pub open spec fn is_value(t: TermV) -> bool {
    match t {
        TermV::True | TermV::False | TermV::Not | TermV::Abs(..) | TermV::Int(..) => true,
        _ => false,
    }
}

/// The text of a core term; an abstraction lists only its parameter types.
pub open spec fn term_text(t: TermV) -> Seq<char>
    decreases t,
{
    match t {
        TermV::True => seq!['#', 'T'],
        TermV::False => seq!['#', 'F'],
        TermV::Not => seq!['!'],
        TermV::Int(n) => int_text(n as int),
        TermV::Var(x) => nat_text(x as nat),
        TermV::App(f, args) => seq!['('] + term_text(*f) + seq![' '] + terms_text(args) + seq![')'],
        TermV::Abs(tys, b) => seq!['(', '/', 'l', 'a', 'm', ' '] + params_text(tys) + seq!['.', ' ']
            + term_text(*b) + seq![')'],
        TermV::If(c, a, b) => seq!['(', 'I', 'f', ' '] + term_text(*c) + seq![' '] + term_text(*a)
            + seq![' '] + term_text(*b) + seq![')'],
        TermV::Stuck => seq!['#', 'S', 'T', 'U', 'C', 'K', '#'],
    }
}

/// The texts of a list of terms, separated by single spaces.
pub open spec fn terms_text(s: Seq<TermV>) -> Seq<char>
    decreases s,
{
    if s.len() == 0 {
        Seq::empty()
    } else if s.len() == 1 {
        term_text(s[0])
    } else {
        terms_text(s.drop_last()) + seq![' '] + term_text(s.last())
    }
}

/// The parameter list of an abstraction without names: `: T1, : T2`.
pub open spec fn params_text(tys: Seq<TyV>) -> Seq<char>
    decreases tys.len(),
{
    if tys.len() == 0 {
        Seq::empty()
    } else if tys.len() == 1 {
        seq![':', ' '] + ty_text(tys[0])
    } else {
        params_text(tys.drop_last()) + seq![',', ' ', ':', ' '] + ty_text(tys.last())
    }
}

/// The variable indices of a term: those of the arguments of an application
/// come before those of its function.
pub open spec fn vars_of(t: TermV) -> Seq<u32>
    decreases t,
{
    match t {
        TermV::Var(x) => seq![x],
        TermV::App(f, args) => vars_of_all(args) + vars_of(*f),
        TermV::Abs(_, b) => vars_of(*b),
        TermV::If(c, a, b) => vars_of(*c) + vars_of(*a) + vars_of(*b),
        _ => Seq::empty(),
    }
}

/// The variable indices of a list of terms, in order.
pub open spec fn vars_of_all(s: Seq<TermV>) -> Seq<u32>
    decreases s,
{
    if s.len() == 0 {
        Seq::empty()
    } else {
        vars_of_all(s.drop_last()) + vars_of(s.last())
    }
}

fn copy_term(t: &Term) -> (r: Term)
    ensures
        r@ == t@,
    decreases t,
{
    match t {
        Term::Var(i) => Term::Var(*i),
        Term::Abs(tys, b) => Term::Abs(copy_tys(tys.as_slice()), Box::new(copy_term(b))),
        Term::App(f, args) => Term::App(Box::new(copy_term(f)), copy_terms(args.as_slice())),
        Term::True => Term::True,
        Term::False => Term::False,
        Term::Int(n) => Term::Int(*n),
        Term::Not => Term::Not,
        Term::If(c, a, b) => Term::If(
            Box::new(copy_term(c)),
            Box::new(copy_term(a)),
            Box::new(copy_term(b)),
        ),
        Term::Stuck => Term::Stuck,
    }
}

fn copy_terms(s: &[Term]) -> (r: Vec<Term>)
    ensures
        terms_view(r@) == terms_view(s@),
    decreases s@,
{
    let mut r: Vec<Term> = Vec::new();
    let mut i: usize = 0;
    while i < s.len()
        invariant
            i <= s@.len(),
            r@.len() == i,
            forall|j: int| 0 <= j < i ==> #[trigger] r@[j]@ == s@[j]@,
        decreases s@.len() - i,
    {
        assert(decreases_to!(s@ => s@[i as int]));
        r.push(copy_term(&s[i]));
        i += 1;
    }
    proof {
        lemma_terms_view(r@);
        lemma_terms_view(s@);
        assert(terms_view(r@) =~= terms_view(s@));
    }
    r
}

impl Clone for Term {
    fn clone(&self) -> (r: Term)
        ensures
            r@ == self@,
    {
        copy_term(self)
    }
}

fn term_string(t: &Term) -> (r: String)
    ensures
        r@ == term_text(t@),
    decreases t,
{
    proof {
        reveal_strlit("#T");
        reveal_strlit("#F");
        reveal_strlit("!");
        reveal_strlit("(");
        reveal_strlit(" ");
        reveal_strlit(")");
        reveal_strlit("(/lam ");
        reveal_strlit(". ");
        reveal_strlit("(If ");
        reveal_strlit("#STUCK#");
    }
    match t {
        Term::True => String::from_str("#T"),
        Term::False => String::from_str("#F"),
        Term::Not => String::from_str("!"),
        Term::Int(n) => {
            let mut s = String::new();
            push_int(&mut s, *n);
            s
        },
        Term::Var(x) => {
            let mut s = String::new();
            push_nat(&mut s, *x as u64);
            s
        },
        Term::App(f, args) => {
            let mut s = String::from_str("(");
            let u = term_string(f);
            s.append(u.as_str());
            s.append(" ");
            let v = terms_string(args.as_slice());
            s.append(v.as_str());
            s.append(")");
            s
        },
        Term::Abs(tys, b) => {
            let mut s = String::from_str("(/lam ");
            let p = params_string(tys.as_slice());
            s.append(p.as_str());
            s.append(". ");
            let u = term_string(b);
            s.append(u.as_str());
            s.append(")");
            s
        },
        Term::If(c, a, b) => {
            let mut s = String::from_str("(If ");
            let u = term_string(c);
            s.append(u.as_str());
            s.append(" ");
            let u = term_string(a);
            s.append(u.as_str());
            s.append(" ");
            let u = term_string(b);
            s.append(u.as_str());
            s.append(")");
            s
        },
        Term::Stuck => String::from_str("#STUCK#"),
    }
}

fn terms_string(ts: &[Term]) -> (r: String)
    ensures
        r@ == terms_text(terms_view(ts@)),
    decreases ts@,
{
    proof {
        lemma_terms_view(ts@);
    }
    let ghost tv = terms_view(ts@);
    let mut s = String::new();
    let mut i: usize = 0;
    while i < ts.len()
        invariant
            i <= ts@.len(),
            tv.len() == ts@.len(),
            tv == terms_view(ts@),
            forall|j: int| 0 <= j < ts@.len() ==> #[trigger] tv[j] == ts@[j]@,
            s@ == terms_text(tv.take(i as int)),
        decreases ts@.len() - i,
    {
        proof {
            reveal_strlit(" ");
        }
        if i > 0 {
            s.append(" ");
        }
        assert(decreases_to!(ts@ => ts@[i as int]));
        let u = term_string(&ts[i]);
        s.append(u.as_str());
        proof {
            let t = tv.take(i + 1);
            assert(t.drop_last() =~= tv.take(i as int));
            assert(t.last() == ts@[i as int]@);
            if i == 0 {
                assert(tv.take(i as int) =~= Seq::<TermV>::empty());
                assert(terms_text(t) == term_text(t[0]));
            } else {
                assert(terms_text(t) == terms_text(t.drop_last()) + seq![' '] + term_text(t.last()));
            }
            assert(s@ =~= terms_text(t));
        }
        i += 1;
    }
    assert(tv.take(ts@.len() as int) =~= tv);
    s
}

fn params_string(tys: &[Ty]) -> (r: String)
    ensures
        r@ == params_text(tys_view(tys@)),
{
    proof {
        lemma_tys_view(tys@);
    }
    let ghost tv = tys_view(tys@);
    let mut s = String::new();
    let mut i: usize = 0;
    while i < tys.len()
        invariant
            i <= tys@.len(),
            tv.len() == tys@.len(),
            tv == tys_view(tys@),
            forall|j: int| 0 <= j < tys@.len() ==> #[trigger] tv[j] == tys@[j]@,
            s@ == params_text(tv.take(i as int)),
        decreases tys@.len() - i,
    {
        proof {
            reveal_strlit(", : ");
            reveal_strlit(": ");
        }
        if i > 0 {
            s.append(", : ");
        } else {
            s.append(": ");
        }
        let u = tys[i].unparse();
        s.append(u.as_str());
        proof {
            let t = tv.take(i + 1);
            assert(t.drop_last() =~= tv.take(i as int));
            assert(t.last() == tys@[i as int]@);
            if i == 0 {
                assert(tv.take(i as int) =~= Seq::<TyV>::empty());
                assert(params_text(t) == seq![':', ' '] + ty_text(t[0]));
            } else {
                assert(params_text(t) == params_text(t.drop_last()) + seq![',', ' ', ':', ' '] + ty_text(t.last()));
            }
            assert(s@ =~= params_text(t));
        }
        i += 1;
    }
    assert(tv.take(tys@.len() as int) =~= tv);
    s
}

fn collect_vars(t: &Term, out: &mut Vec<u32>)
    ensures
        final(out)@ == old(out)@ + vars_of(t@),
    decreases t,
{
    match t {
        Term::Var(x) => {
            out.push(*x);
        },
        Term::App(f, args) => {
            collect_vars_all(args.as_slice(), out);
            collect_vars(f, out);
            assert(final(out)@ =~= old(out)@ + vars_of(t@));
        },
        Term::Abs(_, b) => {
            collect_vars(b, out);
        },
        Term::If(c, a, b) => {
            collect_vars(c, out);
            collect_vars(a, out);
            collect_vars(b, out);
            assert(final(out)@ =~= old(out)@ + vars_of(t@));
        },
        _ => {
            assert(final(out)@ =~= old(out)@ + vars_of(t@));
        },
    }
}

fn collect_vars_all(ts: &[Term], out: &mut Vec<u32>)
    ensures
        final(out)@ == old(out)@ + vars_of_all(terms_view(ts@)),
    decreases ts@,
{
    proof {
        lemma_terms_view(ts@);
    }
    let ghost tv = terms_view(ts@);
    let ghost start = out@;
    let mut i: usize = 0;
    while i < ts.len()
        invariant
            i <= ts@.len(),
            tv.len() == ts@.len(),
            tv == terms_view(ts@),
            forall|j: int| 0 <= j < ts@.len() ==> #[trigger] tv[j] == ts@[j]@,
            out@ == start + vars_of_all(tv.take(i as int)),
        decreases ts@.len() - i,
    {
        assert(decreases_to!(ts@ => ts@[i as int]));
        collect_vars(&ts[i], out);
        proof {
            let t = tv.take(i + 1);
            assert(t.drop_last() =~= tv.take(i as int));
            assert(t.last() == ts@[i as int]@);
            assert(out@ =~= start + vars_of_all(t));
        }
        i += 1;
    }
    assert(tv.take(ts@.len() as int) =~= tv);
}

impl Term {
    /// Whether this term is a value head.
    pub fn is_val(&self) -> (r: bool)
        ensures
            r == is_value(self@),
    {
        match self {
            Term::True => true,
            Term::False => true,
            Term::Not => true,
            Term::Abs(..) => true,
            Term::Int(_) => true,
            _ => false,
        }
    }

    /// The text of this term.
    pub fn unparse(&self) -> (r: String)
        ensures
            r@ == term_text(self@),
    {
        term_string(self)
    }

    /// The variable indices that occur in this term.
    pub fn get_vars(&self) -> (r: Vec<u32>)
        ensures
            r@ == vars_of(self@),
    {
        let mut out: Vec<u32> = Vec::new();
        collect_vars(self, &mut out);
        assert(out@ =~= vars_of(self@));
        out
    }

    /// The application of `f` to the arguments `x`.
    pub fn app(f: Term, x: &[Term]) -> (r: Term)
        ensures
            r@ == TermV::App(Box::new(f@), terms_view(x@)),
    {
        Term::App(Box::new(f), copy_terms(x))
    }

    /// The conditional on `cond` with branches `then_` and `else_`.
    pub fn if_(cond: Term, then_: Term, else_: Term) -> (r: Term)
        ensures
            r@ == TermV::If(Box::new(cond@), Box::new(then_@), Box::new(else_@)),
    {
        Term::If(Box::new(cond), Box::new(then_), Box::new(else_))
    }

    /// The abstraction over parameters of types `ty` with body `body`.
    pub fn abs(ty: &[Ty], body: Term) -> (r: Term)
        ensures
            r@ == TermV::Abs(tys_view(ty@), Box::new(body@)),
    {
        Term::Abs(copy_tys(ty), Box::new(body))
    }
}

} // verus!
