//! Syntax-directed type checking of core terms.
use vstd::prelude::*;
use crate::debrujin::{
    binder_depth, binder_depth_all, last_index, lemma_depth_all, lemma_last_index, param_names,
    param_types, resolve, resolve_all,
};
use crate::error::TypeError;
use crate::term::{Term, TermV, lemma_terms_view, terms_view};
use crate::toplevel::NamedV;
use crate::ty::{Ty, TyLit, TyV, lemma_tys_view, not_ty, tys_view};

verus! {

/// A type, or why there is none.
pub type Judgement = Result<Ty, TypeError>;

/// The mathematical value of a judgement.
pub open spec fn judgement_view(j: Judgement) -> Result<TyV, TypeError> {
    match j {
        Ok(t) => Ok(t@),
        Err(e) => Err(e),
    }
}

/// The values of a list of judgements.
pub open spec fn judgements_view(js: Seq<Judgement>) -> Seq<Result<TyV, TypeError>> {
    js.map_values(|j: Judgement| judgement_view(j))
}

/// The types of a list of judgements, or the first failure among them.
pub open spec fn all_ok(js: Seq<Result<TyV, TypeError>>) -> Result<Seq<TyV>, TypeError>
    decreases js.len(),
{
    if js.len() == 0 {
        Ok(Seq::empty())
    } else {
        match all_ok(js.drop_last()) {
            Err(e) => Err(e),
            Ok(ts) => match js.last() {
                Err(e) => Err(e),
                Ok(t) => Ok(ts.push(t)),
            },
        }
    }
}

/// The conditional rule: a boolean condition and branches of one type.
pub open spec fn if_rule(c: TyV, a: TyV, b: TyV) -> Result<TyV, TypeError> {
    if c != TyV::Base(TyLit::Bool) {
        Err(TypeError::ConditionNotBool)
    } else if a != b {
        Err(TypeError::BranchMismatch)
    } else {
        Ok(a)
    }
}

/// The application rule: an arrow whose parameter types are the argument
/// types, one for one.
pub open spec fn app_rule(f: TyV, args: Seq<TyV>) -> Result<TyV, TypeError> {
    match f {
        TyV::Arrow(ps, r) => if ps.len() != args.len() {
            Err(TypeError::ArityMismatch)
        } else if ps != args {
            Err(TypeError::ArgumentMismatch)
        } else {
            Ok(*r)
        },
        _ => Err(TypeError::NonFunction),
    }
}

/// The conditional rule on judgements: a failure among them comes first, in
/// order.
pub open spec fn if_judgement(
    c: Result<TyV, TypeError>,
    a: Result<TyV, TypeError>,
    b: Result<TyV, TypeError>,
) -> Result<TyV, TypeError> {
    match (c, a, b) {
        (Err(e), _, _) => Err(e),
        (Ok(_), Err(e), _) => Err(e),
        (Ok(_), Ok(_), Err(e)) => Err(e),
        (Ok(tc), Ok(ta), Ok(tb)) => if_rule(tc, ta, tb),
    }
}

/// The application rule on judgements: a failure of the function, then one
/// of the arguments, comes first.
pub open spec fn app_judgement(
    f: Result<TyV, TypeError>,
    args: Result<Seq<TyV>, TypeError>,
) -> Result<TyV, TypeError> {
    match f {
        Err(e) => Err(e),
        Ok(ft) => match args {
            Err(e) => Err(e),
            Ok(ats) => app_rule(ft, ats),
        },
    }
}

/// The abstraction rule on judgements.
pub open spec fn abs_judgement(tys: Seq<TyV>, body: Result<TyV, TypeError>) -> Result<TyV, TypeError> {
    match body {
        Err(e) => Err(e),
        Ok(r) => Ok(TyV::Arrow(tys, Box::new(r))),
    }
}

/// The type of `t` where `env` holds the types of the binders in scope,
/// innermost last: variable `i` has the type `i` places from the end.
pub open spec fn typing(env: Seq<TyV>, t: TermV) -> Result<TyV, TypeError>
    decreases t,
{
    match t {
        TermV::True | TermV::False => Ok(TyV::Base(TyLit::Bool)),
        TermV::Int(_) => Ok(TyV::Base(TyLit::Int)),
        TermV::Not => Ok(not_ty()),
        TermV::Var(i) => if 1 <= i <= env.len() {
            Ok(env[env.len() - i])
        } else {
            Err(TypeError::UnknownVariable)
        },
        TermV::Abs(tys, b) => abs_judgement(tys, typing(env + tys, *b)),
        TermV::App(f, args) => app_judgement(typing(env, *f), typing_all(env, args)),
        TermV::If(c, a, b) => if_judgement(typing(env, *c), typing(env, *a), typing(env, *b)),
        TermV::Stuck => Ok(TyV::Bottom),
    }
}

/// The types of a list of terms, or the first failure among them.
pub open spec fn typing_all(env: Seq<TyV>, s: Seq<TermV>) -> Result<Seq<TyV>, TypeError>
    decreases s,
{
    if s.len() == 0 {
        Ok(Seq::empty())
    } else {
        match typing_all(env, s.drop_last()) {
            Err(e) => Err(e),
            Ok(ts) => match typing(env, s.last()) {
                Err(e) => Err(e),
                Ok(t) => Ok(ts.push(t)),
            },
        }
    }
}

/// The type of a term that no binder encloses.
pub open spec fn typing_closed(t: TermV) -> Result<TyV, TypeError> {
    typing(Seq::empty(), t)
}

/// Applies the conditional rule to the judgements of the condition and of
/// the two branches.
pub fn fold_if(cond: Judgement, then_: Judgement, else_: Judgement) -> (r: Judgement)
    ensures
        judgement_view(r) == if_judgement(
            judgement_view(cond),
            judgement_view(then_),
            judgement_view(else_),
        ),
{
    let c = match cond {
        Ok(t) => t,
        Err(e) => return Err(e),
    };
    let t = match then_ {
        Ok(t) => t,
        Err(e) => return Err(e),
    };
    let e = match else_ {
        Ok(t) => t,
        Err(e) => return Err(e),
    };
    if c != Ty::Base(TyLit::Bool) {
        Err(TypeError::ConditionNotBool)
    } else if t != e {
        Err(TypeError::BranchMismatch)
    } else {
        Ok(t)
    }
}

/// Applies the application rule to the judgements of the function and of
/// the arguments.
pub fn fold_app(f: Judgement, js: &[Judgement]) -> (r: Judgement)
    ensures
        judgement_view(r) == app_judgement(judgement_view(f), all_ok(judgements_view(js@))),
{
    let ft = match f {
        Ok(t) => t,
        Err(e) => return Err(e),
    };
    let ghost jv = judgements_view(js@);
    let mut i: usize = 0;
    while i < js.len()
        invariant
            i <= js@.len(),
            jv == judgements_view(js@),
            judgement_view(f) == Ok::<TyV, TypeError>(ft@),
            all_ok(jv.take(i as int)) is Ok,
        decreases js@.len() - i,
    {
        proof {
            assert(jv.take(i + 1).drop_last() =~= jv.take(i as int));
        }
        match &js[i] {
            Ok(_) => {},
            Err(e) => {
                proof {
                    assert(jv[i as int] == judgement_view(js@[i as int]));
                    assert(jv.take(i + 1).last() == jv[i as int]);
                    lemma_all_ok_prefix_err(jv, i + 1);
                }
                return Err(*e);
            },
        }
        i += 1;
    }
    proof {
        assert(jv.take(js@.len() as int) =~= jv);
    }
    match ft {
        Ty::Arrow(ps, res) => {
            proof {
                lemma_tys_view(ps@);
                lemma_all_ok(jv);
            }
            if ps.len() != js.len() {
                return Err(TypeError::ArityMismatch);
            }
            let mut k: usize = 0;
            while k < ps.len()
                invariant
                    k <= ps@.len(),
                    ps@.len() == js@.len(),
                    jv == judgements_view(js@),
                    judgement_view(f) == Ok::<TyV, TypeError>(TyV::Arrow(tys_view(ps@), Box::new(res@))),
                    all_ok(jv) is Ok,
                    all_ok(jv).unwrap().len() == jv.len(),
                    forall|m: int| 0 <= m < jv.len() ==> #[trigger] jv[m] == Ok::<TyV, TypeError>(all_ok(jv).unwrap()[m]),
                    tys_view(ps@).len() == ps@.len(),
                    forall|m: int| 0 <= m < ps@.len() ==> #[trigger] tys_view(ps@)[m] == ps@[m]@,
                    forall|m: int| 0 <= m < k ==> #[trigger] tys_view(ps@)[m] == all_ok(jv).unwrap()[m],
                decreases ps@.len() - k,
            {
                proof {
                    assert(jv[k as int] == judgement_view(js@[k as int]));
                }
                let same = match &js[k] {
                    Ok(a) => ps[k] == *a,
                    Err(_) => false,
                };
                if !same {
                    proof {
                        assert(tys_view(ps@)[k as int] != all_ok(jv).unwrap()[k as int]);
                    }
                    return Err(TypeError::ArgumentMismatch);
                }
                k += 1;
            }
            proof {
                assert(tys_view(ps@) =~= all_ok(jv).unwrap());
            }
            Ok(*res)
        },
        _ => Err(TypeError::NonFunction),
    }
}

proof fn lemma_all_ok_prefix_err(js: Seq<Result<TyV, TypeError>>, k: int)
    requires
        0 <= k <= js.len(),
        all_ok(js.take(k)) is Err,
    ensures
        all_ok(js) == all_ok(js.take(k)),
    decreases js.len(),
{
    if k < js.len() {
        assert(js.drop_last().take(k) =~= js.take(k));
        lemma_all_ok_prefix_err(js.drop_last(), k);
    } else {
        assert(js.take(k) =~= js);
    }
}

proof fn lemma_all_ok(js: Seq<Result<TyV, TypeError>>)
    requires
        all_ok(js) is Ok,
    ensures
        all_ok(js).unwrap().len() == js.len(),
        forall|m: int| 0 <= m < js.len() ==> #[trigger] js[m] == Ok::<TyV, TypeError>(all_ok(js).unwrap()[m]),
    decreases js.len(),
{
    if js.len() > 0 {
        lemma_all_ok(js.drop_last());
        assert forall|m: int| 0 <= m < js.len() implies #[trigger] js[m] == Ok::<TyV, TypeError>(all_ok(js).unwrap()[m]) by {
            if m < js.len() - 1 {
                assert(js.drop_last()[m] == js[m]);
            }
        }
    }
}

/// Applies the abstraction rule: the arrow from the parameter types to the
/// type of the body.
pub fn fold_abs(ty: &[Ty], body: Judgement) -> (r: Judgement)
    ensures
        judgement_view(r) == abs_judgement(tys_view(ty@), judgement_view(body)),
{
    let by = match body {
        Ok(t) => t,
        Err(e) => return Err(e),
    };
    Ok(Ty::arrow(ty, by))
}

/// Checks core terms; holds the types of the binders in scope, innermost
/// last, while it walks a term.
pub struct TypeCheckVisitor {
    gamma: Vec<Ty>,
}

fn not_type() -> (r: Ty)
    ensures
        r@ == not_ty(),
{
    let mut ps: Vec<Ty> = Vec::new();
    ps.push(Ty::Base(TyLit::Bool));
    proof {
        lemma_tys_view(ps@);
        assert(tys_view(ps@) =~= seq![TyV::Base(TyLit::Bool)]);
    }
    Ty::Arrow(ps, Box::new(Ty::Base(TyLit::Bool)))
}

impl TypeCheckVisitor {
    /// Whether no binder is in scope, as between two checks.
    pub closed spec fn is_reset(&self) -> bool {
        self.gamma@.len() == 0
    }

    /// A checker with no binder in scope.
    pub fn new() -> (r: TypeCheckVisitor)
        ensures
            r.is_reset(),
    {
        TypeCheckVisitor { gamma: Vec::new() }
    }

    /// The type of `t`, which no binder encloses.
    pub fn type_of(&mut self, t: &Term) -> (r: Judgement)
        requires
            old(self).is_reset(),
        ensures
            final(self).is_reset(),
            judgement_view(r) == typing_closed(t@),
    {
        proof {
            assert(tys_view(self.gamma@) =~= Seq::<TyV>::empty());
        }
        let ret = self.check(t);
        self.reset();
        ret
    }

    fn reset(&mut self)
        ensures
            final(self).is_reset(),
    {
        self.gamma.clear();
    }

    fn check(&mut self, t: &Term) -> (r: Judgement)
        ensures
            final(self).gamma@ == old(self).gamma@,
            judgement_view(r) == typing(tys_view(old(self).gamma@), t@),
        decreases t, 0nat,
    {
        proof {
            lemma_tys_view(self.gamma@);
        }
        match t {
            Term::True => Ok(Ty::Base(TyLit::Bool)),
            Term::False => Ok(Ty::Base(TyLit::Bool)),
            Term::Not => Ok(not_type()),
            Term::Stuck => Ok(Ty::Bottom),
            Term::Int(_) => Ok(Ty::Base(TyLit::Int)),
            Term::Var(v) => {
                let i = *v as usize;
                let len = self.gamma.len();
                if 1 <= i && i <= len {
                    Ok(self.gamma[len - i].clone())
                } else {
                    Err(TypeError::UnknownVariable)
                }
            },
            Term::Abs(tys, body) => {
                let ghost old_gamma = self.gamma@;
                let ghost tv = tys_view(tys@);
                proof {
                    lemma_tys_view(tys@);
                }
                let n0 = self.gamma.len();
                let mut i: usize = 0;
                while i < tys.len()
                    invariant
                        i <= tys@.len(),
                        n0 == old_gamma.len(),
                        tv == tys_view(tys@),
                        tv.len() == tys@.len(),
                        forall|k: int| 0 <= k < tys@.len() ==> #[trigger] tv[k] == tys@[k]@,
                        self.gamma@.len() == n0 + i,
                        self.gamma@.subrange(0, n0 as int) == old_gamma,
                        tys_view(self.gamma@) == tys_view(old_gamma) + tv.take(i as int),
                    decreases tys@.len() - i,
                {
                    let ghost before = self.gamma@;
                    self.gamma.push(tys[i].clone());
                    proof {
                        assert(self.gamma@.subrange(0, n0 as int) =~= before.subrange(0, n0 as int));
                        assert(self.gamma@.drop_last() =~= before);
                        assert(tv.take(i + 1) =~= tv.take(i as int).push(tv[i as int]));
                        assert(tys_view(self.gamma@) =~= tys_view(before).push(tv[i as int]));
                    }
                    i += 1;
                }
                proof {
                    assert(tv.take(tys@.len() as int) =~= tv);
                }
                let b = self.check(body);
                self.gamma.truncate(n0);
                assert(self.gamma@ =~= old_gamma);
                fold_abs(tys.as_slice(), b)
            },
            Term::App(f, args) => {
                let jf = self.check(f);
                assert(args@.take(args@.len() as int) =~= args@);
                let js = self.check_all(args.as_slice(), args.len());
                fold_app(jf, js.as_slice())
            },
            Term::If(c, a, b) => {
                let jc = self.check(c);
                let ja = self.check(a);
                let jb = self.check(b);
                fold_if(jc, ja, jb)
            },
        }
    }

    /// The judgements of the first `n` terms of `args`, in order.
    fn check_all(&mut self, args: &[Term], n: usize) -> (r: Vec<Judgement>)
        requires
            n <= args@.len(),
        ensures
            final(self).gamma@ == old(self).gamma@,
            all_ok(judgements_view(r@)) == typing_all(
                tys_view(old(self).gamma@),
                terms_view(args@.take(n as int)),
            ),
        decreases args@, n,
    {
        if n == 0 {
            proof {
                assert(terms_view(args@.take(0)) =~= Seq::<TermV>::empty());
                assert(judgements_view(Seq::<Judgement>::empty()) =~= Seq::<Result<TyV, TypeError>>::empty());
            }
            return Vec::new();
        }
        proof {
            let s = args@.take(n as int);
            assert(s.drop_last() =~= args@.take(n - 1));
            lemma_terms_view(s);
            lemma_terms_view(args@.take(n - 1));
            assert(terms_view(s).drop_last() =~= terms_view(args@.take(n - 1)));
            assert(terms_view(s).last() == args@[n - 1]@);
        }
        let mut js = self.check_all(args, n - 1);
        assert(decreases_to!(args@ => args@[n - 1]));
        let j = self.check(&args[n - 1]);
        let ghost before = js@;
        js.push(j);
        proof {
            assert(judgements_view(js@).drop_last() =~= judgements_view(before));
        }
        js
    }
}

} // verus!

verus! {

/// The type of a surface term where `scope` holds the names and types of the
/// binders in scope, innermost last: a variable has the type of the
/// innermost binder of its name.
pub open spec fn named_typing(scope: Seq<(Seq<char>, TyV)>, t: NamedV) -> Result<TyV, TypeError>
    decreases t,
{
    match t {
        NamedV::True | NamedV::False => Ok(TyV::Base(TyLit::Bool)),
        NamedV::Int(_) => Ok(TyV::Base(TyLit::Int)),
        NamedV::Not => Ok(not_ty()),
        NamedV::Var(x) => {
            let j = last_index(param_names(scope), x);
            if j < 0 {
                Err(TypeError::UnknownVariable)
            } else {
                Ok(scope[j].1)
            }
        },
        NamedV::Abs(ps, b) => abs_judgement(param_types(ps), named_typing(scope + ps, *b)),
        NamedV::App(f, args) => app_judgement(named_typing(scope, *f), named_typing_all(scope, args)),
        NamedV::If(c, a, b) => if_judgement(
            named_typing(scope, *c),
            named_typing(scope, *a),
            named_typing(scope, *b),
        ),
        NamedV::Bottom => Ok(TyV::Bottom),
    }
}

/// The named types of a list of terms, or the first failure among them.
pub open spec fn named_typing_all(scope: Seq<(Seq<char>, TyV)>, s: Seq<NamedV>) -> Result<Seq<TyV>, TypeError>
    decreases s,
{
    if s.len() == 0 {
        Ok(Seq::empty())
    } else {
        match named_typing_all(scope, s.drop_last()) {
            Err(e) => Err(e),
            Ok(ts) => match named_typing(scope, s.last()) {
                Err(e) => Err(e),
                Ok(t) => Ok(ts.push(t)),
            },
        }
    }
}

/// The checker and the resolver read indices alike: the core term that a
/// surface term resolves to has the type that the named rules give it,
/// under the same binders.
pub proof fn lemma_resolution_keeps_types(t: NamedV, scope: Seq<(Seq<char>, TyV)>)
    requires
        scope.len() + binder_depth(t) <= u32::MAX,
        resolve(t, param_names(scope)) is Ok,
    ensures
        typing(param_types(scope), resolve(t, param_names(scope))->Ok_0) == named_typing(scope, t),
    decreases t, 0nat,
{
    match t {
        NamedV::Var(x) => {
            lemma_last_index(param_names(scope), x);
        },
        NamedV::Abs(ps, b) => {
            assert(param_names(scope + ps) =~= param_names(scope) + param_names(ps));
            assert(param_types(scope + ps) =~= param_types(scope) + param_types(ps));
            lemma_resolution_keeps_types(*b, scope + ps);
        },
        NamedV::App(f, args) => {
            lemma_resolution_keeps_types(*f, scope);
            lemma_resolution_keeps_types_all(args, scope);
        },
        NamedV::If(c, a, b) => {
            lemma_resolution_keeps_types(*c, scope);
            lemma_resolution_keeps_types(*a, scope);
            lemma_resolution_keeps_types(*b, scope);
        },
        _ => {},
    }
}

proof fn lemma_resolution_keeps_types_all(s: Seq<NamedV>, scope: Seq<(Seq<char>, TyV)>)
    requires
        scope.len() + binder_depth_all(s) <= u32::MAX,
        resolve_all(s, param_names(scope)) is Ok,
    ensures
        typing_all(param_types(scope), resolve_all(s, param_names(scope))->Ok_0) == named_typing_all(
            scope,
            s,
        ),
    decreases s, 1nat,
{
    if s.len() > 0 {
        lemma_depth_all(s, s.len() - 1);
        lemma_resolution_keeps_types_all(s.drop_last(), scope);
        lemma_resolution_keeps_types(s.last(), scope);
        let cs = resolve_all(s, param_names(scope))->Ok_0;
        assert(cs.drop_last() =~= resolve_all(s.drop_last(), param_names(scope))->Ok_0);
    }
}

} // verus!
