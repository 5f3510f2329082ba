//! Resolution of names to binder-relative (de Bruijn) indices.
use vstd::prelude::*;
use crate::error::{Error, ErrorV};
use crate::term::{Term, TermV, lemma_terms_view, terms_view};
use crate::toplevel::{NamedV, Term as TTerm, lemma_nameds_view, nameds_view, params_view};
use crate::ty::{Ty, TyV, tys_view};
use crate::visitor::{free_vars, free_vars_all};

verus! {

/// The names of a parameter list, in order.
pub open spec fn param_names(ps: Seq<(Seq<char>, TyV)>) -> Seq<Seq<char>> {
    ps.map_values(|p: (Seq<char>, TyV)| p.0)
}

/// The types of a parameter list, in order.
pub open spec fn param_types(ps: Seq<(Seq<char>, TyV)>) -> Seq<TyV> {
    ps.map_values(|p: (Seq<char>, TyV)| p.1)
}

/// The first name that occurs again later in the list, if any.
pub open spec fn first_dup(names: Seq<Seq<char>>) -> Option<Seq<char>>
    decreases names.len(),
{
    if names.len() == 0 {
        None
    } else if names.drop_first().contains(names[0]) {
        Some(names[0])
    } else {
        first_dup(names.drop_first())
    }
}

/// The position of the last occurrence of `x` in `scope`, or -1.
pub open spec fn last_index(scope: Seq<Seq<char>>, x: Seq<char>) -> int
    decreases scope.len(),
{
    if scope.len() == 0 {
        -1
    } else if scope.last() == x {
        scope.len() - 1
    } else {
        last_index(scope.drop_last(), x)
    }
}

/// The most binder names a term brings into scope at once.
pub open spec fn binder_depth(t: NamedV) -> nat
    decreases t,
{
    match t {
        NamedV::Abs(ps, b) => ps.len() + binder_depth(*b),
        NamedV::App(f, args) => {
            let a = binder_depth(*f);
            let b = binder_depth_all(args);
            if a >= b { a } else { b }
        },
        NamedV::If(c, x, y) => {
            let a = binder_depth(*c);
            let b = binder_depth(*x);
            let d = binder_depth(*y);
            if a >= b && a >= d { a } else if b >= d { b } else { d }
        },
        _ => 0,
    }
}

/// The greatest binder depth of a list of terms.
pub open spec fn binder_depth_all(s: Seq<NamedV>) -> nat
    decreases s,
{
    if s.len() == 0 {
        0
    } else {
        let a = binder_depth_all(s.drop_last());
        let b = binder_depth(s.last());
        if a >= b { a } else { b }
    }
}

/// Resolution of `t` under the binder names `scope`, innermost last: a
/// variable becomes the number of binders from it to the one that names it
/// (1 for the innermost); each parameter of an abstraction is a binder of
/// its own, the last one innermost. Sub-terms are resolved left to right and
/// the first failure is the result.
pub open spec fn resolve(t: NamedV, scope: Seq<Seq<char>>) -> Result<TermV, ErrorV>
    decreases t,
{
    match t {
        NamedV::Var(x) => {
            let j = last_index(scope, x);
            if j < 0 {
                Err(ErrorV::FreeVariable(x))
            } else {
                Ok(TermV::Var((scope.len() - j) as u32))
            }
        },
        NamedV::Abs(ps, b) => match first_dup(param_names(ps)) {
            Some(x) => Err(ErrorV::DuplicateBinder(x)),
            None => match resolve(*b, scope + param_names(ps)) {
                Ok(c) => Ok(TermV::Abs(param_types(ps), Box::new(c))),
                Err(e) => Err(e),
            },
        },
        NamedV::App(f, args) => match resolve(*f, scope) {
            Err(e) => Err(e),
            Ok(cf) => match resolve_all(args, scope) {
                Err(e) => Err(e),
                Ok(cs) => Ok(TermV::App(Box::new(cf), cs)),
            },
        },
        NamedV::Int(n) => Ok(TermV::Int(n)),
        NamedV::True => Ok(TermV::True),
        NamedV::False => Ok(TermV::False),
        NamedV::Not => Ok(TermV::Not),
        NamedV::If(c, x, y) => match resolve(*c, scope) {
            Err(e) => Err(e),
            Ok(rc) => match resolve(*x, scope) {
                Err(e) => Err(e),
                Ok(rx) => match resolve(*y, scope) {
                    Err(e) => Err(e),
                    Ok(ry) => Ok(TermV::If(Box::new(rc), Box::new(rx), Box::new(ry))),
                },
            },
        },
        NamedV::Bottom => Ok(TermV::Stuck),
    }
}

/// Resolution of a list of terms, left to right.
pub open spec fn resolve_all(s: Seq<NamedV>, scope: Seq<Seq<char>>) -> Result<Seq<TermV>, ErrorV>
    decreases s,
{
    if s.len() == 0 {
        Ok(Seq::empty())
    } else {
        match resolve_all(s.drop_last(), scope) {
            Err(e) => Err(e),
            Ok(cs) => match resolve(s.last(), scope) {
                Err(e) => Err(e),
                Ok(c) => Ok(cs.push(c)),
            },
        }
    }
}

/// Resolution of a closed term: no binder is in scope.
pub open spec fn resolve_closed(t: NamedV) -> Result<TermV, ErrorV> {
    resolve(t, Seq::empty())
}

/// The names of a scope.
pub open spec fn scope_view(s: Seq<String>) -> Seq<Seq<char>> {
    s.map_values(|x: String| x@)
}

/// `d`, or `u32::MAX + 1` where it is larger.
pub open spec fn capped(d: nat) -> nat {
    if d <= u32::MAX {
        d
    } else {
        0x1_0000_0000nat
    }
}

/// The binder depth of `t`, capped at `u32::MAX + 1`: `t` can be resolved
/// where this is at most `u32::MAX`.
pub fn depth_of(t: &TTerm) -> (r: u64)
    ensures
        r == capped(binder_depth(t@)),
    decreases t, 0nat,
{
    let cap: u64 = 0x1_0000_0000;
    match t {
        TTerm::Abs(ps, b) => {
            let db = depth_of(b);
            if ps.len() as u64 >= cap {
                cap
            } else {
                let d = ps.len() as u64 + db;
                if d >= cap {
                    cap
                } else {
                    d
                }
            }
        },
        TTerm::App(f, args) => {
            let a = depth_of(f);
            assert(args@.take(args@.len() as int) =~= args@);
            let b = depth_of_all(args.as_slice(), args.len());
            if a >= b {
                a
            } else {
                b
            }
        },
        TTerm::If(c, x, y) => {
            let a = depth_of(c);
            let b = depth_of(x);
            let d = depth_of(y);
            if a >= b && a >= d {
                a
            } else if b >= d {
                b
            } else {
                d
            }
        },
        _ => 0,
    }
}

/// The capped binder depth of the first `n` terms of `args`.
fn depth_of_all(args: &[TTerm], n: usize) -> (r: u64)
    requires
        n <= args@.len(),
    ensures
        r == capped(binder_depth_all(nameds_view(args@.take(n as int)))),
    decreases args@, n,
{
    if n == 0 {
        assert(nameds_view(args@.take(0)) =~= Seq::<NamedV>::empty());
        return 0;
    }
    proof {
        let s = args@.take(n as int);
        assert(s.drop_last() =~= args@.take(n - 1));
        lemma_nameds_view(s);
        lemma_nameds_view(args@.take(n - 1));
        assert(nameds_view(s).drop_last() =~= nameds_view(args@.take(n - 1)));
        assert(nameds_view(s).last() == args@[n - 1]@);
    }
    let a = depth_of_all(args, n - 1);
    assert(decreases_to!(args@ => args@[n - 1]));
    let b = depth_of(&args[n - 1]);
    if a >= b {
        a
    } else {
        b
    }
}

/// Converts surface terms to core terms; holds the binder names in scope,
/// innermost last, while it walks a term.
pub struct RenameVisitor {
    vs: Vec<String>,
}

fn find_dup(ps: &Vec<(String, Ty)>) -> (r: Option<usize>)
    ensures
        match first_dup(param_names(params_view(ps@))) {
            Some(x) => r matches Some(k) && k < ps@.len() && ps@[k as int].0@ == x,
            None => r is None,
        },
{
    let ghost names = param_names(params_view(ps@));
    let n = ps.len();
    let mut i: usize = 0;
    assert(names.subrange(0, n as int) =~= names);
    while i < n
        invariant
            n == ps@.len(),
            i <= n,
            names == param_names(params_view(ps@)),
            names.len() == n,
            forall|k: int| 0 <= k < n ==> #[trigger] names[k] == ps@[k].0@,
            first_dup(names) == first_dup(names.subrange(i as int, n as int)),
        decreases n - i,
    {
        let mut j: usize = i + 1;
        while j < n
            invariant
                n == ps@.len(),
                i < n,
                i < j <= n,
                names == param_names(params_view(ps@)),
                names.len() == n,
                forall|k: int| 0 <= k < n ==> #[trigger] names[k] == ps@[k].0@,
                forall|k: int| i < k < j ==> #[trigger] names[k] != names[i as int],
                first_dup(names) == first_dup(names.subrange(i as int, n as int)),
            decreases n - j,
        {
            if ps[i].0 == ps[j].0 {
                proof {
                    let sub = names.subrange(i as int, n as int);
                    assert(sub.drop_first()[j - i - 1] == names[j as int]);
                    assert(sub.drop_first().contains(sub[0]));
                    assert(sub[0] == names[i as int]);
                    assert(first_dup(sub) == Some(names[i as int]));
                }
                return Some(i);
            }
            j += 1;
        }
        proof {
            let sub = names.subrange(i as int, n as int);
            assert(sub.drop_first() =~= names.subrange(i + 1, n as int));
            assert(!sub.drop_first().contains(sub[0])) by {
                if sub.drop_first().contains(sub[0]) {
                    let m = choose|m: int| 0 <= m < sub.drop_first().len() && sub.drop_first()[m] == sub[0];
                    assert(names[i + 1 + m] == names[i as int]);
                }
            }
        }
        i += 1;
    }
    assert(names.subrange(n as int, n as int) =~= Seq::<Seq<char>>::empty());
    None
}

fn param_types_of(ps: &Vec<(String, Ty)>) -> (r: Vec<Ty>)
    ensures
        tys_view(r@) == param_types(params_view(ps@)),
{
    let mut r: Vec<Ty> = Vec::new();
    let mut i: usize = 0;
    while i < ps.len()
        invariant
            i <= ps@.len(),
            r@.len() == i,
            forall|j: int| 0 <= j < i ==> #[trigger] r@[j]@ == ps@[j].1@,
        decreases ps@.len() - i,
    {
        r.push(ps[i].1.clone());
        i += 1;
    }
    proof {
        crate::ty::lemma_tys_view(r@);
        assert(tys_view(r@) =~= param_types(params_view(ps@)));
    }
    r
}

impl RenameVisitor {
    /// Whether no binder is in scope, as between two conversions.
    pub closed spec fn is_reset(&self) -> bool {
        self.vs@.len() == 0
    }

    /// A visitor with no binder in scope.
    pub fn new() -> (r: RenameVisitor)
        ensures
            r.is_reset(),
    {
        RenameVisitor { vs: Vec::new() }
    }

    /// Converts `term`, which no binder encloses, to a core term.
    pub fn rename_term(&mut self, term: &TTerm) -> (r: Result<Term, Error>)
        requires
            old(self).is_reset(),
            binder_depth(term@) <= u32::MAX,
        ensures
            final(self).is_reset(),
            match resolve_closed(term@) {
                Ok(c) => r matches Ok(x) && x@ == c,
                Err(e) => r matches Err(x) && x@ == e,
            },
    {
        proof {
            assert(scope_view(self.vs@) =~= Seq::<Seq<char>>::empty());
        }
        let ret = self.rename(term);
        self.reset();
        ret
    }

    fn reset(&mut self)
        ensures
            final(self).is_reset(),
    {
        self.vs.clear();
    }

    fn lookup(&self, x: &String) -> (r: Option<usize>)
        ensures
            r is None ==> last_index(scope_view(self.vs@), x@) < 0,
            r matches Some(j) ==> j < self.vs@.len() && j as int == last_index(scope_view(self.vs@), x@),
    {
        let ghost sc = scope_view(self.vs@);
        let mut j: usize = self.vs.len();
        assert(sc.take(j as int) =~= sc);
        while j > 0
            invariant
                j <= self.vs@.len(),
                sc == scope_view(self.vs@),
                last_index(sc, x@) == last_index(sc.take(j as int), x@),
            decreases j,
        {
            proof {
                assert(sc.take(j as int).drop_last() =~= sc.take(j - 1));
                assert(sc.take(j as int).last() == self.vs@[j - 1]@);
            }
            if self.vs[j - 1] == *x {
                return Some(j - 1);
            }
            j -= 1;
        }
        assert(sc.take(0) =~= Seq::<Seq<char>>::empty());
        None
    }

    fn rename(&mut self, t: &TTerm) -> (r: Result<Term, Error>)
        requires
            old(self).vs@.len() + binder_depth(t@) <= u32::MAX,
        ensures
            final(self).vs@ == old(self).vs@,
            match resolve(t@, scope_view(old(self).vs@)) {
                Ok(c) => r matches Ok(x) && x@ == c,
                Err(e) => r matches Err(x) && x@ == e,
            },
        decreases t, 0nat,
    {
        match t {
            TTerm::True => Ok(Term::True),
            TTerm::False => Ok(Term::False),
            TTerm::Not => Ok(Term::Not),
            TTerm::Bottom => Ok(Term::Stuck),
            TTerm::Int(n) => Ok(Term::Int(*n)),
            TTerm::Var(x) => match self.lookup(x) {
                Some(j) => Ok(Term::Var((self.vs.len() - j) as u32)),
                None => Err(Error::FreeVariable(x.clone())),
            },
            TTerm::Abs(args, body) => {
                match find_dup(args) {
                    Some(k) => {
                        return Err(Error::DuplicateBinder(args[k].0.clone()));
                    },
                    None => {},
                }
                let ghost old_vs = self.vs@;
                let ghost names = param_names(params_view(args@));
                let n0 = self.vs.len();
                let mut i: usize = 0;
                while i < args.len()
                    invariant
                        i <= args@.len(),
                        n0 == old_vs.len(),
                        names == param_names(params_view(args@)),
                        self.vs@.len() == n0 + i,
                        self.vs@.subrange(0, n0 as int) == old_vs,
                        scope_view(self.vs@) == scope_view(old_vs) + names.take(i as int),
                    decreases args@.len() - i,
                {
                    let ghost before = self.vs@;
                    self.vs.push(args[i].0.clone());
                    proof {
                        assert(self.vs@.subrange(0, n0 as int) =~= before.subrange(0, n0 as int));
                        assert(names.take(i + 1) =~= names.take(i as int).push(args@[i as int].0@));
                        assert(scope_view(self.vs@) =~= scope_view(before).push(args@[i as int].0@));
                    }
                    i += 1;
                }
                proof {
                    assert(names.take(args@.len() as int) =~= names);
                }
                let tys = param_types_of(args);
                let b = self.rename(body);
                self.vs.truncate(n0);
                assert(self.vs@ =~= old_vs);
                match b {
                    Ok(c) => Ok(Term::Abs(tys, Box::new(c))),
                    Err(e) => Err(e),
                }
            },
            TTerm::App(f, args) => {
                let cf = match self.rename(f) {
                    Ok(c) => c,
                    Err(e) => return Err(e),
                };
                assert(args@.take(args@.len() as int) =~= args@);
                let cs = match self.rename_all(args.as_slice(), args.len()) {
                    Ok(cs) => cs,
                    Err(e) => return Err(e),
                };
                Ok(Term::App(Box::new(cf), cs))
            },
            TTerm::If(c, x, y) => {
                let rc = match self.rename(c) {
                    Ok(v) => v,
                    Err(e) => return Err(e),
                };
                let rx = match self.rename(x) {
                    Ok(v) => v,
                    Err(e) => return Err(e),
                };
                let ry = match self.rename(y) {
                    Ok(v) => v,
                    Err(e) => return Err(e),
                };
                Ok(Term::If(Box::new(rc), Box::new(rx), Box::new(ry)))
            },
        }
    }

    /// Converts the first `n` terms of `args`, in order.
    fn rename_all(&mut self, args: &[TTerm], n: usize) -> (r: Result<Vec<Term>, Error>)
        requires
            n <= args@.len(),
            old(self).vs@.len() + binder_depth_all(nameds_view(args@.take(n as int))) <= u32::MAX,
        ensures
            final(self).vs@ == old(self).vs@,
            match resolve_all(nameds_view(args@.take(n as int)), scope_view(old(self).vs@)) {
                Ok(cs) => r matches Ok(v) && terms_view(v@) == cs,
                Err(e) => r matches Err(x) && x@ == e,
            },
        decreases args@, n,
    {
        if n == 0 {
            proof {
                assert(nameds_view(args@.take(0)) =~= Seq::<NamedV>::empty());
                assert(terms_view(Seq::<Term>::empty()) =~= Seq::<TermV>::empty());
            }
            return Ok(Vec::new());
        }
        proof {
            let s = args@.take(n as int);
            assert(s.drop_last() =~= args@.take(n - 1));
            lemma_nameds_view(s);
            lemma_nameds_view(args@.take(n - 1));
            assert(nameds_view(s).drop_last() =~= nameds_view(args@.take(n - 1)));
            assert(nameds_view(s).last() == args@[n - 1]@);
        }
        let mut cs = match self.rename_all(args, n - 1) {
            Ok(v) => v,
            Err(e) => return Err(e),
        };
        assert(decreases_to!(args@ => args@[n - 1]));
        let c = match self.rename(&args[n - 1]) {
            Ok(v) => v,
            Err(e) => return Err(e),
        };
        let ghost before = cs@;
        cs.push(c);
        proof {
            lemma_terms_view(cs@);
            lemma_terms_view(before);
            assert(terms_view(cs@) =~= terms_view(before).push(c@));
        }
        Ok(cs)
    }
}

} // verus!

verus! {

/// No abstraction in `t` names a parameter twice.
pub open spec fn dup_free(t: NamedV) -> bool
    decreases t,
{
    match t {
        NamedV::Abs(ps, b) => first_dup(param_names(ps)) is None && dup_free(*b),
        NamedV::App(f, args) => dup_free(*f) && dup_free_all(args),
        NamedV::If(c, a, b) => dup_free(*c) && dup_free(*a) && dup_free(*b),
        _ => true,
    }
}

/// No abstraction in the terms names a parameter twice.
pub open spec fn dup_free_all(s: Seq<NamedV>) -> bool
    decreases s,
{
    s.len() == 0 || (dup_free_all(s.drop_last()) && dup_free(s.last()))
}

/// Whether the core term `c` has the shape of `t`, carries the parameter
/// types of each abstraction of `t` in order, and each of its indices, read
/// back against `scope` and the binders that enclose it, lands on the
/// innermost binder of the name that stands in `t`.
pub open spec fn names_match(t: NamedV, c: TermV, scope: Seq<Seq<char>>) -> bool
    decreases t,
{
    match t {
        NamedV::Var(x) => match c {
            TermV::Var(i) => 1 <= i <= scope.len() && scope[scope.len() - i] == x && forall|k: int|
                scope.len() - i < k < scope.len() ==> scope[k] != x,
            _ => false,
        },
        NamedV::Abs(ps, b) => match c {
            TermV::Abs(tys, cb) => tys == param_types(ps) && names_match(*b, *cb, scope + param_names(ps)),
            _ => false,
        },
        NamedV::App(f, args) => match c {
            TermV::App(cf, cargs) => names_match(*f, *cf, scope) && names_match_all(args, cargs, scope),
            _ => false,
        },
        NamedV::If(t1, t2, t3) => match c {
            TermV::If(c1, c2, c3) => names_match(*t1, *c1, scope) && names_match(*t2, *c2, scope)
                && names_match(*t3, *c3, scope),
            _ => false,
        },
        NamedV::Int(n) => c == TermV::Int(n),
        NamedV::True => c == TermV::True,
        NamedV::False => c == TermV::False,
        NamedV::Not => c == TermV::Not,
        NamedV::Bottom => c == TermV::Stuck,
    }
}

/// `names_match`, term by term.
pub open spec fn names_match_all(s: Seq<NamedV>, cs: Seq<TermV>, scope: Seq<Seq<char>>) -> bool
    decreases s,
{
    s.len() == cs.len() && (s.len() == 0 || (names_match_all(s.drop_last(), cs.drop_last(), scope)
        && names_match(s.last(), cs.last(), scope)))
}

pub proof fn lemma_last_index(scope: Seq<Seq<char>>, x: Seq<char>)
    ensures
        -1 <= last_index(scope, x) < scope.len(),
        last_index(scope, x) >= 0 ==> scope[last_index(scope, x)] == x,
        forall|k: int| last_index(scope, x) < k < scope.len() ==> scope[k] != x,
        last_index(scope, x) < 0 <==> !scope.contains(x),
    decreases scope.len(),
{
    if scope.len() > 0 {
        lemma_last_index(scope.drop_last(), x);
        if scope.last() != x {
            assert forall|k: int| last_index(scope, x) < k < scope.len() implies scope[k] != x by {
                if k < scope.len() - 1 {
                    assert(scope.drop_last()[k] == scope[k]);
                }
            }
            if scope.contains(x) {
                let k = choose|k: int| 0 <= k < scope.len() && scope[k] == x;
                assert(scope.drop_last()[k] == x);
            }
        }
    }
}

pub proof fn lemma_depth_all(s: Seq<NamedV>, k: int)
    requires
        0 <= k < s.len(),
    ensures
        binder_depth(s[k]) <= binder_depth_all(s),
        binder_depth_all(s.drop_last()) <= binder_depth_all(s),
    decreases s.len(),
{
    if k < s.len() - 1 {
        lemma_depth_all(s.drop_last(), k);
    }
}

/// Each index that resolution gives leads back, through the scope and the
/// enclosing binders, to the innermost binder of its name; the shape and
/// the parameter types stay as they were.
pub proof fn lemma_resolve_names_match(t: NamedV, scope: Seq<Seq<char>>)
    requires
        scope.len() + binder_depth(t) <= u32::MAX,
        resolve(t, scope) is Ok,
    ensures
        names_match(t, resolve(t, scope)->Ok_0, scope),
    decreases t, 0nat,
{
    match t {
        NamedV::Var(x) => {
            lemma_last_index(scope, x);
        },
        NamedV::Abs(ps, b) => {
            lemma_resolve_names_match(*b, scope + param_names(ps));
        },
        NamedV::App(f, args) => {
            lemma_resolve_names_match(*f, scope);
            lemma_resolve_all_names_match(args, scope);
        },
        NamedV::If(c, a, b) => {
            lemma_resolve_names_match(*c, scope);
            lemma_resolve_names_match(*a, scope);
            lemma_resolve_names_match(*b, scope);
        },
        _ => {},
    }
}

proof fn lemma_resolve_all_names_match(s: Seq<NamedV>, scope: Seq<Seq<char>>)
    requires
        scope.len() + binder_depth_all(s) <= u32::MAX,
        resolve_all(s, scope) is Ok,
    ensures
        names_match_all(s, resolve_all(s, scope)->Ok_0, scope),
    decreases s, 1nat,
{
    if s.len() > 0 {
        lemma_depth_all(s, s.len() - 1);
        lemma_resolve_all_names_match(s.drop_last(), scope);
        lemma_resolve_names_match(s.last(), scope);
        let cs = resolve_all(s, scope)->Ok_0;
        assert(cs.drop_last() =~= resolve_all(s.drop_last(), scope)->Ok_0);
    }
}

/// A term resolves only where every free variable of it is named in the
/// scope.
pub proof fn lemma_resolved_terms_are_closed(t: NamedV, scope: Seq<Seq<char>>)
    requires
        resolve(t, scope) is Ok,
    ensures
        free_vars(t).subset_of(scope.to_set()),
    decreases t, 0nat,
{
    match t {
        NamedV::Var(x) => {
            lemma_last_index(scope, x);
        },
        NamedV::Abs(ps, b) => {
            lemma_resolved_terms_are_closed(*b, scope + param_names(ps));
            vstd::seq_lib::seq_to_set_distributes_over_add(scope, param_names(ps));
        },
        NamedV::App(f, args) => {
            lemma_resolved_terms_are_closed(*f, scope);
            lemma_resolved_all_are_closed(args, scope);
        },
        NamedV::If(c, a, b) => {
            lemma_resolved_terms_are_closed(*c, scope);
            lemma_resolved_terms_are_closed(*a, scope);
            lemma_resolved_terms_are_closed(*b, scope);
        },
        _ => {},
    }
}

proof fn lemma_resolved_all_are_closed(s: Seq<NamedV>, scope: Seq<Seq<char>>)
    requires
        resolve_all(s, scope) is Ok,
    ensures
        free_vars_all(s).subset_of(scope.to_set()),
    decreases s, 1nat,
{
    if s.len() > 0 {
        lemma_resolved_all_are_closed(s.drop_last(), scope);
        lemma_resolved_terms_are_closed(s.last(), scope);
    }
}

/// A term whose free variables are all named in the scope, and whose
/// abstractions name no parameter twice, resolves.
pub proof fn lemma_bound_terms_resolve(t: NamedV, scope: Seq<Seq<char>>)
    requires
        free_vars(t).subset_of(scope.to_set()),
        dup_free(t),
    ensures
        resolve(t, scope) is Ok,
    decreases t, 0nat,
{
    match t {
        NamedV::Var(x) => {
            assert(free_vars(t).contains(x));
            lemma_last_index(scope, x);
        },
        NamedV::Abs(ps, b) => {
            vstd::seq_lib::seq_to_set_distributes_over_add(scope, param_names(ps));
            lemma_bound_terms_resolve(*b, scope + param_names(ps));
        },
        NamedV::App(f, args) => {
            lemma_bound_terms_resolve(*f, scope);
            lemma_bound_all_resolve(args, scope);
        },
        NamedV::If(c, a, b) => {
            lemma_bound_terms_resolve(*c, scope);
            lemma_bound_terms_resolve(*a, scope);
            lemma_bound_terms_resolve(*b, scope);
        },
        _ => {},
    }
}

proof fn lemma_bound_all_resolve(s: Seq<NamedV>, scope: Seq<Seq<char>>)
    requires
        free_vars_all(s).subset_of(scope.to_set()),
        dup_free_all(s),
    ensures
        resolve_all(s, scope) is Ok,
    decreases s, 1nat,
{
    if s.len() > 0 {
        lemma_bound_all_resolve(s.drop_last(), scope);
        lemma_bound_terms_resolve(s.last(), scope);
    }
}

/// Resolution of a closed term: it succeeds where no abstraction names a
/// parameter twice, and each index leads back to the innermost binder of
/// the variable's name.
pub proof fn lemma_closed_terms_resolve(t: NamedV)
    requires
        free_vars(t) == Set::<Seq<char>>::empty(),
        dup_free(t),
        binder_depth(t) <= u32::MAX,
    ensures
        resolve_closed(t) is Ok,
        names_match(t, resolve_closed(t)->Ok_0, Seq::empty()),
{
    lemma_bound_terms_resolve(t, Seq::empty());
    lemma_resolve_names_match(t, Seq::empty());
}

/// A term with a free variable fails to resolve at no enclosing binder.
pub proof fn lemma_open_terms_fail(t: NamedV, x: Seq<char>)
    requires
        free_vars(t).contains(x),
    ensures
        resolve_closed(t) is Err,
{
    if resolve_closed(t) is Ok {
        lemma_resolved_terms_are_closed(t, Seq::empty());
        assert(Seq::<Seq<char>>::empty().to_set().contains(x));
    }
}

} // verus!
