//! Free variables of surface terms, and the walks that find them.
use vstd::prelude::*;
use vstd::string::*;
use crate::debrujin::{param_names, scope_view};
use crate::toplevel::{NamedV, Term, lemma_nameds_view, named_text, nameds_view, params_view};
use crate::ty::Ty;

verus! {

/// The names that occur in `t` outside every binder of theirs.
pub open spec fn free_vars(t: NamedV) -> Set<Seq<char>>
    decreases t,
{
    match t {
        NamedV::Var(x) => set![x],
        NamedV::Abs(ps, b) => free_vars(*b).difference(param_names(ps).to_set()),
        NamedV::App(f, args) => free_vars(*f).union(free_vars_all(args)),
        NamedV::If(c, a, b) => free_vars(*c).union(free_vars(*a)).union(free_vars(*b)),
        _ => Set::empty(),
    }
}

/// The free variables of a list of terms.
pub open spec fn free_vars_all(s: Seq<NamedV>) -> Set<Seq<char>>
    decreases s,
{
    if s.len() == 0 {
        Set::empty()
    } else {
        free_vars_all(s.drop_last()).union(free_vars(s.last()))
    }
}

/// The number of nodes of a term.
pub open spec fn size(t: NamedV) -> nat
    decreases t,
{
    match t {
        NamedV::Abs(_, b) => 1 + size(*b),
        NamedV::App(f, args) => 1 + size(*f) + size_all(args),
        NamedV::If(c, a, b) => 1 + size(*c) + size(*a) + size(*b),
        _ => 1,
    }
}

/// The number of nodes of a list of terms.
pub open spec fn size_all(s: Seq<NamedV>) -> nat
    decreases s,
{
    if s.len() == 0 {
        0
    } else {
        size_all(s.drop_last()) + size(s.last())
    }
}

proof fn lemma_size_all(s: Seq<NamedV>, k: int)
    requires
        0 <= k < s.len(),
    ensures
        size(s[k]) <= size_all(s),
        size_all(s.take(k)) + size(s[k]) <= size_all(s),
    decreases s.len(),
{
    if k < s.len() - 1 {
        lemma_size_all(s.drop_last(), k);
        assert(s.drop_last().take(k) =~= s.take(k));
    } else {
        assert(s.drop_last() =~= s.take(k));
    }
}

/// Collects the free variables of a surface term.
pub struct FVVisitor {
    vs: Vec<String>,
    bound: Vec<String>,
    term: Term,
}

fn contains_name(v: &Vec<String>, x: &String) -> (r: bool)
    ensures
        r == scope_view(v@).contains(x@),
{
    let mut i: usize = 0;
    while i < v.len()
        invariant
            i <= v@.len(),
            forall|k: int| 0 <= k < i ==> #[trigger] v@[k]@ != x@,
        decreases v@.len() - i,
    {
        if v[i] == *x {
            assert(scope_view(v@)[i as int] == x@);
            return true;
        }
        i += 1;
    }
    assert(!scope_view(v@).contains(x@)) by {
        if scope_view(v@).contains(x@) {
            let k = choose|k: int| 0 <= k < scope_view(v@).len() && scope_view(v@)[k] == x@;
            assert(v@[k]@ == x@);
        }
    }
    false
}

impl FVVisitor {
    /// The free variables found so far.
    pub closed spec fn found(&self) -> Set<Seq<char>> {
        scope_view(self.vs@).to_set()
    }

    /// The names bound where the walk stands.
    pub closed spec fn bound_names(&self) -> Seq<Seq<char>> {
        scope_view(self.bound@)
    }

    /// The term this visitor was made for.
    pub closed spec fn subject(&self) -> NamedV {
        self.term@
    }

    /// No free variable is recorded twice.
    pub closed spec fn wf(&self) -> bool {
        scope_view(self.vs@).no_duplicates()
    }

    /// Records `x` as free unless it is bound where the walk stands.
    fn visit_var(&mut self, x: &String)
        requires
            old(self).wf(),
        ensures
            final(self).wf(),
            final(self).bound_names() == old(self).bound_names(),
            final(self).subject() == old(self).subject(),
            final(self).found() == old(self).found().union(
                set![x@].difference(old(self).bound_names().to_set()),
            ),
    {
        if !contains_name(&self.bound, x) && !contains_name(&self.vs, x) {
            let ghost before = self.vs@;
            self.vs.push(x.clone());
            proof {
                assert(scope_view(self.vs@) =~= scope_view(before).push(x@));
                scope_view(before).lemma_push_to_set_commute(x@);
            }
        }
        assert(self.found() =~= old(self).found().union(
            set![x@].difference(old(self).bound_names().to_set()),
        ));
    }

    /// The free variables of `term`.
    pub fn new(term: &Term) -> (r: FVVisitor)
        ensures
            r.wf(),
            r.subject() == term@,
            r.found() == free_vars(term@),
    {
        let mut fv = FVVisitor { vs: Vec::new(), bound: Vec::new(), term: term.clone() };
        proof {
            assert(scope_view(fv.bound@).to_set() =~= Set::<Seq<char>>::empty());
            assert(fv.found() =~= Set::<Seq<char>>::empty());
        }
        walk_term(&mut fv, term);
        assert(fv.found() =~= free_vars(term@));
        fv
    }

    /// The free variables found, each once.
    pub fn open_terms(&self) -> (r: Vec<String>)
        requires
            self.wf(),
        ensures
            scope_view(r@).to_set() == self.found(),
            scope_view(r@).no_duplicates(),
    {
        let mut r: Vec<String> = Vec::new();
        let mut i: usize = 0;
        while i < self.vs.len()
            invariant
                i <= self.vs@.len(),
                r@.len() == i,
                forall|k: int| 0 <= k < i ==> #[trigger] r@[k]@ == self.vs@[k]@,
            decreases self.vs@.len() - i,
        {
            r.push(self.vs[i].clone());
            i += 1;
        }
        assert(scope_view(r@) =~= scope_view(self.vs@));
        r
    }

    /// Whether no free variable was found.
    pub fn is_closed(&self) -> (r: bool)
        ensures
            r == (self.found() == Set::<Seq<char>>::empty()),
    {
        proof {
            if self.vs@.len() > 0 {
                assert(scope_view(self.vs@)[0] == self.vs@[0]@);
                assert(scope_view(self.vs@).contains(self.vs@[0]@));
                assert(self.found().contains(self.vs@[0]@));
            } else {
                assert(self.found() =~= Set::<Seq<char>>::empty());
            }
        }
        self.vs.len() == 0
    }

    /// Succeeds where the term is closed; otherwise a message that shows it.
    pub fn check(&self) -> (r: Result<(), String>)
        ensures
            r is Ok <==> self.found() == Set::<Seq<char>>::empty(),
            r matches Err(m) ==> m@ == "Open Terms found in "@ + named_text(self.subject()) + "!"@,
    {
        if !self.is_closed() {
            let mut m = String::from_str("Open Terms found in ");
            let u = self.term.unparse();
            m.append(u.as_str());
            m.append("!");
            Err(m)
        } else {
            Ok(())
        }
    }
}

/// Walks the branches of a conditional.
pub fn walk_if(v: &mut FVVisitor, cond: &Term, b1: &Term, b2: &Term)
    requires
        old(v).wf(),
    ensures
        final(v).wf(),
        final(v).bound_names() == old(v).bound_names(),
        final(v).subject() == old(v).subject(),
        final(v).found() == old(v).found().union(
            free_vars(cond@).union(free_vars(b1@)).union(free_vars(b2@)).difference(
                old(v).bound_names().to_set(),
            ),
        ),
    decreases size(cond@) + size(b1@) + size(b2@), 1nat,
{
    walk_term(v, cond);
    walk_term(v, b1);
    walk_term(v, b2);
    assert(final(v).found() =~= old(v).found().union(
        free_vars(cond@).union(free_vars(b1@)).union(free_vars(b2@)).difference(
            old(v).bound_names().to_set(),
        ),
    ));
}

/// Walks the function and then the arguments of an application.
pub fn walk_app(v: &mut FVVisitor, f: &Term, args: &[Term])
    requires
        old(v).wf(),
    ensures
        final(v).wf(),
        final(v).bound_names() == old(v).bound_names(),
        final(v).subject() == old(v).subject(),
        final(v).found() == old(v).found().union(
            free_vars(f@).union(free_vars_all(nameds_view(args@))).difference(
                old(v).bound_names().to_set(),
            ),
        ),
    decreases size(f@) + size_all(nameds_view(args@)), 1nat,
{
    let ghost av = nameds_view(args@);
    let ghost b = old(v).bound_names().to_set();
    proof {
        lemma_nameds_view(args@);
    }
    walk_term(v, f);
    let mut i: usize = 0;
    while i < args.len()
        invariant
            i <= args@.len(),
            av == nameds_view(args@),
            av.len() == args@.len(),
            forall|k: int| 0 <= k < args@.len() ==> #[trigger] av[k] == args@[k]@,
            b == old(v).bound_names().to_set(),
            v.wf(),
            v.bound_names() == old(v).bound_names(),
            v.subject() == old(v).subject(),
            v.found() == old(v).found().union(
                free_vars(f@).union(free_vars_all(av.take(i as int))).difference(b),
            ),
        decreases args@.len() - i,
    {
        proof {
            lemma_size_all(av, i as int);
            assert(av.take(i + 1).drop_last() =~= av.take(i as int));
        }
        walk_term(v, &args[i]);
        proof {
            assert(v.found() =~= old(v).found().union(
                free_vars(f@).union(free_vars_all(av.take(i + 1))).difference(b),
            ));
        }
        i += 1;
    }
    assert(av.take(args@.len() as int) =~= av);
}

/// Walks the body of an abstraction with its parameters bound.
pub fn walk_abs(v: &mut FVVisitor, args: &[(String, Ty)], body: &Term)
    requires
        old(v).wf(),
    ensures
        final(v).wf(),
        final(v).bound_names() == old(v).bound_names(),
        final(v).subject() == old(v).subject(),
        final(v).found() == old(v).found().union(
            free_vars(body@).difference(param_names(params_view(args@)).to_set()).difference(
                old(v).bound_names().to_set(),
            ),
        ),
    decreases size(body@), 1nat,
{
    let ghost old_bound = v.bound@;
    let ghost names = param_names(params_view(args@));
    let n0 = v.bound.len();
    let mut i: usize = 0;
    while i < args.len()
        invariant
            i <= args@.len(),
            n0 == old_bound.len(),
            names == param_names(params_view(args@)),
            v.bound@.len() == n0 + i,
            v.bound@.subrange(0, n0 as int) == old_bound,
            scope_view(v.bound@) == scope_view(old_bound) + names.take(i as int),
            v.wf(),
            v.found() == old(v).found(),
            v.subject() == old(v).subject(),
            old_bound == old(v).bound@,
        decreases args@.len() - i,
    {
        let ghost before = v.bound@;
        v.bound.push(args[i].0.clone());
        proof {
            assert(v.bound@.subrange(0, n0 as int) =~= before.subrange(0, n0 as int));
            assert(names.take(i + 1) =~= names.take(i as int).push(args@[i as int].0@));
            assert(scope_view(v.bound@) =~= scope_view(before).push(args@[i as int].0@));
        }
        i += 1;
    }
    proof {
        assert(names.take(args@.len() as int) =~= names);
        vstd::seq_lib::seq_to_set_distributes_over_add(scope_view(old_bound), names);
    }
    walk_term(v, body);
    let ghost after = v.bound@;
    v.bound.truncate(n0);
    proof {
        assert(scope_view(after).len() == n0 + names.len());
        assert(scope_view(v.bound@) =~= scope_view(after).subrange(0, n0 as int));
        assert(scope_view(v.bound@) =~= scope_view(old_bound));
    }
    assert(final(v).found() =~= old(v).found().union(
        free_vars(body@).difference(names.to_set()).difference(old(v).bound_names().to_set()),
    ));
}

/// Walks a term, recording its free variables that are not bound where the
/// walk stands.
pub fn walk_term(v: &mut FVVisitor, term: &Term)
    requires
        old(v).wf(),
    ensures
        final(v).wf(),
        final(v).bound_names() == old(v).bound_names(),
        final(v).subject() == old(v).subject(),
        final(v).found() == old(v).found().union(
            free_vars(term@).difference(old(v).bound_names().to_set()),
        ),
    decreases size(term@), 0nat,
{
    match term {
        Term::Var(x) => {
            v.visit_var(x);
        },
        Term::Abs(args, body) => {
            walk_abs(v, args.as_slice(), body);
        },
        Term::App(f, x) => {
            walk_app(v, f, x.as_slice());
        },
        Term::If(cond, b1, b2) => {
            walk_if(v, cond, b1, b2);
        },
        _ => {
            assert(final(v).found() =~= old(v).found().union(
                free_vars(term@).difference(old(v).bound_names().to_set()),
            ));
        },
    }
}

} // verus!
