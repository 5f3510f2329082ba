//! Types: base types, multi-parameter arrows and the type of stuck terms.
use vstd::prelude::*;
use vstd::string::*;

verus! {

/// A primitive type.
#[derive(Clone, Copy, PartialEq, Eq, Structural, Debug, Hash, PartialOrd, Ord)]
pub enum TyLit {
    Bool,
    Int,
}

/// The spelling of a base type in source text.
pub open spec fn lit_text(l: TyLit) -> Seq<char> {
    match l {
        TyLit::Bool => seq!['#', 'B'],
        TyLit::Int => seq!['#', 'I', 'n', 't'],
    }
}

impl TyLit {
    /// The base type spelled `lit`, if any.
    pub fn from_lit(lit: &str) -> (r: Option<TyLit>)
        ensures
            r == Some(TyLit::Bool) <==> lit@ == lit_text(TyLit::Bool),
            r == Some(TyLit::Int) <==> lit@ == lit_text(TyLit::Int),
            r is None <==> (lit@ != lit_text(TyLit::Bool) && lit@ != lit_text(TyLit::Int)),
    {
        proof {
            reveal_strlit("#B");
            reveal_strlit("#Int");
        }
        assert(lit_text(TyLit::Bool) != lit_text(TyLit::Int));
        if crate::text::str_eq(lit, "#B") {
            assert("#B"@ =~= lit_text(TyLit::Bool));
            Some(TyLit::Bool)
        } else if crate::text::str_eq(lit, "#Int") {
            assert("#Int"@ =~= lit_text(TyLit::Int));
            Some(TyLit::Int)
        } else {
            assert("#B"@ =~= lit_text(TyLit::Bool));
            assert("#Int"@ =~= lit_text(TyLit::Int));
            None
        }
    }

    /// The spelling of this base type.
    pub fn to_lit(&self) -> (r: &'static str)
        ensures
            r@ == lit_text(*self),
    {
        proof {
            reveal_strlit("#B");
            reveal_strlit("#Int");
        }
        match *self {
            TyLit::Int => {
                assert("#Int"@ =~= lit_text(TyLit::Int));
                "#Int"
            },
            TyLit::Bool => {
                assert("#B"@ =~= lit_text(TyLit::Bool));
                "#B"
            },
        }
    }
}

/// A type.
#[derive(Debug, Eq)]
pub enum Ty {
    Base(TyLit),
    Arrow(Vec<Ty>, Box<Ty>),
    Bottom,
}

/// The mathematical value of a type.
pub enum TyV {
    Base(TyLit),
    Arrow(Seq<TyV>, Box<TyV>),
    Bottom,
}

pub open spec fn ty_view(t: Ty) -> TyV
    decreases t,
{
    match t {
        Ty::Base(l) => TyV::Base(l),
        Ty::Arrow(ps, r) => TyV::Arrow(tys_view(ps@), Box::new(ty_view(*r))),
        Ty::Bottom => TyV::Bottom,
    }
}

/// The values of a sequence of types.
pub open spec fn tys_view(s: Seq<Ty>) -> Seq<TyV>
    decreases s,
{
    if s.len() == 0 {
        Seq::empty()
    } else {
        tys_view(s.drop_last()).push(ty_view(s.last()))
    }
}

impl View for Ty {
    type V = TyV;

    open spec fn view(&self) -> TyV {
        ty_view(*self)
    }
}

pub proof fn lemma_tys_view(s: Seq<Ty>)
    ensures
        tys_view(s).len() == s.len(),
        forall|i: int| 0 <= i < s.len() ==> #[trigger] tys_view(s)[i] == s[i]@,
    decreases s.len(),
{
    if s.len() > 0 {
        lemma_tys_view(s.drop_last());
    }
}

/// The text of a type: `#B`, `#Int`, `(T1, T2 -> R)` or `_|_`.
pub open spec fn ty_text(t: TyV) -> Seq<char>
    decreases t,
{
    match t {
        TyV::Base(l) => lit_text(l),
        TyV::Arrow(ps, r) => seq!['('] + tys_text(ps) + seq![' ', '-', '>', ' '] + ty_text(*r) + seq![')'],
        TyV::Bottom => seq!['_', '|', '_'],
    }
}

/// The texts of a list of types, separated by `, `.
pub open spec fn tys_text(ps: Seq<TyV>) -> Seq<char>
    decreases ps,
{
    if ps.len() == 0 {
        Seq::empty()
    } else if ps.len() == 1 {
        ty_text(ps[0])
    } else {
        tys_text(ps.drop_last()) + seq![',', ' '] + ty_text(ps.last())
    }
}

/// The type `Arrow([Base(Bool)], Base(Bool))` of negation.
pub open spec fn not_ty() -> TyV {
    TyV::Arrow(seq![TyV::Base(TyLit::Bool)], Box::new(TyV::Base(TyLit::Bool)))
}

fn copy_ty(t: &Ty) -> (r: Ty)
    ensures
        r@ == t@,
    decreases t,
{
    match t {
        Ty::Base(l) => Ty::Base(*l),
        Ty::Arrow(ps, r) => Ty::Arrow(copy_tys(ps.as_slice()), Box::new(copy_ty(r))),
        Ty::Bottom => Ty::Bottom,
    }
}

/// A fresh vector holding copies of the types in `s`.
pub fn copy_tys(s: &[Ty]) -> (r: Vec<Ty>)
    ensures
        tys_view(r@) == tys_view(s@),
    decreases s@,
{
    let mut r: Vec<Ty> = Vec::new();
    let mut i: usize = 0;
    while i < s.len()
        invariant
            i <= s@.len(),
            r@.len() == i,
            forall|j: int| 0 <= j < i ==> #[trigger] r@[j]@ == s@[j]@,
        decreases s@.len() - i,
    {
        assert(decreases_to!(s@ => s@[i as int]));
        r.push(copy_ty(&s[i]));
        i += 1;
    }
    proof {
        lemma_tys_view(r@);
        lemma_tys_view(s@);
        assert(tys_view(r@) =~= tys_view(s@));
    }
    r
}

impl Clone for Ty {
    fn clone(&self) -> (r: Ty)
        ensures
            r@ == self@,
    {
        copy_ty(self)
    }
}

fn tys_eq(a: &Vec<Ty>, b: &Vec<Ty>) -> (r: bool)
    ensures
        r == (tys_view(a@) == tys_view(b@)),
    decreases a,
{
    proof {
        lemma_tys_view(a@);
        lemma_tys_view(b@);
    }
    if a.len() != b.len() {
        return false;
    }
    let mut i: usize = 0;
    while i < a.len()
        invariant
            i <= a@.len(),
            a@.len() == b@.len(),
            tys_view(a@).len() == a@.len(),
            tys_view(b@).len() == b@.len(),
            forall|j: int| 0 <= j < a@.len() ==> #[trigger] tys_view(a@)[j] == a@[j]@,
            forall|j: int| 0 <= j < b@.len() ==> #[trigger] tys_view(b@)[j] == b@[j]@,
            forall|j: int| 0 <= j < i ==> #[trigger] a@[j]@ == b@[j]@,
        decreases a@.len() - i,
    {
        assert(decreases_to!(a => a@[i as int]));
        if !ty_eq(&a[i], &b[i]) {
            assert(tys_view(a@)[i as int] != tys_view(b@)[i as int]);
            return false;
        }
        i += 1;
    }
    assert(tys_view(a@) =~= tys_view(b@));
    true
}

fn ty_eq(a: &Ty, b: &Ty) -> (r: bool)
    ensures
        r == (a@ == b@),
    decreases a,
{
    match (a, b) {
        (Ty::Base(x), Ty::Base(y)) => *x == *y,
        (Ty::Arrow(ps, r), Ty::Arrow(qs, s)) => tys_eq(ps, qs) && ty_eq(r, s),
        (Ty::Bottom, Ty::Bottom) => true,
        _ => false,
    }
}

impl PartialEq for Ty {
    fn eq(&self, o: &Ty) -> (r: bool) {
        ty_eq(self, o)
    }
}

impl vstd::std_specs::cmp::PartialEqSpecImpl for Ty {
    open spec fn obeys_eq_spec() -> bool {
        true
    }

    open spec fn eq_spec(&self, o: &Ty) -> bool {
        self@ == o@
    }
}

impl From<TyLit> for Ty {
    fn from(t: TyLit) -> (r: Ty) {
        Ty::Base(t)
    }
}

impl vstd::std_specs::convert::FromSpecImpl<TyLit> for Ty {
    open spec fn obeys_from_spec() -> bool {
        true
    }

    open spec fn from_spec(t: TyLit) -> Ty {
        Ty::Base(t)
    }
}

fn ty_string(t: &Ty) -> (r: String)
    ensures
        r@ == ty_text(t@),
    decreases t,
{
    match t {
        Ty::Base(l) => String::from_str(l.to_lit()),
        Ty::Arrow(ps, res) => {
            proof {
                reveal_strlit("(");
                reveal_strlit(" -> ");
                reveal_strlit(")");
            }
            let mut s = String::from_str("(");
            let inner = tys_string(ps.as_slice());
            s.append(inner.as_str());
            s.append(" -> ");
            let u = ty_string(res);
            s.append(u.as_str());
            s.append(")");
            s
        },
        Ty::Bottom => {
            proof {
                reveal_strlit("_|_");
            }
            String::from_str("_|_")
        },
    }
}

fn tys_string(ps: &[Ty]) -> (r: String)
    ensures
        r@ == tys_text(tys_view(ps@)),
    decreases ps@,
{
    proof {
        lemma_tys_view(ps@);
    }
    let ghost pv = tys_view(ps@);
    let mut s = String::new();
    let mut i: usize = 0;
    while i < ps.len()
        invariant
            i <= ps@.len(),
            pv.len() == ps@.len(),
            pv == tys_view(ps@),
            forall|j: int| 0 <= j < ps@.len() ==> #[trigger] pv[j] == ps@[j]@,
            s@ == tys_text(pv.take(i as int)),
        decreases ps@.len() - i,
    {
        proof {
            reveal_strlit(", ");
        }
        if i > 0 {
            s.append(", ");
        }
        assert(decreases_to!(ps@ => ps@[i as int]));
        let u = ty_string(&ps[i]);
        s.append(u.as_str());
        proof {
            let t = pv.take(i + 1);
            assert(t.drop_last() =~= pv.take(i as int));
            assert(t.last() == ps@[i as int]@);
            if i == 0 {
                assert(pv.take(i as int) =~= Seq::<TyV>::empty());
                assert(tys_text(t) == ty_text(t[0]));
                assert(s@ =~= tys_text(t));
            } else {
                assert(tys_text(t) == tys_text(t.drop_last()) + seq![',', ' '] + ty_text(t.last()));
                assert(s@ =~= tys_text(t));
            }
        }
        i += 1;
    }
    assert(pv.take(ps@.len() as int) =~= pv);
    s
}

impl Ty {
    /// The text of this type.
    pub fn unparse(&self) -> (r: String)
        ensures
            r@ == ty_text(self@),
    {
        ty_string(self)
    }

    /// The arrow from the parameter types `t1` to the result type `t2`.
    pub fn arrow(t1: &[Ty], t2: Ty) -> (r: Ty)
        ensures
            r@ == TyV::Arrow(tys_view(t1@), Box::new(t2@)),
    {
        Ty::Arrow(copy_tys(t1), Box::new(t2))
    }
}

} // verus!
