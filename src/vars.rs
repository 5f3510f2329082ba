//! Sets of variable names.
use vstd::prelude::*;
use crate::debrujin::scope_view;

verus! {

/// A set of variable names.
pub trait VarAbs: Sized {
    /// The names held.
    spec fn vars(&self) -> Set<Seq<char>>;

    /// Adds `v`.
    fn extend(&mut self, v: String)
        ensures
            final(self).vars() == old(self).vars().insert(v@),
    ;

    /// The name `v` where it is held.
    fn lookup(&self, v: String) -> (r: Option<String>)
        ensures
            r is Some <==> self.vars().contains(v@),
            r matches Some(x) ==> x@ == v@,
    ;

    /// Whether `v` is held.
    fn has(&self, v: String) -> (r: bool)
        ensures
            r == self.vars().contains(v@),
    {
        self.lookup(v).is_some()
    }

    /// Removes `v`; tells whether it was held.
    fn remove(&mut self, v: String) -> (r: bool)
        ensures
            r == old(self).vars().contains(v@),
            final(self).vars() == old(self).vars().remove(v@),
    ;

    /// Whether no name is held.
    fn is_empty(&self) -> (r: bool)
        ensures
            r == (self.vars() == Set::<Seq<char>>::empty()),
    ;

    /// Removes every name.
    fn clear(&mut self)
        ensures
            final(self).vars() == Set::<Seq<char>>::empty(),
    ;
}

/// A set of names kept in a vector.
#[derive(Debug)]
pub struct BasicVar {
    vs: Vec<String>,
}

impl BasicVar {
    /// An empty set.
    pub fn new() -> (r: BasicVar)
        ensures
            r.vars() == Set::<Seq<char>>::empty(),
    {
        let r = BasicVar { vs: Vec::new() };
        assert(r.vars() =~= Set::<Seq<char>>::empty());
        r
    }

    fn position(&self, v: &String) -> (r: Option<usize>)
        ensures
            r is Some <==> self.vars().contains(v@),
            r matches Some(k) ==> k < self.vs@.len() && self.vs@[k as int]@ == v@,
    {
        let mut i: usize = 0;
        while i < self.vs.len()
            invariant
                i <= self.vs@.len(),
                forall|k: int| 0 <= k < i ==> #[trigger] self.vs@[k]@ != v@,
            decreases self.vs@.len() - i,
        {
            if self.vs[i] == *v {
                assert(scope_view(self.vs@)[i as int] == v@);
                return Some(i);
            }
            i += 1;
        }
        assert(!scope_view(self.vs@).contains(v@)) by {
            if scope_view(self.vs@).contains(v@) {
                let k = choose|k: int| 0 <= k < scope_view(self.vs@).len() && scope_view(self.vs@)[k] == v@;
                assert(self.vs@[k]@ == v@);
            }
        }
        None
    }
}

impl VarAbs for BasicVar {
    closed spec fn vars(&self) -> Set<Seq<char>> {
        scope_view(self.vs@).to_set()
    }

    fn extend(&mut self, v: String) {
        let ghost before = self.vs@;
        let ghost x = v@;
        self.vs.push(v);
        proof {
            assert(scope_view(self.vs@) =~= scope_view(before).push(x));
            scope_view(before).lemma_push_to_set_commute(x);
        }
    }

    fn lookup(&self, v: String) -> (r: Option<String>) {
        match self.position(&v) {
            Some(k) => Some(self.vs[k].clone()),
            None => None,
        }
    }

    fn remove(&mut self, v: String) -> (r: bool) {
        let found = self.position(&v).is_some();
        let ghost old_vars = self.vars();
        let mut kept: Vec<String> = Vec::new();
        let mut i: usize = 0;
        while i < self.vs.len()
            invariant
                i <= self.vs@.len(),
                old_vars == scope_view(self.vs@).to_set(),
                scope_view(kept@).to_set() == scope_view(self.vs@.take(i as int)).to_set().remove(v@),
            decreases self.vs@.len() - i,
        {
            let ghost before = kept@;
            proof {
                assert(self.vs@.take(i + 1) =~= self.vs@.take(i as int).push(self.vs@[i as int]));
                assert(scope_view(self.vs@.take(i + 1)) =~= scope_view(self.vs@.take(i as int)).push(
                    self.vs@[i as int]@,
                ));
                scope_view(self.vs@.take(i as int)).lemma_push_to_set_commute(self.vs@[i as int]@);
            }
            if self.vs[i] != v {
                kept.push(self.vs[i].clone());
                proof {
                    assert(scope_view(kept@) =~= scope_view(before).push(self.vs@[i as int]@));
                    scope_view(before).lemma_push_to_set_commute(self.vs@[i as int]@);
                    assert(scope_view(kept@).to_set() =~= scope_view(self.vs@.take(i + 1)).to_set().remove(v@));
                }
            } else {
                proof {
                    assert(scope_view(kept@).to_set() =~= scope_view(self.vs@.take(i + 1)).to_set().remove(v@));
                }
            }
            i += 1;
        }
        proof {
            assert(self.vs@.take(self.vs@.len() as int) =~= self.vs@);
        }
        self.vs = kept;
        found
    }

    fn is_empty(&self) -> (r: bool) {
        proof {
            if self.vs@.len() > 0 {
                assert(scope_view(self.vs@)[0] == self.vs@[0]@);
                assert(self.vars().contains(self.vs@[0]@));
            } else {
                assert(self.vars() =~= Set::<Seq<char>>::empty());
            }
        }
        self.vs.len() == 0
    }

    fn clear(&mut self) {
        self.vs.clear();
        assert(self.vars() =~= Set::<Seq<char>>::empty());
    }
}

} // verus!
