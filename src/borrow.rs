use vstd::prelude::*;
use crate::diagnostics::SourceLocation;

verus! {

/// Outstanding borrows of one function body, by variable name.
pub struct BorrowTracker {
    pub mutable_borrows: Vec<(String, SourceLocation)>,
    pub immutable_borrows: Vec<(String, SourceLocation)>,
}

/// Site of the mutable borrow of `n` in `s`, if any.
pub open spec fn first_site(s: Seq<(String, SourceLocation)>, n: Seq<char>) -> Option<SourceLocation>
    decreases s.len(),
{
    if s.len() == 0 {
        None
    } else if s[0].0@ == n {
        Some(s[0].1)
    } else {
        first_site(s.drop_first(), n)
    }
}

proof fn lemma_first_site_push(s: Seq<(String, SourceLocation)>, p: (String, SourceLocation), n: Seq<char>)
    ensures
        first_site(s.push(p), n) == if first_site(s, n) is Some {
            first_site(s, n)
        } else if p.0@ == n {
            Some(p.1)
        } else {
            None
        },
    decreases s.len(),
{
    assert(s.push(p)[0] == if s.len() > 0 {
        s[0]
    } else {
        p
    });
    if s.len() > 0 {
        assert(s.push(p).drop_first() =~= s.drop_first().push(p));
        lemma_first_site_push(s.drop_first(), p, n);
        if s[0].0@ != n {
            assert(first_site(s, n) == first_site(s.drop_first(), n));
            assert(first_site(s.push(p), n) == first_site(s.push(p).drop_first(), n));
        }
    } else {
        assert(s.push(p).drop_first() =~= Seq::<(String, SourceLocation)>::empty());
        assert(first_site(Seq::<(String, SourceLocation)>::empty(), n) is None);
        assert(first_site(s, n) is None);
    }
}

impl BorrowTracker {
    /// Where `n` is borrowed mutably, if it is.
    pub open spec fn mutable_site(&self, n: Seq<char>) -> Option<SourceLocation> {
        first_site(self.mutable_borrows@, n)
    }

    /// The first place where `n` is borrowed immutably, if it is.
    pub open spec fn immutable_site(&self, n: Seq<char>) -> Option<SourceLocation> {
        first_site(self.immutable_borrows@, n)
    }

    /// Borrow safety: no name is borrowed both mutably and immutably.
    pub open spec fn wf(&self) -> bool {
        forall|n: Seq<char>|
            #[trigger] self.mutable_site(n) is Some ==> self.immutable_site(n) is None
    }

    pub fn new() -> (r: Self)
        ensures
            r.wf(),
            forall|n: Seq<char>| r.mutable_site(n) is None && r.immutable_site(n) is None,
    {
        BorrowTracker { mutable_borrows: Vec::new(), immutable_borrows: Vec::new() }
    }

    fn find(v: &Vec<(String, SourceLocation)>, var: &String) -> (r: Option<SourceLocation>)
        ensures
            r == first_site(v@, var@),
    {
        let mut i: usize = 0;
        proof {
            assert(v@.subrange(0, v.len() as int) =~= v@);
        }
        while i < v.len()
            invariant
                i <= v.len(),
                first_site(v@, var@) == first_site(v@.subrange(i as int, v.len() as int), var@),
            decreases v.len() - i,
        {
            proof {
                assert(v@.subrange(i as int, v.len() as int).drop_first() =~= v@.subrange(
                    i + 1,
                    v.len() as int,
                ));
            }
            if v[i].0 == *var {
                return Some(v[i].1.duplicate());
            }
            i = i + 1;
        }
        None
    }

    /// Borrows `var` mutably at `loc`. An earlier borrow of `var`, mutable
    /// first, then immutable, is a conflict: its site is returned and nothing
    /// is recorded.
    pub fn add_mutable_borrow(&mut self, var: String, loc: SourceLocation) -> (r: Option<
        SourceLocation,
    >)
        requires
            old(self).wf(),
        ensures
            final(self).wf(),
            old(self).mutable_site(var@) is Some ==> r == old(self).mutable_site(var@)
                && *final(self) == *old(self),
            old(self).mutable_site(var@) is None && old(self).immutable_site(var@) is Some ==> r
                == old(self).immutable_site(var@) && *final(self) == *old(self),
            old(self).mutable_site(var@) is None && old(self).immutable_site(var@) is None ==> r
                is None && final(self).mutable_site(var@) == Some(loc),
            old(self).mutable_site(var@) is None && old(self).immutable_site(var@) is None
                ==> final(self).mutable_borrows@ == old(self).mutable_borrows@.push((var, loc))
                && final(self).immutable_borrows == old(self).immutable_borrows,
            forall|n: Seq<char>|
                n != var@ ==> #[trigger] final(self).mutable_site(n) == old(self).mutable_site(n),
            forall|n: Seq<char>| #[trigger]
                final(self).immutable_site(n) == old(self).immutable_site(n),
    {
        let m = Self::find(&self.mutable_borrows, &var);
        if m.is_some() {
            return m;
        }
        let i = Self::find(&self.immutable_borrows, &var);
        if i.is_some() {
            return i;
        }
        let ghost before = self.mutable_borrows@;
        let ghost p = (var, loc);
        self.mutable_borrows.push((var, loc));
        proof {
            assert forall|n: Seq<char>| #[trigger] self.mutable_site(n) == if first_site(before, n) is Some {
                first_site(before, n)
            } else if p.0@ == n {
                Some(p.1)
            } else {
                None
            } by {
                lemma_first_site_push(before, p, n);
            }
            assert forall|n: Seq<char>| #[trigger] self.mutable_site(n) is Some implies self.immutable_site(n) is None by {
                if n != var@ {
                    assert(old(self).mutable_site(n) == self.mutable_site(n));
                }
            }
        }
        None
    }

    /// Borrows `var` immutably at `loc`. A mutable borrow of `var` is a
    /// conflict: its site is returned and nothing is recorded.
    pub fn add_immutable_borrow(&mut self, var: String, loc: SourceLocation) -> (r: Option<
        SourceLocation,
    >)
        requires
            old(self).wf(),
        ensures
            final(self).wf(),
            old(self).mutable_site(var@) is Some ==> r == old(self).mutable_site(var@)
                && *final(self) == *old(self),
            old(self).mutable_site(var@) is None ==> r is None && final(self).immutable_site(var@)
                is Some,
            old(self).mutable_site(var@) is None ==> final(self).immutable_borrows@ == old(self).immutable_borrows@.push((var, loc))
                && final(self).mutable_borrows == old(self).mutable_borrows,
            old(self).mutable_site(var@) is None && old(self).immutable_site(var@) is None
                ==> final(self).immutable_site(var@) == Some(loc),
            forall|n: Seq<char>|
                n != var@ ==> #[trigger] final(self).immutable_site(n) == old(self).immutable_site(n),
            forall|n: Seq<char>| #[trigger]
                final(self).mutable_site(n) == old(self).mutable_site(n),
    {
        let m = Self::find(&self.mutable_borrows, &var);
        if m.is_some() {
            return m;
        }
        let ghost before = self.immutable_borrows@;
        let ghost p = (var, loc);
        self.immutable_borrows.push((var, loc));
        proof {
            assert forall|n: Seq<char>| #[trigger] self.immutable_site(n) == if first_site(before, n) is Some {
                first_site(before, n)
            } else if p.0@ == n {
                Some(p.1)
            } else {
                None
            } by {
                lemma_first_site_push(before, p, n);
            }
            assert forall|n: Seq<char>| #[trigger] self.mutable_site(n) is Some implies self.immutable_site(n) is None by {
                assert(self.mutable_borrows@ == old(self).mutable_borrows@);
                assert(old(self).mutable_site(n) == self.mutable_site(n));
                if n != var@ {
                    assert(old(self).immutable_site(n) == self.immutable_site(n));
                }
            }
        }
        None
    }

    /// Ends every borrow.
    pub fn clear(&mut self)
        ensures
            final(self).wf(),
            forall|n: Seq<char>| final(self).mutable_site(n) is None && final(self).immutable_site(n) is None,
    {
        self.mutable_borrows.clear();
        self.immutable_borrows.clear();
    }
}

} // verus!
