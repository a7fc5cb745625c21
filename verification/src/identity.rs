//! Caller identities and duplicate-free sets of them.

use candid::Principal;
use vstd::prelude::*;

verus! {

/// `candid::Principal`: an identifier of at most 29 bytes whose inner
/// structure is private. The library only carries such values and compares
/// them.
#[verifier::external_type_specification]
#[verifier::external_body]
pub struct ExPrincipal(Principal);

/// `<Principal as PartialEq>::eq`. The impl is derived over the length byte and
/// the zero-padded byte array, both plain data, so two principals compare
/// equal exactly when they are the same value.
pub assume_specification[ <Principal as PartialEq>::eq ](a: &Principal, b: &Principal) -> (r: bool)
    ensures
        r == (*a == *b),
;

/// A finite set of principals.
pub struct PrincipalSet {
    items: Vec<Principal>,
}

impl View for PrincipalSet {
    type V = Set<Principal>;

    closed spec fn view(&self) -> Set<Principal> {
        self.items@.to_set()
    }
}

impl PrincipalSet {
    /// No principal is stored twice.
    pub closed spec fn wf(&self) -> bool {
        self.items@.no_duplicates()
    }

    /// A well-formed set is finite.
    pub proof fn lemma_finite(&self)
        ensures
            self@.finite(),
    {
        vstd::seq_lib::seq_to_set_is_finite(self.items@);
    }

    pub fn new() -> (s: Self)
        ensures
            s.wf(),
            s@ == Set::<Principal>::empty(),
    {
        let s = PrincipalSet { items: Vec::new() };
        assert(s.items@.to_set() =~= Set::<Principal>::empty());
        s
    }

    /// Position of `p` among the members, if it is one.
    fn position(&self, p: &Principal) -> (r: Option<usize>)
        ensures
            match r {
                Some(i) => i < self.items@.len() && self.items@[i as int] == *p,
                None => !self.items@.contains(*p),
            },
    {
        let mut i: usize = 0;
        while i < self.items.len()
            invariant
                i <= self.items@.len(),
                forall|j: int| 0 <= j < i ==> self.items@[j] != *p,
            decreases self.items@.len() - i,
        {
            if self.items[i] == *p {
                return Some(i);
            }
            i += 1;
        }
        None
    }

    pub fn contains(&self, p: &Principal) -> (r: bool)
        ensures
            r == self@.contains(*p),
    {
        self.position(p).is_some()
    }

    pub fn len(&self) -> (n: usize)
        requires
            self.wf(),
        ensures
            n == self@.len(),
    {
        proof {
            self.items@.unique_seq_to_set();
        }
        self.items.len()
    }

    /// Adds `p`; returns whether it was new.
    pub fn insert(&mut self, p: Principal) -> (added: bool)
        requires
            old(self).wf(),
        ensures
            final(self).wf(),
            final(self)@ == old(self)@.insert(p),
            added == !old(self)@.contains(p),
    {
        if self.position(&p).is_some() {
            assert(self@.insert(p) =~= self@);
            false
        } else {
            let ghost before = self.items@;
            self.items.push(p);
            proof {
                before.lemma_push_to_set_commute(p);
            }
            true
        }
    }

    /// Removes `p`; returns whether it was a member.
    pub fn remove(&mut self, p: &Principal) -> (removed: bool)
        requires
            old(self).wf(),
        ensures
            final(self).wf(),
            final(self)@ == old(self)@.remove(*p),
            removed == old(self)@.contains(*p),
    {
        let ghost before = self.items@;
        match self.position(p) {
            Some(i) => {
                self.items.remove(i);
                proof {
                    let after = self.items@;
                    assert(after == before.remove(i as int));
                    assert forall|q: Principal| after.contains(q) <==> (before.contains(q) && q
                        != *p) by {
                        if after.contains(q) {
                            let k = choose|k: int| 0 <= k < after.len() && after[k] == q;
                            if k < i {
                                assert(before[k] == q);
                            } else {
                                assert(before[k + 1] == q);
                            }
                        }
                        if before.contains(q) && q != *p {
                            let k = choose|k: int| 0 <= k < before.len() && before[k] == q;
                            if k < i {
                                assert(after[k] == q);
                            } else {
                                assert(after[k - 1] == q);
                            }
                        }
                    }
                    assert(after.to_set() =~= before.to_set().remove(*p));
                }
                true
            },
            None => {
                proof {
                    assert(before.to_set().remove(*p) =~= before.to_set());
                }
                false
            },
        }
    }
}

impl PrincipalSet {
    /// The members, each once.
    pub fn to_vec(&self) -> (v: Vec<Principal>)
        requires
            self.wf(),
        ensures
            v@.to_set() == self@,
            v@.no_duplicates(),
    {
        let mut out: Vec<Principal> = Vec::new();
        let mut i: usize = 0;
        while i < self.items.len()
            invariant
                i <= self.items@.len(),
                out@ == self.items@.subrange(0, i as int),
            decreases self.items@.len() - i,
        {
            out.push(self.items[i]);
            assert(self.items@.subrange(0, i + 1) =~= self.items@.subrange(0, i as int).push(
                self.items@[i as int],
            ));
            i += 1;
        }
        assert(out@ =~= self.items@);
        out
    }

    /// The set of the principals listed in `v`; one that is listed twice is
    /// a member once.
    pub fn from_vec(v: &Vec<Principal>) -> (s: Self)
        ensures
            s.wf(),
            s@ == v@.to_set(),
    {
        let mut s = PrincipalSet::new();
        let mut i: usize = 0;
        assert(v@.subrange(0, 0).to_set() =~= Set::<Principal>::empty());
        while i < v.len()
            invariant
                i <= v@.len(),
                s.wf(),
                s@ == v@.subrange(0, i as int).to_set(),
            decreases v@.len() - i,
        {
            s.insert(v[i]);
            proof {
                let seen = v@.subrange(0, i as int);
                assert(v@.subrange(0, i + 1) =~= seen.push(v@[i as int]));
                seen.lemma_push_to_set_commute(v@[i as int]);
            }
            i += 1;
        }
        assert(v@.subrange(0, i as int) =~= v@);
        s
    }
}

} // verus!
