//! The reference set of a cache entry: the certificate ids currently
//! vouching for it, backed by a vector whose elements are pairwise distinct.

use vstd::prelude::*;
use crate::seq_util::lemma_swap_remove_distinct;
use crate::types::CertificateId;

verus! {

/// A set of certificate ids. Membership is what matters; the view is the
/// mathematical set of ids held.
#[derive(Debug)]
pub struct CertificateIdSet {
    ids: Vec<CertificateId>,
}

impl View for CertificateIdSet {
    type V = Set<CertificateId>;

    closed spec fn view(&self) -> Set<CertificateId> {
        self.ids@.to_set()
    }
}

impl Clone for CertificateIdSet {
    /// Clones the set; the copy holds the same ids.
    fn clone(&self) -> (r: Self)
        ensures
            r@ == self@,
    {
        proof {
            use_type_invariant(&*self);
        }
        let mut ids: Vec<CertificateId> = Vec::new();
        let mut i: usize = 0;
        while i < self.ids.len()
            invariant
                i <= self.ids.len(),
                ids@ == self.ids@.take(i as int),
            decreases self.ids.len() - i,
        {
            ids.push(self.ids[i]);
            proof {
                assert(ids@ =~= self.ids@.take(i + 1 as int));
            }
            i = i + 1;
        }
        proof {
            assert(ids@ =~= self.ids@);
        }
        CertificateIdSet { ids }
    }
}

impl CertificateIdSet {
    /// No id occurs twice in the backing vector.
    #[verifier::type_invariant]
    closed spec fn distinct(self) -> bool {
        self.ids@.no_duplicates()
    }

    /// The empty set.
    pub fn new() -> (r: Self)
        ensures
            r@ == Set::<CertificateId>::empty(),
    {
        let r = CertificateIdSet { ids: Vec::new() };
        proof {
            assert(r@ =~= Set::<CertificateId>::empty());
        }
        r
    }

    /// The set holding exactly `id`.
    pub fn singleton(id: CertificateId) -> (r: Self)
        ensures
            r@ == Set::<CertificateId>::empty().insert(id),
    {
        let mut ids: Vec<CertificateId> = Vec::new();
        ids.push(id);
        let r = CertificateIdSet { ids };
        proof {
            assert(r.ids@ =~= seq![id]);
            assert(r.ids@[0] == id);
            assert(r.ids@.contains(id));
            assert(forall|x: CertificateId| r.ids@.contains(x) ==> x == id);
            assert(r@ =~= Set::<CertificateId>::empty().insert(id));
        }
        r
    }

    /// How many ids the set holds.
    pub fn len(&self) -> (r: usize)
        ensures
            r == self@.len(),
    {
        proof {
            use_type_invariant(&*self);
            self.ids@.unique_seq_to_set();
        }
        self.ids.len()
    }

    /// Whether the set is empty.
    pub fn is_empty(&self) -> (r: bool)
        ensures
            r == (self@ == Set::<CertificateId>::empty()),
    {
        if self.ids.len() == 0 {
            proof {
                assert(self@ =~= Set::<CertificateId>::empty());
            }
            true
        } else {
            proof {
                assert(self.ids@.contains(self.ids@[0]));
                assert(self@.contains(self.ids@[0]));
            }
            false
        }
    }

    /// Whether `id` is in the set.
    pub fn contains(&self, id: &CertificateId) -> (r: bool)
        ensures
            r == self@.contains(*id),
    {
        let mut i: usize = 0;
        while i < self.ids.len()
            invariant
                i <= self.ids.len(),
                forall|j: int| 0 <= j < i ==> self.ids@[j] != *id,
            decreases self.ids.len() - i,
        {
            if self.ids[i] == *id {
                proof {
                    assert(self.ids@.contains(*id));
                }
                return true;
            }
            i = i + 1;
        }
        proof {
            assert(!self.ids@.contains(*id));
        }
        false
    }

    /// Adds `id`; adding a present id changes nothing.
    pub fn insert(&mut self, id: CertificateId)
        ensures
            final(self)@ == old(self)@.insert(id),
    {
        proof {
            use_type_invariant(&*self);
        }
        if !self.contains(&id) {
            let mut ids: Vec<CertificateId> = Vec::new();
            std::mem::swap(&mut ids, &mut self.ids);
            let ghost s = ids@;
            ids.push(id);
            proof {
                assert(ids@ == s.push(id));
                assert(ids@.no_duplicates()) by {
                    assert(forall|j: int| 0 <= j < s.len() ==> ids@[j] == s[j]);
                    assert(ids@[s.len() as int] == id);
                    assert(!s.contains(id));
                }
                assert(ids@.to_set() =~= old(self)@.insert(id)) by {
                    assert(ids@[s.len() as int] == id);
                    assert(ids@.contains(id));
                    assert(forall|x: CertificateId| s.contains(x) ==> ids@.contains(x)) by {
                        assert(forall|j: int| 0 <= j < s.len() ==> ids@[j] == s[j]);
                    }
                    assert(forall|x: CertificateId| ids@.contains(x) && x != id ==> s.contains(x))
                        by {
                        assert(forall|j: int| 0 <= j < s.len() ==> ids@[j] == s[j]);
                    }
                }
            }
            self.ids = ids;
        } else {
            proof {
                assert(self@ =~= old(self)@.insert(id));
            }
        }
    }

    /// Removes `id` if present, filling its slot with the last element, and
    /// reports whether it was present.
    pub fn swap_remove(&mut self, id: &CertificateId) -> (r: bool)
        ensures
            final(self)@ == old(self)@.remove(*id),
            r == old(self)@.contains(*id),
    {
        proof {
            use_type_invariant(&*self);
        }
        let mut ids: Vec<CertificateId> = Vec::new();
        std::mem::swap(&mut ids, &mut self.ids);
        let ghost s = ids@;
        let mut i: usize = 0;
        while i < ids.len()
            invariant
                i <= ids.len(),
                ids@ == s,
                s.no_duplicates(),
                old(self)@ == s.to_set(),
                forall|j: int| 0 <= j < i ==> ids@[j] != *id,
            decreases ids.len() - i,
        {
            if ids[i] == *id {
                proof {
                    assert(s.contains(*id));
                    lemma_swap_remove_distinct(s, i as int);
                }
                let _ = ids.swap_remove(i);
                self.ids = ids;
                return true;
            }
            i = i + 1;
        }
        proof {
            assert(!s.contains(*id));
            assert(s.to_set() =~= old(self)@.remove(*id));
        }
        self.ids = ids;
        false
    }
}

} // verus!
