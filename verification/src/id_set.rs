//! An insertion-ordered set of transmission ids, backed by a vector whose
//! elements are pairwise distinct.

use vstd::prelude::*;
use crate::types::TransmissionId;

verus! {

/// A set of transmission ids. Iteration order is insertion order; no id
/// occurs twice. The view is the underlying sequence, so that callers can
/// speak both of membership and of the order entries are visited in.
#[derive(Debug)]
pub struct TransmissionIdSet {
    ids: Vec<TransmissionId>,
}

impl View for TransmissionIdSet {
    type V = Seq<TransmissionId>;

    closed spec fn view(&self) -> Seq<TransmissionId> {
        self.ids@
    }
}

impl Clone for TransmissionIdSet {
    /// Clones the set; the copy holds the same ids in the same order.
    fn clone(&self) -> (r: Self)
        ensures
            r@ == self@,
    {
        proof {
            use_type_invariant(&*self);
        }
        let mut ids: Vec<TransmissionId> = Vec::new();
        let mut i: usize = 0;
        while i < self.ids.len()
            invariant
                i <= self.ids.len(),
                ids@ == self.ids@.take(i as int),
            decreases self.ids.len() - i,
        {
            ids.push(self.ids[i]);
            proof {
                assert(ids@ =~= self.ids@.take(i + 1 as int));
            }
            i = i + 1;
        }
        proof {
            assert(ids@ =~= self.ids@);
        }
        TransmissionIdSet { ids }
    }
}

impl TransmissionIdSet {
    /// No id occurs twice.
    #[verifier::type_invariant]
    closed spec fn distinct(self) -> bool {
        self.ids@.no_duplicates()
    }

    /// Learns that no id occurs twice: a consequence of the type's
    /// invariant, restated here so that callers can use it.
    pub fn pairwise_distinct(&self)
        ensures
            self@.no_duplicates(),
    {
        proof {
            use_type_invariant(&*self);
        }
    }

    /// The empty set.
    pub fn new() -> (r: Self)
        ensures
            r@ == Seq::<TransmissionId>::empty(),
    {
        TransmissionIdSet { ids: Vec::new() }
    }

    /// How many ids the set holds.
    pub fn len(&self) -> (r: usize)
        ensures
            r == self@.len(),
    {
        self.ids.len()
    }

    /// The id at position `i` in insertion order.
    pub fn index(&self, i: usize) -> (r: TransmissionId)
        requires
            i < self@.len(),
        ensures
            r == self@[i as int],
    {
        self.ids[i]
    }

    /// Whether `id` is in the set.
    pub fn contains(&self, id: &TransmissionId) -> (r: bool)
        ensures
            r == self@.contains(*id),
    {
        let mut i: usize = 0;
        while i < self.ids.len()
            invariant
                i <= self.ids.len(),
                forall|j: int| 0 <= j < i ==> self.ids@[j] != *id,
            decreases self.ids.len() - i,
        {
            if self.ids[i] == *id {
                proof {
                    assert(self.ids@.contains(*id));
                }
                return true;
            }
            i = i + 1;
        }
        proof {
            assert(!self.ids@.contains(*id));
        }
        false
    }

    /// Adds `id` at the end if it is not yet present; adding a present id
    /// changes nothing.
    pub fn insert(&mut self, id: TransmissionId)
        ensures
            old(self)@.contains(id) ==> final(self)@ == old(self)@,
            !old(self)@.contains(id) ==> final(self)@ == old(self)@.push(id),
            final(self)@.contains(id),
            final(self)@.to_set() == old(self)@.to_set().insert(id),
    {
        proof {
            use_type_invariant(&*self);
        }
        if !self.contains(&id) {
            let mut ids: Vec<TransmissionId> = Vec::new();
            std::mem::swap(&mut ids, &mut self.ids);
            let ghost s = ids@;
            ids.push(id);
            proof {
                assert(ids@ == s.push(id));
                assert(ids@.no_duplicates()) by {
                    assert(forall|j: int| 0 <= j < s.len() ==> ids@[j] == s[j]);
                    assert(ids@[s.len() as int] == id);
                    assert(!s.contains(id));
                }
                assert(ids@[s.len() as int] == id);
                assert(ids@.contains(id));
                assert(ids@.to_set() =~= s.to_set().insert(id)) by {
                    assert(forall|x: TransmissionId| s.contains(x) ==> ids@.contains(x)) by {
                        assert(forall|j: int| 0 <= j < s.len() ==> ids@[j] == s[j]);
                    }
                    assert(forall|x: TransmissionId| ids@.contains(x) && x != id ==> s.contains(x))
                        by {
                        assert(forall|j: int| 0 <= j < s.len() ==> ids@[j] == s[j]);
                    }
                }
            }
            self.ids = ids;
        } else {
            proof {
                assert(self@.to_set() =~= old(self)@.to_set().insert(id));
            }
        }
    }
}

} // verus!
