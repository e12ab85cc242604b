//! A mapping from transmission id to payload, backed by a vector of pairs
//! whose keys are pairwise distinct. This is the shape in which callers hand
//! payloads to the cache and in which the cache hands back what is missing.

use vstd::prelude::*;
use crate::seq_util::lemma_swap_remove_distinct;
use crate::types::{Transmission, TransmissionId};

verus! {

/// The keys of a pair sequence, in order.
pub open spec fn entry_keys(s: Seq<(TransmissionId, Transmission)>) -> Seq<TransmissionId> {
    s.map_values(|e: (TransmissionId, Transmission)| e.0)
}

/// The mapping a pair sequence denotes: each key bound to the bytes of the
/// payload paired with it (the last pair wins if a key repeats).
pub open spec fn map_of(s: Seq<(TransmissionId, Transmission)>) -> Map<TransmissionId, Seq<u8>>
    decreases s.len(),
{
    if s.len() == 0 {
        Map::empty()
    } else {
        map_of(s.drop_last()).insert(s.last().0, s.last().1@)
    }
}

/// With pairwise-distinct keys, the denoted mapping binds exactly the keys
/// of the sequence, each to the payload paired with it.
pub proof fn lemma_map_of(s: Seq<(TransmissionId, Transmission)>)
    requires
        entry_keys(s).no_duplicates(),
    ensures
        map_of(s).dom() == entry_keys(s).to_set(),
        forall|i: int| 0 <= i < s.len() ==> map_of(s)[#[trigger] s[i].0] == s[i].1@,
    decreases s.len(),
{
    let keys = entry_keys(s);
    if s.len() == 0 {
        assert(map_of(s).dom() =~= keys.to_set());
    } else {
        let prefix = s.drop_last();
        assert(entry_keys(prefix) =~= keys.drop_last());
        assert(entry_keys(prefix).no_duplicates());
        lemma_map_of(prefix);
        assert(map_of(s).dom() =~= keys.to_set()) by {
            assert(keys.to_set() =~= keys.drop_last().to_set().insert(keys.last())) by {
                assert forall|x: TransmissionId| keys.to_set().contains(x) implies keys.drop_last()
                    .to_set().insert(keys.last()).contains(x) by {
                    let j = choose|j: int| 0 <= j < keys.len() && keys[j] == x;
                    if j < keys.len() - 1 {
                        assert(keys.drop_last()[j] == x);
                        assert(keys.drop_last().contains(x));
                    }
                }
                assert forall|x: TransmissionId|
                    keys.drop_last().to_set().insert(keys.last()).contains(x) implies keys.to_set()
                    .contains(x) by {
                    if x != keys.last() || !keys.contains(x) {
                        let j = choose|j: int|
                            0 <= j < keys.drop_last().len() && keys.drop_last()[j] == x;
                        assert(keys[j] == x);
                        assert(keys.contains(x));
                    }
                    assert(keys.contains(keys.last()));
                }
            }
        }
        assert forall|i: int| 0 <= i < s.len() implies map_of(s)[#[trigger] s[i].0]
            == s[i].1@ by {
            if i < s.len() - 1 {
                assert(keys[i] == s[i].0 && keys[s.len() - 1] == s.last().0);
                assert(s[i].0 != s.last().0);
                assert(prefix[i] == s[i]);
                assert(map_of(prefix)[s[i].0] == s[i].1@);
            }
        }
    }
}

/// A mapping from transmission id to payload. The view is the mathematical
/// map; no key occurs twice.
#[derive(Debug)]
pub struct TransmissionMap {
    entries: Vec<(TransmissionId, Transmission)>,
}

impl View for TransmissionMap {
    type V = Map<TransmissionId, Seq<u8>>;

    closed spec fn view(&self) -> Map<TransmissionId, Seq<u8>> {
        map_of(self.entries@)
    }
}

impl TransmissionMap {
    /// No key occurs twice.
    #[verifier::type_invariant]
    closed spec fn distinct_keys(self) -> bool {
        entry_keys(self.entries@).no_duplicates()
    }

    /// The empty mapping.
    pub fn new() -> (r: Self)
        ensures
            r@ == Map::<TransmissionId, Seq<u8>>::empty(),
    {
        TransmissionMap { entries: Vec::new() }
    }

    /// How many ids the mapping binds.
    pub fn len(&self) -> (r: usize)
        ensures
            r == self@.dom().len(),
    {
        proof {
            use_type_invariant(&*self);
            lemma_map_of(self.entries@);
            entry_keys(self.entries@).unique_seq_to_set();
        }
        self.entries.len()
    }

    /// Whether the mapping binds `id`.
    pub fn contains_key(&self, id: &TransmissionId) -> (r: bool)
        ensures
            r == self@.contains_key(*id),
    {
        proof {
            use_type_invariant(&*self);
            lemma_map_of(self.entries@);
        }
        let ghost s = self.entries@;
        let mut i: usize = 0;
        while i < self.entries.len()
            invariant
                i <= self.entries.len(),
                self.entries@ == s,
                self@.dom() == entry_keys(s).to_set(),
                forall|j: int| 0 <= j < i ==> s[j].0 != *id,
            decreases self.entries.len() - i,
        {
            if self.entries[i].0 == *id {
                proof {
                    assert(entry_keys(s)[i as int] == *id);
                    assert(entry_keys(s).contains(*id));
                }
                return true;
            }
            i = i + 1;
        }
        proof {
            if entry_keys(s).contains(*id) {
                let j = choose|j: int| 0 <= j < entry_keys(s).len() && entry_keys(s)[j] == *id;
                assert(s[j].0 == *id);
                assert(false);
            }
        }
        false
    }

    /// The payload bound to `id`, if any. Reading does not consume it.
    pub fn get(&self, id: &TransmissionId) -> (r: Option<&Transmission>)
        ensures
            (r is Some) == self@.contains_key(*id),
            r matches Some(t) ==> t@ == self@[*id],
    {
        proof {
            use_type_invariant(&*self);
            lemma_map_of(self.entries@);
        }
        let ghost s = self.entries@;
        let mut i: usize = 0;
        while i < self.entries.len()
            invariant
                i <= self.entries.len(),
                self.entries@ == s,
                self@.dom() == entry_keys(s).to_set(),
                forall|j: int| 0 <= j < s.len() ==> self@[#[trigger] s[j].0] == s[j].1@,
                forall|j: int| 0 <= j < i ==> s[j].0 != *id,
            decreases self.entries.len() - i,
        {
            if self.entries[i].0 == *id {
                proof {
                    assert(entry_keys(s)[i as int] == *id);
                    assert(entry_keys(s).contains(*id));
                }
                return Some(&self.entries[i].1);
            }
            i = i + 1;
        }
        proof {
            if entry_keys(s).contains(*id) {
                let j = choose|j: int| 0 <= j < entry_keys(s).len() && entry_keys(s)[j] == *id;
                assert(s[j].0 == *id);
                assert(false);
            }
        }
        None
    }

    /// Removes the binding of `id`, returning its payload if it was bound.
    pub fn remove(&mut self, id: &TransmissionId) -> (r: Option<Transmission>)
        ensures
            final(self)@ == old(self)@.remove(*id),
            (r is Some) == old(self)@.contains_key(*id),
            r matches Some(t) ==> t@ == old(self)@[*id],
    {
        proof {
            use_type_invariant(&*self);
            lemma_map_of(self.entries@);
        }
        let mut entries: Vec<(TransmissionId, Transmission)> = Vec::new();
        std::mem::swap(&mut entries, &mut self.entries);
        let ghost s = entries@;
        let mut i: usize = 0;
        while i < entries.len()
            invariant
                i <= entries.len(),
                entries@ == s,
                entry_keys(s).no_duplicates(),
                old(self)@ == map_of(s),
                old(self)@.dom() == entry_keys(s).to_set(),
                forall|j: int| 0 <= j < s.len() ==> old(self)@[#[trigger] s[j].0] == s[j].1@,
                forall|j: int| 0 <= j < i ==> s[j].0 != *id,
            decreases entries.len() - i,
        {
            if entries[i].0 == *id {
                proof {
                    assert(entry_keys(s)[i as int] == *id);
                    assert(entry_keys(s).contains(*id));
                    lemma_swap_remove_map(s, i as int);
                }
                let e = entries.swap_remove(i);
                self.entries = entries;
                return Some(e.1);
            }
            i = i + 1;
        }
        proof {
            if entry_keys(s).contains(*id) {
                let j = choose|j: int| 0 <= j < entry_keys(s).len() && entry_keys(s)[j] == *id;
                assert(s[j].0 == *id);
                assert(false);
            }
            assert(map_of(s) =~= old(self)@.remove(*id));
        }
        self.entries = entries;
        None
    }

    /// Binds `id` to `t`, replacing any earlier binding.
    pub fn insert(&mut self, id: TransmissionId, t: Transmission)
        ensures
            final(self)@ == old(self)@.insert(id, t@),
    {
        let _ = self.remove(&id);
        proof {
            use_type_invariant(&*self);
            lemma_map_of(self.entries@);
        }
        let mut entries: Vec<(TransmissionId, Transmission)> = Vec::new();
        std::mem::swap(&mut entries, &mut self.entries);
        let ghost s = entries@;
        let ghost t_bytes = t@;
        entries.push((id, t));
        proof {
            assert(entries@ == s.push((id, t)));
            assert(entries@.drop_last() =~= s);
            assert(map_of(entries@) == map_of(s).insert(id, t_bytes));
            assert(entry_keys(entries@).no_duplicates()) by {
                let keys = entry_keys(entries@);
                assert(forall|j: int| 0 <= j < s.len() ==> keys[j] == entry_keys(s)[j]);
                assert(keys[s.len() as int] == id);
                assert(!entry_keys(s).contains(id)) by {
                    if entry_keys(s).contains(id) {
                        let j = choose|j: int|
                            0 <= j < entry_keys(s).len() && entry_keys(s)[j] == id;
                        assert(map_of(s).dom().contains(s[j].0));
                        assert(false);
                    }
                }
                assert(keys.no_duplicates()) by {
                    assert forall|j: int, k: int| 0 <= j < k < keys.len() implies keys[j]
                        != keys[k] by {
                        if k == s.len() {
                            assert(entry_keys(s)[j] == keys[j]);
                            assert(entry_keys(s).contains(keys[j]));
                        } else {
                            assert(keys[j] == entry_keys(s)[j] && keys[k] == entry_keys(s)[k]);
                        }
                    }
                }
            }
            assert(map_of(s).insert(id, t_bytes) =~= old(self)@.insert(id, t_bytes));
        }
        self.entries = entries;
    }
}

/// Removing the pair at index `i` of a distinct-key pair sequence by
/// swapping in the last pair keeps the keys distinct and removes exactly
/// that pair's binding from the denoted mapping.
proof fn lemma_swap_remove_map(s: Seq<(TransmissionId, Transmission)>, i: int)
    requires
        0 <= i < s.len(),
        entry_keys(s).no_duplicates(),
    ensures
        entry_keys(s.update(i, s.last()).drop_last()).no_duplicates(),
        map_of(s.update(i, s.last()).drop_last()) == map_of(s).remove(s[i].0),
{
    let s2 = s.update(i, s.last()).drop_last();
    let keys = entry_keys(s);
    let keys2 = entry_keys(s2);
    assert(keys2 =~= keys.update(i, keys.last()).drop_last());
    lemma_swap_remove_distinct(keys, i);
    lemma_map_of(s);
    lemma_map_of(s2);
    assert(map_of(s2) =~= map_of(s).remove(s[i].0)) by {
        assert(map_of(s2).dom() =~= map_of(s).remove(s[i].0).dom()) by {
            assert(keys[i] == s[i].0);
            assert(keys2.to_set() =~= keys.to_set().remove(s[i].0));
        }
        assert forall|k: TransmissionId| map_of(s2).dom().contains(k) implies map_of(s2)[k]
            == map_of(s).remove(s[i].0)[k] by {
            assert(keys2.to_set().contains(k));
            assert(keys2.contains(k));
            let j = choose|j: int| 0 <= j < keys2.len() && keys2[j] == k;
            assert(s2[j].0 == k);
            assert(map_of(s2)[k] == s2[j].1@);
            if j == i {
                assert(s2[j] == s[s.len() - 1]);
                assert(map_of(s)[k] == s[s.len() - 1].1@);
            } else {
                assert(s2[j] == s[j]);
                assert(map_of(s)[k] == s[j].1@);
            }
        }
    }
}

} // verus!
