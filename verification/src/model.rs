//! The abstract state of one bounded least-recently-used store: which keys
//! are resident and with what value, the recency order of the keys, and the
//! fixed capacity. The trusted wrappers around the store state their
//! contracts as transitions of this model.

use vstd::prelude::*;
use crate::seq_util::{lemma_drop_last_distinct, lemma_prepend_distinct, lemma_remove_value_distinct};
use crate::types::TransmissionId;

verus! {

/// One bounded least-recently-used store, abstractly. `order` holds the
/// resident keys from most recently used to least recently used; `contents`
/// maps each resident key to its value; `cap` is the fixed bound on how many
/// keys may be resident at once.
#[verifier::ext_equal]
pub ghost struct LruModel<V> {
    pub contents: Map<TransmissionId, V>,
    pub order: Seq<TransmissionId>,
    pub cap: nat,
}

impl<V> LruModel<V> {
    /// The store's internal consistency: the recency order lists each
    /// resident key exactly once, and residency never exceeds the capacity.
    pub open spec fn inv(self) -> bool {
        &&& self.order.no_duplicates()
        &&& self.contents.dom() == self.order.to_set()
        &&& self.order.len() <= self.cap
        &&& 1 <= self.cap
    }

    /// A store with no resident keys.
    pub open spec fn empty(cap: nat) -> Self {
        LruModel { contents: Map::empty(), order: Seq::empty(), cap }
    }

    /// Whether `id` is resident.
    pub open spec fn resident(self, id: TransmissionId) -> bool {
        self.contents.dom().contains(id)
    }

    /// Promotes a resident `id` to most recently used; an absent id changes
    /// nothing. This is what a recency-refreshing lookup does to the store.
    pub open spec fn touch(self, id: TransmissionId) -> Self {
        if self.resident(id) {
            LruModel {
                contents: self.contents,
                order: seq![id] + self.order.remove_value(id),
                cap: self.cap,
            }
        } else {
            self
        }
    }

    /// Binds `id` to `v` and promotes it to most recently used. If `id` was
    /// absent and the store was full, the least recently used key is evicted
    /// to make room.
    pub open spec fn push(self, id: TransmissionId, v: V) -> Self {
        if self.resident(id) {
            LruModel {
                contents: self.contents.insert(id, v),
                order: seq![id] + self.order.remove_value(id),
                cap: self.cap,
            }
        } else if self.order.len() >= self.cap {
            LruModel {
                contents: self.contents.remove(self.order.last()).insert(id, v),
                order: seq![id] + self.order.drop_last(),
                cap: self.cap,
            }
        } else {
            LruModel {
                contents: self.contents.insert(id, v),
                order: seq![id] + self.order,
                cap: self.cap,
            }
        }
    }

    /// Removes `id` entirely; an absent id changes nothing.
    pub open spec fn pop(self, id: TransmissionId) -> Self {
        LruModel {
            contents: self.contents.remove(id),
            order: self.order.remove_value(id),
            cap: self.cap,
        }
    }
}

/// The empty store is internally consistent.
pub proof fn lemma_empty_inv<V>(cap: nat)
    requires
        1 <= cap,
    ensures
        LruModel::<V>::empty(cap).inv(),
{
    assert(Map::<TransmissionId, V>::empty().dom() =~= Seq::<TransmissionId>::empty().to_set());
}

/// `touch` preserves internal consistency and does not change the contents.
pub proof fn lemma_touch_inv<V>(m: LruModel<V>, id: TransmissionId)
    requires
        m.inv(),
    ensures
        m.touch(id).inv(),
        m.touch(id).contents == m.contents,
        m.touch(id).cap == m.cap,
{
    if m.resident(id) {
        lemma_remove_value_distinct(m.order, id);
        let s = m.order.remove_value(id);
        assert(!s.contains(id)) by {
            assert(!s.to_set().contains(id));
        }
        lemma_prepend_distinct(s, id);
        assert(m.touch(id).contents.dom() =~= m.touch(id).order.to_set()) by {
            assert(m.order.to_set().contains(id));
            assert((seq![id] + s).to_set() =~= m.order.to_set().remove(id).insert(id));
        }
        assert(m.order.contains(id)) by {
            assert(m.order.to_set().contains(id));
        }
    }
}

/// `push` preserves internal consistency, binds `id`, and keeps every other
/// key resident unless the store was full and that key was least recently
/// used.
pub proof fn lemma_push_inv<V>(m: LruModel<V>, id: TransmissionId, v: V)
    requires
        m.inv(),
    ensures
        m.push(id, v).inv(),
        m.push(id, v).cap == m.cap,
        m.push(id, v).resident(id),
        m.push(id, v).contents[id] == v,
{
    let p = m.push(id, v);
    if m.resident(id) {
        lemma_remove_value_distinct(m.order, id);
        let s = m.order.remove_value(id);
        assert(!s.contains(id)) by {
            assert(!s.to_set().contains(id));
        }
        lemma_prepend_distinct(s, id);
        assert(m.order.contains(id)) by {
            assert(m.order.to_set().contains(id));
        }
        assert(p.contents.dom() =~= p.order.to_set());
    } else if m.order.len() >= m.cap {
        assert(m.order.len() > 0);
        lemma_drop_last_distinct(m.order);
        let s = m.order.drop_last();
        assert(!s.contains(id)) by {
            assert(!m.order.to_set().contains(id));
            if s.contains(id) {
                let j = choose|j: int| 0 <= j < s.len() && s[j] == id;
                assert(m.order[j] == id);
                assert(m.order.contains(id));
            }
        }
        lemma_prepend_distinct(s, id);
        assert(p.contents.dom() =~= p.order.to_set()) by {
            assert(s.to_set() =~= m.order.to_set().remove(m.order.last()));
        }
    } else {
        assert(!m.order.contains(id)) by {
            assert(!m.order.to_set().contains(id));
        }
        lemma_prepend_distinct(m.order, id);
        assert(p.contents.dom() =~= p.order.to_set());
    }
}

/// Removing a resident key and then pushing it again is the same as pushing
/// it directly: both bind the key, promote it, and evict nothing.
pub proof fn lemma_pop_push<V>(m: LruModel<V>, id: TransmissionId, v: V)
    requires
        m.inv(),
        m.resident(id),
    ensures
        m.pop(id).push(id, v) == m.push(id, v),
{
    let p = m.pop(id);
    assert(m.order.contains(id)) by {
        assert(m.order.to_set().contains(id));
    }
    lemma_remove_value_distinct(m.order, id);
    assert(!p.resident(id)) by {
        assert(p.contents.dom() =~= m.contents.dom().remove(id));
    }
    assert(p.order.len() == m.order.len() - 1);
    assert(p.order.len() < p.cap);
    assert(p.push(id, v).contents =~= m.push(id, v).contents);
    assert(p.push(id, v) =~= m.push(id, v));
}

/// Removing a resident key and then pushing it back with its own value only
/// promotes it: the store's contents do not change.
pub proof fn lemma_pop_push_touch<V>(m: LruModel<V>, id: TransmissionId)
    requires
        m.inv(),
        m.resident(id),
    ensures
        m.pop(id).push(id, m.contents[id]) == m.touch(id),
{
    lemma_pop_push(m, id, m.contents[id]);
    assert(m.push(id, m.contents[id]).contents =~= m.touch(id).contents);
    assert(m.push(id, m.contents[id]) =~= m.touch(id));
}

/// `pop` preserves internal consistency and removes exactly `id`.
pub proof fn lemma_pop_inv<V>(m: LruModel<V>, id: TransmissionId)
    requires
        m.inv(),
    ensures
        m.pop(id).inv(),
        m.pop(id).cap == m.cap,
        !m.pop(id).resident(id),
        m.resident(id) ==> m.pop(id).order.len() == m.order.len() - 1,
        !m.resident(id) ==> m.pop(id) == m,
{
    lemma_remove_value_distinct(m.order, id);
    assert(m.pop(id).contents.dom() =~= m.pop(id).order.to_set());
    if m.resident(id) {
        assert(m.order.contains(id)) by {
            assert(m.order.to_set().contains(id));
        }
    } else {
        assert(!m.order.contains(id)) by {
            assert(!m.order.to_set().contains(id));
        }
        assert(m.pop(id).contents =~= m.contents);
        assert(m.pop(id) =~= m);
    }
}

} // verus!
