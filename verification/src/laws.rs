//! The laws of the cache, proved from the service's contracts: how a run of
//! removals or insertions acts on each transmission id, that insertion is
//! idempotent, and the eviction bound.

use vstd::prelude::*;
use crate::model::{lemma_pop_inv, lemma_push_inv, LruModel};
use crate::service::{
    aborted_referenced, insert_aborted_spec, insert_aborted_step, insert_state,
    insert_transmission_step, insert_transmissions_spec, remove_aborted_spec, remove_aborted_step,
    remove_transmission_step, remove_transmissions_spec, transmissions_referenced, InsertState,
    TransmissionEntryView,
};
use crate::types::{CertificateId, TransmissionId};

verus! {

/// One removal step acts on the id removed and on no other: the id loses the
/// certificate from its reference set and stays resident exactly when a
/// reference is left; every other id keeps its entry.
pub proof fn lemma_remove_step_pointwise(
    m: LruModel<TransmissionEntryView>,
    certificate_id: CertificateId,
    id: TransmissionId,
)
    requires
        m.inv(),
    ensures
        remove_transmission_step(m, certificate_id, id).resident(id) == (m.resident(id)
            && m.contents[id].1.remove(certificate_id) != Set::<CertificateId>::empty()),
        remove_transmission_step(m, certificate_id, id).resident(id)
            ==> remove_transmission_step(m, certificate_id, id).contents[id] == (
        m.contents[id].0,
        m.contents[id].1.remove(certificate_id),
        ),
        forall|k: TransmissionId|
            k != id ==> remove_transmission_step(m, certificate_id, id).resident(k) == m.resident(
                k,
            ),
        forall|k: TransmissionId|
            k != id && m.resident(k) ==> remove_transmission_step(m, certificate_id, id).contents[k]
                == m.contents[k],
{
    if m.resident(id) {
        let refs = m.contents[id].1.remove(certificate_id);
        if refs == Set::<CertificateId>::empty() {
            lemma_pop_inv(m, id);
        } else {
            lemma_push_inv(m, id, (m.contents[id].0, refs));
        }
    }
}

/// The reference-count discipline of removal: removing `certificate_id` for
/// a set of transmission ids takes the certificate out of the reference set
/// of each of those ids, deletes an entry exactly when its reference set
/// becomes empty, and leaves every other id's entry as it was.
pub proof fn lemma_remove_transmissions_pointwise(
    m: LruModel<TransmissionEntryView>,
    certificate_id: CertificateId,
    ids: Seq<TransmissionId>,
)
    requires
        m.inv(),
        transmissions_referenced(m),
        ids.no_duplicates(),
    ensures
        remove_transmissions_spec(m, certificate_id, ids).inv(),
        transmissions_referenced(remove_transmissions_spec(m, certificate_id, ids)),
        forall|k: TransmissionId|
            ids.contains(k) ==> remove_transmissions_spec(m, certificate_id, ids).resident(k) == (
            m.resident(k) && m.contents[k].1.remove(certificate_id) != Set::<
                CertificateId,
            >::empty()),
        forall|k: TransmissionId|
            ids.contains(k) && remove_transmissions_spec(m, certificate_id, ids).resident(k)
                ==> remove_transmissions_spec(m, certificate_id, ids).contents[k] == (
            m.contents[k].0,
            m.contents[k].1.remove(certificate_id),
            ),
        forall|k: TransmissionId|
            !ids.contains(k) ==> remove_transmissions_spec(m, certificate_id, ids).resident(k)
                == m.resident(k),
        forall|k: TransmissionId|
            !ids.contains(k) && m.resident(k) ==> remove_transmissions_spec(
                m,
                certificate_id,
                ids,
            ).contents[k] == m.contents[k],
    decreases ids.len(),
{
    if ids.len() == 0 {
    } else {
        let prefix = ids.drop_last();
        let id = ids.last();
        assert(prefix.no_duplicates());
        lemma_remove_transmissions_pointwise(m, certificate_id, prefix);
        let r1 = remove_transmissions_spec(m, certificate_id, prefix);
        crate::service::lemma_remove_transmission_step_wf(r1, certificate_id, id);
        lemma_remove_step_pointwise(r1, certificate_id, id);
        assert(!prefix.contains(id));
        assert(forall|k: TransmissionId| prefix.contains(k) ==> ids.contains(k));
        assert(forall|k: TransmissionId|
            ids.contains(k) && k != id ==> prefix.contains(k)) by {
            assert forall|k: TransmissionId| ids.contains(k) && k != id implies prefix.contains(
                k,
            ) by {
                let j = choose|j: int| 0 <= j < ids.len() && ids[j] == k;
                assert(j != ids.len() - 1);
                assert(prefix[j] == k);
            }
        }
        assert(r1.resident(id) == m.resident(id));
        assert(m.resident(id) ==> r1.contents[id] == m.contents[id]);
    }
}

/// The counterpart of [`lemma_remove_step_pointwise`] in the aborted cache.
pub proof fn lemma_remove_aborted_step_pointwise(
    m: LruModel<Set<CertificateId>>,
    certificate_id: CertificateId,
    id: TransmissionId,
)
    requires
        m.inv(),
    ensures
        remove_aborted_step(m, certificate_id, id).resident(id) == (m.resident(id)
            && m.contents[id].remove(certificate_id) != Set::<CertificateId>::empty()),
        remove_aborted_step(m, certificate_id, id).resident(id) ==> remove_aborted_step(
            m,
            certificate_id,
            id,
        ).contents[id] == m.contents[id].remove(certificate_id),
        forall|k: TransmissionId|
            k != id ==> remove_aborted_step(m, certificate_id, id).resident(k) == m.resident(k),
        forall|k: TransmissionId|
            k != id && m.resident(k) ==> remove_aborted_step(m, certificate_id, id).contents[k]
                == m.contents[k],
{
    if m.resident(id) {
        let refs = m.contents[id].remove(certificate_id);
        if refs == Set::<CertificateId>::empty() {
            lemma_pop_inv(m, id);
        } else {
            lemma_push_inv(m, id, refs);
        }
    }
}

/// The counterpart of [`lemma_remove_transmissions_pointwise`] in the
/// aborted cache.
pub proof fn lemma_remove_aborted_pointwise(
    m: LruModel<Set<CertificateId>>,
    certificate_id: CertificateId,
    ids: Seq<TransmissionId>,
)
    requires
        m.inv(),
        aborted_referenced(m),
        ids.no_duplicates(),
    ensures
        remove_aborted_spec(m, certificate_id, ids).inv(),
        aborted_referenced(remove_aborted_spec(m, certificate_id, ids)),
        forall|k: TransmissionId|
            ids.contains(k) ==> remove_aborted_spec(m, certificate_id, ids).resident(k) == (
            m.resident(k) && m.contents[k].remove(certificate_id) != Set::<
                CertificateId,
            >::empty()),
        forall|k: TransmissionId|
            ids.contains(k) && remove_aborted_spec(m, certificate_id, ids).resident(k)
                ==> remove_aborted_spec(m, certificate_id, ids).contents[k] == m.contents[
                k].remove(certificate_id),
        forall|k: TransmissionId|
            !ids.contains(k) ==> remove_aborted_spec(m, certificate_id, ids).resident(k)
                == m.resident(k),
        forall|k: TransmissionId|
            !ids.contains(k) && m.resident(k) ==> remove_aborted_spec(m, certificate_id, ids)
                .contents[k] == m.contents[k],
    decreases ids.len(),
{
    if ids.len() == 0 {
    } else {
        let prefix = ids.drop_last();
        let id = ids.last();
        assert(prefix.no_duplicates());
        lemma_remove_aborted_pointwise(m, certificate_id, prefix);
        let r1 = remove_aborted_spec(m, certificate_id, prefix);
        crate::service::lemma_remove_aborted_step_wf(r1, certificate_id, id);
        lemma_remove_aborted_step_pointwise(r1, certificate_id, id);
        assert(!prefix.contains(id));
        assert(forall|k: TransmissionId| prefix.contains(k) ==> ids.contains(k));
        assert(forall|k: TransmissionId| ids.contains(k) && k != id ==> prefix.contains(k)) by {
            assert forall|k: TransmissionId| ids.contains(k) && k != id implies prefix.contains(
                k,
            ) by {
                let j = choose|j: int| 0 <= j < ids.len() && ids[j] == k;
                assert(j != ids.len() - 1);
                assert(prefix[j] == k);
            }
        }
        assert(r1.resident(id) == m.resident(id));
        assert(m.resident(id) ==> r1.contents[id] == m.contents[id]);
    }
}

/// One insertion step, with room or a resident id so that nothing is
/// evicted, acts on the id inserted and on no other.
pub proof fn lemma_insert_step_pointwise(
    st: InsertState,
    certificate_id: CertificateId,
    id: TransmissionId,
)
    requires
        st.store.inv(),
        st.store.resident(id) || st.store.order.len() < st.store.cap,
    ensures
        insert_transmission_step(st, certificate_id, id).store.inv(),
        insert_transmission_step(st, certificate_id, id).store.cap == st.store.cap,
        insert_transmission_step(st, certificate_id, id).store.order.len() <= st.store.order.len()
            + 1,
        insert_transmission_step(st, certificate_id, id).store.resident(id) == (st.store.resident(
            id,
        ) || st.missing.contains_key(id)),
        st.store.resident(id) ==> insert_transmission_step(st, certificate_id, id).store.contents[
            id] == (st.store.contents[id].0, st.store.contents[id].1.insert(certificate_id)),
        !st.store.resident(id) && st.missing.contains_key(id) ==> insert_transmission_step(
            st,
            certificate_id,
            id,
        ).store.contents[id] == (
        st.missing[id],
        Set::<CertificateId>::empty().insert(certificate_id),
        ),
        forall|k: TransmissionId|
            k != id ==> insert_transmission_step(st, certificate_id, id).store.resident(k)
                == st.store.resident(k),
        forall|k: TransmissionId|
            k != id && st.store.resident(k) ==> insert_transmission_step(
                st,
                certificate_id,
                id,
            ).store.contents[k] == st.store.contents[k],
        forall|k: TransmissionId|
            k != id ==> insert_transmission_step(st, certificate_id, id).missing.contains_key(k)
                == st.missing.contains_key(k),
        forall|k: TransmissionId|
            k != id && st.missing.contains_key(k) ==> insert_transmission_step(
                st,
                certificate_id,
                id,
            ).missing[k] == st.missing[k],
{
    let m = st.store;
    if m.resident(id) {
        lemma_push_inv(m, id, (m.contents[id].0, m.contents[id].1.insert(certificate_id)));
        assert(m.order.contains(id)) by {
            assert(m.order.to_set().contains(id));
        }
        crate::seq_util::lemma_remove_value_distinct(m.order, id);
    } else if st.missing.contains_key(id) {
        lemma_push_inv(m, id, (st.missing[id], Set::<CertificateId>::empty().insert(
            certificate_id,
        )));
    }
}

/// The reference-count discipline of insertion, when everything fits without
/// eviction: a cached id gains the certificate in its reference set, an
/// uncached id with a supplied payload becomes an entry referenced by the
/// certificate alone, any other id stays absent, and ids not inserted keep
/// their entries.
pub proof fn lemma_insert_transmissions_pointwise(
    st: InsertState,
    certificate_id: CertificateId,
    ids: Seq<TransmissionId>,
)
    requires
        st.store.inv(),
        ids.no_duplicates(),
        st.store.order.len() + ids.len() <= st.store.cap,
    ensures
        insert_transmissions_spec(st, certificate_id, ids).store.inv(),
        insert_transmissions_spec(st, certificate_id, ids).store.cap == st.store.cap,
        insert_transmissions_spec(st, certificate_id, ids).store.order.len()
            <= st.store.order.len() + ids.len(),
        forall|k: TransmissionId|
            ids.contains(k) ==> insert_transmissions_spec(st, certificate_id, ids).store.resident(
                k,
            ) == (st.store.resident(k) || st.missing.contains_key(k)),
        forall|k: TransmissionId|
            ids.contains(k) && st.store.resident(k) ==> insert_transmissions_spec(
                st,
                certificate_id,
                ids,
            ).store.contents[k] == (
            st.store.contents[k].0,
            st.store.contents[k].1.insert(certificate_id),
            ),
        forall|k: TransmissionId|
            ids.contains(k) && !st.store.resident(k) && st.missing.contains_key(k)
                ==> insert_transmissions_spec(st, certificate_id, ids).store.contents[k] == (
            st.missing[k],
            Set::<CertificateId>::empty().insert(certificate_id),
            ),
        forall|k: TransmissionId|
            !ids.contains(k) ==> insert_transmissions_spec(st, certificate_id, ids).store.resident(
                k,
            ) == st.store.resident(k),
        forall|k: TransmissionId|
            !ids.contains(k) && st.store.resident(k) ==> insert_transmissions_spec(
                st,
                certificate_id,
                ids,
            ).store.contents[k] == st.store.contents[k],
        forall|k: TransmissionId|
            !ids.contains(k) ==> insert_transmissions_spec(
                st,
                certificate_id,
                ids,
            ).missing.contains_key(k) == st.missing.contains_key(k),
        forall|k: TransmissionId|
            !ids.contains(k) && st.missing.contains_key(k) ==> insert_transmissions_spec(
                st,
                certificate_id,
                ids,
            ).missing[k] == st.missing[k],
    decreases ids.len(),
{
    if ids.len() == 0 {
    } else {
        let prefix = ids.drop_last();
        let id = ids.last();
        assert(prefix.no_duplicates());
        lemma_insert_transmissions_pointwise(st, certificate_id, prefix);
        let r1 = insert_transmissions_spec(st, certificate_id, prefix);
        assert(!prefix.contains(id));
        assert(forall|k: TransmissionId| prefix.contains(k) ==> ids.contains(k));
        assert(forall|k: TransmissionId| ids.contains(k) && k != id ==> prefix.contains(k)) by {
            assert forall|k: TransmissionId| ids.contains(k) && k != id implies prefix.contains(
                k,
            ) by {
                let j = choose|j: int| 0 <= j < ids.len() && ids[j] == k;
                assert(j != ids.len() - 1);
                assert(prefix[j] == k);
            }
        }
        assert(r1.store.resident(id) || r1.store.order.len() < r1.store.cap);
        lemma_insert_step_pointwise(r1, certificate_id, id);
        assert(r1.store.resident(id) == st.store.resident(id));
        assert(st.store.resident(id) ==> r1.store.contents[id] == st.store.contents[id]);
        assert(r1.missing.contains_key(id) == st.missing.contains_key(id));
        assert(st.missing.contains_key(id) ==> r1.missing[id] == st.missing[id]);
    }
}

/// The counterpart of [`lemma_insert_step_pointwise`] in the aborted cache.
pub proof fn lemma_insert_aborted_step_pointwise(
    m: LruModel<Set<CertificateId>>,
    certificate_id: CertificateId,
    id: TransmissionId,
)
    requires
        m.inv(),
        m.resident(id) || m.order.len() < m.cap,
    ensures
        insert_aborted_step(m, certificate_id, id).inv(),
        insert_aborted_step(m, certificate_id, id).cap == m.cap,
        insert_aborted_step(m, certificate_id, id).order.len() <= m.order.len() + 1,
        insert_aborted_step(m, certificate_id, id).resident(id),
        m.resident(id) ==> insert_aborted_step(m, certificate_id, id).contents[id] == m.contents[
            id].insert(certificate_id),
        !m.resident(id) ==> insert_aborted_step(m, certificate_id, id).contents[id] == Set::<
            CertificateId,
        >::empty().insert(certificate_id),
        forall|k: TransmissionId|
            k != id ==> insert_aborted_step(m, certificate_id, id).resident(k) == m.resident(k),
        forall|k: TransmissionId|
            k != id && m.resident(k) ==> insert_aborted_step(m, certificate_id, id).contents[k]
                == m.contents[k],
{
    if m.resident(id) {
        lemma_push_inv(m, id, m.contents[id].insert(certificate_id));
        assert(m.order.contains(id)) by {
            assert(m.order.to_set().contains(id));
        }
        crate::seq_util::lemma_remove_value_distinct(m.order, id);
    } else {
        lemma_push_inv(m, id, Set::<CertificateId>::empty().insert(certificate_id));
    }
}

/// The counterpart of [`lemma_insert_transmissions_pointwise`] in the
/// aborted cache: every inserted id ends up resident and referenced by the
/// certificate; ids not inserted keep their entries.
pub proof fn lemma_insert_aborted_pointwise(
    m: LruModel<Set<CertificateId>>,
    certificate_id: CertificateId,
    ids: Seq<TransmissionId>,
)
    requires
        m.inv(),
        ids.no_duplicates(),
        m.order.len() + ids.len() <= m.cap,
    ensures
        insert_aborted_spec(m, certificate_id, ids).inv(),
        insert_aborted_spec(m, certificate_id, ids).cap == m.cap,
        insert_aborted_spec(m, certificate_id, ids).order.len() <= m.order.len() + ids.len(),
        forall|k: TransmissionId|
            ids.contains(k) ==> insert_aborted_spec(m, certificate_id, ids).resident(k),
        forall|k: TransmissionId|
            ids.contains(k) && m.resident(k) ==> insert_aborted_spec(m, certificate_id, ids)
                .contents[k] == m.contents[k].insert(certificate_id),
        forall|k: TransmissionId|
            ids.contains(k) && !m.resident(k) ==> insert_aborted_spec(m, certificate_id, ids)
                .contents[k] == Set::<CertificateId>::empty().insert(certificate_id),
        forall|k: TransmissionId|
            !ids.contains(k) ==> insert_aborted_spec(m, certificate_id, ids).resident(k)
                == m.resident(k),
        forall|k: TransmissionId|
            !ids.contains(k) && m.resident(k) ==> insert_aborted_spec(m, certificate_id, ids)
                .contents[k] == m.contents[k],
    decreases ids.len(),
{
    if ids.len() == 0 {
    } else {
        let prefix = ids.drop_last();
        let id = ids.last();
        assert(prefix.no_duplicates());
        lemma_insert_aborted_pointwise(m, certificate_id, prefix);
        let r1 = insert_aborted_spec(m, certificate_id, prefix);
        assert(!prefix.contains(id));
        assert(forall|k: TransmissionId| prefix.contains(k) ==> ids.contains(k));
        assert(forall|k: TransmissionId| ids.contains(k) && k != id ==> prefix.contains(k)) by {
            assert forall|k: TransmissionId| ids.contains(k) && k != id implies prefix.contains(
                k,
            ) by {
                let j = choose|j: int| 0 <= j < ids.len() && ids[j] == k;
                assert(j != ids.len() - 1);
                assert(prefix[j] == k);
            }
        }
        assert(r1.resident(id) || r1.order.len() < r1.cap);
        lemma_insert_aborted_step_pointwise(r1, certificate_id, id);
        assert(r1.resident(id) == m.resident(id));
        assert(m.resident(id) ==> r1.contents[id] == m.contents[id]);
    }
}

/// The second of two identical insertions leaves the resident entries, their
/// payloads and their reference sets of the transmission cache unchanged,
/// provided the first insertion fit without evicting anything.
pub proof fn lemma_insert_transmissions_idempotent(
    st: InsertState,
    certificate_id: CertificateId,
    ids: Seq<TransmissionId>,
)
    requires
        st.store.inv(),
        ids.no_duplicates(),
        st.store.order.len() + ids.len() <= st.store.cap,
    ensures
        insert_transmissions_spec(
            insert_state(insert_transmissions_spec(st, certificate_id, ids).store, st.missing),
            certificate_id,
            ids,
        ).store.contents == insert_transmissions_spec(st, certificate_id, ids).store.contents,
{
    lemma_insert_pass2(st, certificate_id, ids, ids);
}

/// Replaying any part of an insertion over its own result changes no
/// contents: every covered id is already resident with the certificate in
/// its reference set, and every other id is still not suppliable.
proof fn lemma_insert_pass2(
    st: InsertState,
    certificate_id: CertificateId,
    ids: Seq<TransmissionId>,
    p: Seq<TransmissionId>,
)
    requires
        st.store.inv(),
        ids.no_duplicates(),
        st.store.order.len() + ids.len() <= st.store.cap,
        forall|j: int| 0 <= j < p.len() ==> ids.contains(#[trigger] p[j]),
    ensures
        insert_transmissions_spec(
            insert_state(insert_transmissions_spec(st, certificate_id, ids).store, st.missing),
            certificate_id,
            p,
        ).store.contents == insert_transmissions_spec(st, certificate_id, ids).store.contents,
        insert_transmissions_spec(
            insert_state(insert_transmissions_spec(st, certificate_id, ids).store, st.missing),
            certificate_id,
            p,
        ).missing == st.missing,
    decreases p.len(),
{
    lemma_insert_transmissions_pointwise(st, certificate_id, ids);
    let once = insert_transmissions_spec(st, certificate_id, ids);
    if p.len() == 0 {
    } else {
        let prefix = p.drop_last();
        let id = p.last();
        assert(forall|j: int| 0 <= j < prefix.len() ==> p[j] == prefix[j]);
        lemma_insert_pass2(st, certificate_id, ids, prefix);
        let cur = insert_transmissions_spec(
            insert_state(once.store, st.missing),
            certificate_id,
            prefix,
        );
        assert(ids.contains(id)) by {
            assert(p[p.len() - 1] == id);
        }
        assert(cur.store.resident(id) == once.store.resident(id));
        if cur.store.resident(id) {
            assert(st.store.resident(id) || st.missing.contains_key(id));
            let refs = once.store.contents[id].1;
            assert(refs.contains(certificate_id)) by {
                if st.store.resident(id) {
                    assert(once.store.contents[id] == (
                        st.store.contents[id].0,
                        st.store.contents[id].1.insert(certificate_id),
                    ));
                } else {
                    assert(once.store.contents[id] == (
                        st.missing[id],
                        Set::<CertificateId>::empty().insert(certificate_id),
                    ));
                }
            }
            let v = (cur.store.contents[id].0, cur.store.contents[id].1.insert(certificate_id));
            assert(cur.store.contents[id] == once.store.contents[id]);
            assert(refs.insert(certificate_id) =~= refs);
            assert(v == once.store.contents[id]);
            assert(cur.store.push(id, v).contents =~= cur.store.contents) by {
                assert(cur.store.contents.insert(id, v) =~= cur.store.contents);
            }
        } else {
            assert(!(st.store.resident(id) || st.missing.contains_key(id)));
            assert(!cur.missing.contains_key(id));
        }
    }
}

/// The counterpart of [`lemma_insert_transmissions_idempotent`] in the
/// aborted cache.
pub proof fn lemma_insert_aborted_idempotent(
    m: LruModel<Set<CertificateId>>,
    certificate_id: CertificateId,
    ids: Seq<TransmissionId>,
)
    requires
        m.inv(),
        ids.no_duplicates(),
        m.order.len() + ids.len() <= m.cap,
    ensures
        insert_aborted_spec(
            insert_aborted_spec(m, certificate_id, ids),
            certificate_id,
            ids,
        ).contents == insert_aborted_spec(m, certificate_id, ids).contents,
{
    lemma_insert_aborted_pass2(m, certificate_id, ids, ids);
}

/// Replaying any part of an aborted-id insertion over its own result changes
/// no contents.
proof fn lemma_insert_aborted_pass2(
    m: LruModel<Set<CertificateId>>,
    certificate_id: CertificateId,
    ids: Seq<TransmissionId>,
    p: Seq<TransmissionId>,
)
    requires
        m.inv(),
        ids.no_duplicates(),
        m.order.len() + ids.len() <= m.cap,
        forall|j: int| 0 <= j < p.len() ==> ids.contains(#[trigger] p[j]),
    ensures
        insert_aborted_spec(insert_aborted_spec(m, certificate_id, ids), certificate_id, p)
            .contents == insert_aborted_spec(m, certificate_id, ids).contents,
    decreases p.len(),
{
    lemma_insert_aborted_pointwise(m, certificate_id, ids);
    let once = insert_aborted_spec(m, certificate_id, ids);
    if p.len() == 0 {
    } else {
        let prefix = p.drop_last();
        let id = p.last();
        assert(forall|j: int| 0 <= j < prefix.len() ==> p[j] == prefix[j]);
        lemma_insert_aborted_pass2(m, certificate_id, ids, prefix);
        let cur = insert_aborted_spec(once, certificate_id, prefix);
        assert(ids.contains(id)) by {
            assert(p[p.len() - 1] == id);
        }
        assert(cur.resident(id) == once.resident(id));
        assert(once.resident(id));
        let refs = once.contents[id];
        assert(refs.contains(certificate_id)) by {
            if m.resident(id) {
                assert(once.contents[id] == m.contents[id].insert(certificate_id));
            } else {
                assert(once.contents[id] == Set::<CertificateId>::empty().insert(certificate_id));
            }
        }
        assert(cur.contents[id] == once.contents[id]);
        assert(cur.contents[id].insert(certificate_id) =~= cur.contents[id]);
        assert(cur.push(id, cur.contents[id].insert(certificate_id)).contents =~= cur.contents)
            by {
            assert(cur.contents.insert(id, cur.contents[id].insert(certificate_id))
                =~= cur.contents);
        }
    }
}

/// An insertion keeps the transmission cache consistent and every resident
/// entry referenced, eviction or not.
pub proof fn lemma_insert_transmissions_wf(
    st: InsertState,
    certificate_id: CertificateId,
    ids: Seq<TransmissionId>,
)
    requires
        st.store.inv(),
        transmissions_referenced(st.store),
    ensures
        insert_transmissions_spec(st, certificate_id, ids).store.inv(),
        transmissions_referenced(insert_transmissions_spec(st, certificate_id, ids).store),
    decreases ids.len(),
{
    if ids.len() > 0 {
        lemma_insert_transmissions_wf(st, certificate_id, ids.drop_last());
        crate::service::lemma_insert_transmission_step_wf(
            insert_transmissions_spec(st, certificate_id, ids.drop_last()),
            certificate_id,
            ids.last(),
        );
    }
}

/// The reference count balances out: recording a certificate that did not
/// yet reference `id` and then retiring it leaves `id`'s entry exactly as it
/// was — still resident with the same payload and references if it was
/// cached, and absent again if its payload had been freshly supplied —
/// provided the insertion fit without eviction.
pub proof fn lemma_insert_remove_round_trip(
    st: InsertState,
    certificate_id: CertificateId,
    ids: Seq<TransmissionId>,
    id: TransmissionId,
)
    requires
        st.store.inv(),
        transmissions_referenced(st.store),
        ids.no_duplicates(),
        st.store.order.len() + ids.len() <= st.store.cap,
        ids.contains(id),
        st.store.resident(id) || st.missing.contains_key(id),
        st.store.resident(id) ==> !st.store.contents[id].1.contains(certificate_id),
    ensures
        remove_transmissions_spec(
            insert_transmissions_spec(st, certificate_id, ids).store,
            certificate_id,
            ids,
        ).resident(id) == st.store.resident(id),
        st.store.resident(id) ==> remove_transmissions_spec(
            insert_transmissions_spec(st, certificate_id, ids).store,
            certificate_id,
            ids,
        ).contents[id] == st.store.contents[id],
{
    lemma_insert_transmissions_pointwise(st, certificate_id, ids);
    lemma_insert_transmissions_wf(st, certificate_id, ids);
    let r1 = insert_transmissions_spec(st, certificate_id, ids).store;
    lemma_remove_transmissions_pointwise(r1, certificate_id, ids);
    if st.store.resident(id) {
        let refs = st.store.contents[id].1;
        assert(r1.contents[id] == (st.store.contents[id].0, refs.insert(certificate_id)));
        assert(refs.insert(certificate_id).remove(certificate_id) =~= refs);
        assert(refs != Set::<CertificateId>::empty()) by {
            assert(st.store.resident(id));
        }
    } else {
        assert(r1.contents[id] == (
            st.missing[id],
            Set::<CertificateId>::empty().insert(certificate_id),
        ));
        assert(Set::<CertificateId>::empty().insert(certificate_id).remove(certificate_id)
            =~= Set::<CertificateId>::empty());
    }
}

/// Containment is consistent with insertion: right after an insertion that
/// fits without eviction, every inserted id that was cached or supplied is
/// resident, with the certificate among its references.
pub proof fn lemma_contains_after_insert(
    st: InsertState,
    certificate_id: CertificateId,
    ids: Seq<TransmissionId>,
    id: TransmissionId,
)
    requires
        st.store.inv(),
        ids.no_duplicates(),
        st.store.order.len() + ids.len() <= st.store.cap,
        ids.contains(id),
        st.store.resident(id) || st.missing.contains_key(id),
    ensures
        insert_transmissions_spec(st, certificate_id, ids).store.resident(id),
        insert_transmissions_spec(st, certificate_id, ids).store.contents[id].1.contains(
            certificate_id,
        ),
{
    lemma_insert_transmissions_pointwise(st, certificate_id, ids);
    if st.store.resident(id) {
        assert(insert_transmissions_spec(st, certificate_id, ids).store.contents[id] == (
            st.store.contents[id].0,
            st.store.contents[id].1.insert(certificate_id),
        ));
    } else {
        assert(insert_transmissions_spec(st, certificate_id, ids).store.contents[id] == (
            st.missing[id],
            Set::<CertificateId>::empty().insert(certificate_id),
        ));
    }
}

/// Containment is consistent with removal: right after the last referencing
/// certificate of an id is removed, the id is resident in neither sub-cache.
pub proof fn lemma_absent_after_remove(
    t: LruModel<TransmissionEntryView>,
    a: LruModel<Set<CertificateId>>,
    certificate_id: CertificateId,
    ids: Seq<TransmissionId>,
    id: TransmissionId,
)
    requires
        t.inv(),
        transmissions_referenced(t),
        a.inv(),
        aborted_referenced(a),
        ids.no_duplicates(),
        ids.contains(id),
        t.resident(id) ==> t.contents[id].1.remove(certificate_id) == Set::<
            CertificateId,
        >::empty(),
        a.resident(id) ==> a.contents[id].remove(certificate_id) == Set::<
            CertificateId,
        >::empty(),
    ensures
        !remove_transmissions_spec(t, certificate_id, ids).resident(id),
        !remove_aborted_spec(a, certificate_id, ids).resident(id),
{
    lemma_remove_transmissions_pointwise(t, certificate_id, ids);
    lemma_remove_aborted_pointwise(a, certificate_id, ids);
}

/// The eviction bound: pushing more distinct, freshly supplied ids into an
/// empty cache than its capacity allows leaves exactly the most recently
/// inserted `cap` of them resident, in most-recent-first order; every older
/// one has been evicted. (That residency never exceeds the capacity at all
/// is the stores' standing invariant.)
pub proof fn lemma_eviction_bound(
    cap: nat,
    certificate_id: CertificateId,
    ids: Seq<TransmissionId>,
    missing: Map<TransmissionId, Seq<u8>>,
)
    requires
        1 <= cap,
        ids.no_duplicates(),
        cap <= ids.len(),
        forall|j: int| 0 <= j < ids.len() ==> missing.contains_key(#[trigger] ids[j]),
    ensures
        insert_transmissions_spec(
            insert_state(LruModel::empty(cap), missing),
            certificate_id,
            ids,
        ).store.order.len() == cap,
        forall|x: int|
            0 <= x < cap ==> insert_transmissions_spec(
                insert_state(LruModel::empty(cap), missing),
                certificate_id,
                ids,
            ).store.order[x] == ids[ids.len() - 1 - x],
        forall|j: int|
            ids.len() - cap <= j < ids.len() ==> insert_transmissions_spec(
                insert_state(LruModel::empty(cap), missing),
                certificate_id,
                ids,
            ).store.resident(#[trigger] ids[j]),
        forall|j: int|
            0 <= j < ids.len() - cap ==> !insert_transmissions_spec(
                insert_state(LruModel::empty(cap), missing),
                certificate_id,
                ids,
            ).store.resident(#[trigger] ids[j]),
{
    lemma_eviction_bound_rec(cap, certificate_id, ids, missing, ids.len() as int);
    let r = insert_transmissions_spec(
        insert_state(LruModel::empty(cap), missing),
        certificate_id,
        ids,
    ).store;
    assert(ids.take(ids.len() as int) =~= ids);
    let n = ids.len() as int;
    assert forall|j: int| n - cap <= j < n implies r.resident(#[trigger] ids[j]) by {
        let x = n - 1 - j;
        assert(r.order[x] == ids[j]);
        assert(r.order.contains(ids[j]));
        assert(r.order.to_set().contains(ids[j]));
    }
    assert forall|j: int| 0 <= j < n - cap implies !r.resident(#[trigger] ids[j]) by {
        if r.resident(ids[j]) {
            assert(r.order.to_set().contains(ids[j]));
            let x = choose|x: int| 0 <= x < r.order.len() && r.order[x] == ids[j];
            assert(ids[n - 1 - x] == ids[j]);
            assert(n - 1 - x != j);
        }
    }
}

/// After the first `i` of a run of fresh, supplied ids have been pushed into
/// an initially empty cache, the recency order holds the last `min(i, cap)`
/// of them, most recent first, and the payloads of the rest are still
/// unconsumed.
proof fn lemma_eviction_bound_rec(
    cap: nat,
    certificate_id: CertificateId,
    ids: Seq<TransmissionId>,
    missing: Map<TransmissionId, Seq<u8>>,
    i: int,
)
    requires
        1 <= cap,
        ids.no_duplicates(),
        forall|j: int| 0 <= j < ids.len() ==> missing.contains_key(#[trigger] ids[j]),
        0 <= i <= ids.len(),
    ensures
        insert_transmissions_spec(
            insert_state(LruModel::empty(cap), missing),
            certificate_id,
            ids.take(i),
        ).store.inv(),
        insert_transmissions_spec(
            insert_state(LruModel::empty(cap), missing),
            certificate_id,
            ids.take(i),
        ).store.cap == cap,
        insert_transmissions_spec(
            insert_state(LruModel::empty(cap), missing),
            certificate_id,
            ids.take(i),
        ).store.order.len() == if i <= cap {
            i
        } else {
            cap as int
        },
        forall|x: int|
            0 <= x < insert_transmissions_spec(
                insert_state(LruModel::empty(cap), missing),
                certificate_id,
                ids.take(i),
            ).store.order.len() ==> insert_transmissions_spec(
                insert_state(LruModel::empty(cap), missing),
                certificate_id,
                ids.take(i),
            ).store.order[x] == ids[i - 1 - x],
        forall|j: int|
            i <= j < ids.len() ==> insert_transmissions_spec(
                insert_state(LruModel::empty(cap), missing),
                certificate_id,
                ids.take(i),
            ).missing.contains_key(#[trigger] ids[j]),
        forall|j: int|
            i <= j < ids.len() ==> insert_transmissions_spec(
                insert_state(LruModel::empty(cap), missing),
                certificate_id,
                ids.take(i),
            ).missing[#[trigger] ids[j]] == missing[ids[j]],
    decreases i,
{
    let st0 = insert_state(LruModel::empty(cap), missing);
    if i == 0 {
        crate::model::lemma_empty_inv::<TransmissionEntryView>(cap);
        assert(ids.take(0).len() == 0);
    } else {
        lemma_eviction_bound_rec(cap, certificate_id, ids, missing, i - 1);
        let r1 = insert_transmissions_spec(st0, certificate_id, ids.take(i - 1)).store;
        let m1 = insert_transmissions_spec(st0, certificate_id, ids.take(i - 1)).missing;
        let id = ids[i - 1];
        assert(ids.take(i).drop_last() =~= ids.take(i - 1));
        assert(ids.take(i).last() == id);
        assert(!r1.resident(id)) by {
            if r1.resident(id) {
                assert(r1.order.to_set().contains(id));
                let x = choose|x: int| 0 <= x < r1.order.len() && r1.order[x] == id;
                assert(ids[i - 1 - 1 - x] == ids[i - 1]);
                assert(i - 2 - x != i - 1);
            }
        }
        assert(m1.contains_key(id));
        let v = (m1[id], Set::<CertificateId>::empty().insert(certificate_id));
        lemma_push_inv(r1, id, v);
        let r = insert_transmissions_spec(st0, certificate_id, ids.take(i)).store;
        assert(r == r1.push(id, v));
        if r1.order.len() < cap {
            assert(r.order =~= seq![id] + r1.order);
            assert forall|x: int| 0 <= x < r.order.len() implies r.order[x] == ids[i - 1 - x] by {
                if x > 0 {
                    assert(r.order[x] == r1.order[x - 1]);
                }
            }
        } else {
            assert(r.order =~= seq![id] + r1.order.drop_last());
            assert forall|x: int| 0 <= x < r.order.len() implies r.order[x] == ids[i - 1 - x] by {
                if x > 0 {
                    assert(r.order[x] == r1.order[x - 1]);
                }
            }
        }
        assert forall|j: int|
            i <= j < ids.len() implies insert_transmissions_spec(
                st0,
                certificate_id,
                ids.take(i),
            ).missing.contains_key(#[trigger] ids[j]) && insert_transmissions_spec(
                st0,
                certificate_id,
                ids.take(i),
            ).missing[ids[j]] == missing[ids[j]] by {
            assert(ids[j] != id);
            assert(m1.contains_key(ids[j]) && m1[ids[j]] == missing[ids[j]]);
        }
    }
}

} // verus!
