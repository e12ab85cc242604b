//! The cache service itself: two independently bounded, reference-counted
//! sub-caches, one for transmissions with their payloads and one for
//! transmission ids known to have been aborted.

use vstd::prelude::*;
use crate::cert_set::CertificateIdSet;
use crate::id_set::TransmissionIdSet;
use crate::lru_store::{
    aborted_store_contains, aborted_store_model, aborted_store_new, aborted_store_pop,
    aborted_store_push, entry_view, transmission_store_contains, transmission_store_entries,
    transmission_store_model, transmission_store_new, transmission_store_pop,
    transmission_store_push, AbortedStore, TransmissionEntry, TransmissionStore,
};
use crate::model::{lemma_pop_inv, lemma_pop_push, lemma_pop_push_touch, lemma_push_inv, LruModel};
use crate::payload_map::TransmissionMap;
use crate::seq_util::lemma_take_push_to_set;
use crate::types::{
    BatchHeader, CacheError, CertificateId, StorageMode, Transmission, TransmissionId,
};

verus! {

/// What a primary-store entry abstractly is: payload bytes and the set of
/// referencing certificate ids.
pub type TransmissionEntryView = (Seq<u8>, Set<CertificateId>);

/// Every resident transmission is referenced by at least one certificate.
pub open spec fn transmissions_referenced(m: LruModel<TransmissionEntryView>) -> bool {
    forall|id: TransmissionId|
        #[trigger] m.resident(id) ==> m.contents[id].1 != Set::<CertificateId>::empty()
}

/// Every resident aborted id is referenced by at least one certificate.
pub open spec fn aborted_referenced(m: LruModel<Set<CertificateId>>) -> bool {
    forall|id: TransmissionId|
        #[trigger] m.resident(id) ==> m.contents[id] != Set::<CertificateId>::empty()
}

/// The transmission-cache capacity of a named operating profile.
pub open spec fn transmission_capacity_of(mode: StorageMode) -> nat {
    match mode {
        StorageMode::Production => 1000,
        StorageMode::Development(_) => 500,
        StorageMode::Custom => 2000,
    }
}

/// The aborted-cache capacity of a named operating profile.
pub open spec fn aborted_capacity_of(mode: StorageMode) -> nat {
    match mode {
        StorageMode::Production => 500,
        StorageMode::Development(_) => 250,
        StorageMode::Custom => 1000,
    }
}

/// Whether `id` needs nothing from the caller: it is already cached, or the
/// caller supplied its payload, or the caller marked it aborted.
pub open spec fn accounted(
    cached: Set<TransmissionId>,
    supplied: Map<TransmissionId, Seq<u8>>,
    aborted: Seq<TransmissionId>,
    id: TransmissionId,
) -> bool {
    cached.contains(id) || supplied.contains_key(id) || aborted.contains(id)
}

/// Whether every id a header names is accounted for.
pub open spec fn all_accounted(
    header: Seq<TransmissionId>,
    cached: Set<TransmissionId>,
    supplied: Map<TransmissionId, Seq<u8>>,
    aborted: Seq<TransmissionId>,
) -> bool {
    forall|j: int| 0 <= j < header.len() ==> accounted(cached, supplied, aborted, #[trigger] header[j])
}

/// The supplied payloads of header-named ids that are not already cached:
/// exactly what the caller must persist next.
pub open spec fn missing_of(
    header: Seq<TransmissionId>,
    cached: Set<TransmissionId>,
    supplied: Map<TransmissionId, Seq<u8>>,
) -> Map<TransmissionId, Seq<u8>> {
    supplied.restrict(header.to_set().difference(cached))
}

/// The state an insertion threads through the transmission cache: the store
/// and the supplied payloads not yet consumed.
#[verifier::ext_equal]
pub ghost struct InsertState {
    pub store: LruModel<TransmissionEntryView>,
    pub missing: Map<TransmissionId, Seq<u8>>,
}

/// Builds the threaded insertion state.
pub open spec fn insert_state(
    store: LruModel<TransmissionEntryView>,
    missing: Map<TransmissionId, Seq<u8>>,
) -> InsertState {
    InsertState { store, missing }
}

/// What inserting one transmission id under `certificate_id` does. A cached
/// id gains the certificate in its reference set; an id whose payload the
/// supplied mapping holds becomes a new entry referenced by the certificate
/// alone, consuming the payload; any other id is skipped silently.
pub open spec fn insert_transmission_step(
    st: InsertState,
    certificate_id: CertificateId,
    id: TransmissionId,
) -> InsertState {
    if st.store.resident(id) {
        insert_state(
            st.store.push(
                id,
                (st.store.contents[id].0, st.store.contents[id].1.insert(certificate_id)),
            ),
            st.missing,
        )
    } else if st.missing.contains_key(id) {
        insert_state(
            st.store.push(
                id,
                (st.missing[id], Set::<CertificateId>::empty().insert(certificate_id)),
            ),
            st.missing.remove(id),
        )
    } else {
        st
    }
}

/// Inserting a sequence of transmission ids, first to last.
pub open spec fn insert_transmissions_spec(
    st: InsertState,
    certificate_id: CertificateId,
    ids: Seq<TransmissionId>,
) -> InsertState
    decreases ids.len(),
{
    if ids.len() == 0 {
        st
    } else {
        insert_transmission_step(
            insert_transmissions_spec(st, certificate_id, ids.drop_last()),
            certificate_id,
            ids.last(),
        )
    }
}

/// What inserting one aborted transmission id under `certificate_id` does: a
/// resident id gains the certificate in its reference set; an absent one
/// becomes a new entry referenced by the certificate alone.
pub open spec fn insert_aborted_step(
    m: LruModel<Set<CertificateId>>,
    certificate_id: CertificateId,
    id: TransmissionId,
) -> LruModel<Set<CertificateId>> {
    if m.resident(id) {
        m.push(id, m.contents[id].insert(certificate_id))
    } else {
        m.push(id, Set::<CertificateId>::empty().insert(certificate_id))
    }
}

/// Inserting a sequence of aborted transmission ids, first to last.
pub open spec fn insert_aborted_spec(
    m: LruModel<Set<CertificateId>>,
    certificate_id: CertificateId,
    ids: Seq<TransmissionId>,
) -> LruModel<Set<CertificateId>>
    decreases ids.len(),
{
    if ids.len() == 0 {
        m
    } else {
        insert_aborted_step(
            insert_aborted_spec(m, certificate_id, ids.drop_last()),
            certificate_id,
            ids.last(),
        )
    }
}

/// What removing `certificate_id` from one transmission id does. A resident
/// id loses the certificate from its reference set; if no reference is left
/// the entry is deleted, otherwise the entry stays (and, having been looked
/// up, becomes the most recently used). An absent id changes nothing.
pub open spec fn remove_transmission_step(
    m: LruModel<TransmissionEntryView>,
    certificate_id: CertificateId,
    id: TransmissionId,
) -> LruModel<TransmissionEntryView> {
    if m.resident(id) {
        if m.contents[id].1.remove(certificate_id) == Set::<CertificateId>::empty() {
            m.pop(id)
        } else {
            m.push(id, (m.contents[id].0, m.contents[id].1.remove(certificate_id)))
        }
    } else {
        m
    }
}

/// Removing a certificate from a sequence of transmission ids, first to
/// last, in the transmission cache.
pub open spec fn remove_transmissions_spec(
    m: LruModel<TransmissionEntryView>,
    certificate_id: CertificateId,
    ids: Seq<TransmissionId>,
) -> LruModel<TransmissionEntryView>
    decreases ids.len(),
{
    if ids.len() == 0 {
        m
    } else {
        remove_transmission_step(
            remove_transmissions_spec(m, certificate_id, ids.drop_last()),
            certificate_id,
            ids.last(),
        )
    }
}

/// The counterpart of [`remove_transmission_step`] in the aborted cache.
pub open spec fn remove_aborted_step(
    m: LruModel<Set<CertificateId>>,
    certificate_id: CertificateId,
    id: TransmissionId,
) -> LruModel<Set<CertificateId>> {
    if m.resident(id) {
        if m.contents[id].remove(certificate_id) == Set::<CertificateId>::empty() {
            m.pop(id)
        } else {
            m.push(id, m.contents[id].remove(certificate_id))
        }
    } else {
        m
    }
}

/// Removing a certificate from a sequence of transmission ids, first to
/// last, in the aborted cache.
pub open spec fn remove_aborted_spec(
    m: LruModel<Set<CertificateId>>,
    certificate_id: CertificateId,
    ids: Seq<TransmissionId>,
) -> LruModel<Set<CertificateId>>
    decreases ids.len(),
{
    if ids.len() == 0 {
        m
    } else {
        remove_aborted_step(
            remove_aborted_spec(m, certificate_id, ids.drop_last()),
            certificate_id,
            ids.last(),
        )
    }
}

/// One insertion step keeps the transmission cache consistent and every
/// entry referenced.
pub proof fn lemma_insert_transmission_step_wf(
    st: InsertState,
    certificate_id: CertificateId,
    id: TransmissionId,
)
    requires
        st.store.inv(),
        transmissions_referenced(st.store),
    ensures
        insert_transmission_step(st, certificate_id, id).store.inv(),
        transmissions_referenced(insert_transmission_step(st, certificate_id, id).store),
        insert_transmission_step(st, certificate_id, id).store.cap == st.store.cap,
{
    let m = st.store;
    let p = insert_transmission_step(st, certificate_id, id).store;
    if m.resident(id) {
        let v = (m.contents[id].0, m.contents[id].1.insert(certificate_id));
        lemma_push_inv(m, id, v);
        assert forall|k: TransmissionId| #[trigger] p.resident(k) implies p.contents[k].1
            != Set::<CertificateId>::empty() by {
            if k == id {
                assert(p.contents[k].1.contains(certificate_id));
            } else {
                assert(m.resident(k));
            }
        }
    } else if st.missing.contains_key(id) {
        let v = (st.missing[id], Set::<CertificateId>::empty().insert(certificate_id));
        lemma_push_inv(m, id, v);
        assert forall|k: TransmissionId| #[trigger] p.resident(k) implies p.contents[k].1
            != Set::<CertificateId>::empty() by {
            if k == id {
                assert(p.contents[k].1.contains(certificate_id));
            } else {
                assert(m.resident(k));
            }
        }
    }
}

/// One aborted-insertion step keeps the aborted cache consistent and every
/// entry referenced.
pub proof fn lemma_insert_aborted_step_wf(
    m: LruModel<Set<CertificateId>>,
    certificate_id: CertificateId,
    id: TransmissionId,
)
    requires
        m.inv(),
        aborted_referenced(m),
    ensures
        insert_aborted_step(m, certificate_id, id).inv(),
        aborted_referenced(insert_aborted_step(m, certificate_id, id)),
        insert_aborted_step(m, certificate_id, id).cap == m.cap,
{
    let p = insert_aborted_step(m, certificate_id, id);
    if m.resident(id) {
        lemma_push_inv(m, id, m.contents[id].insert(certificate_id));
    } else {
        lemma_push_inv(m, id, Set::<CertificateId>::empty().insert(certificate_id));
    }
    assert forall|k: TransmissionId| #[trigger] p.resident(k) implies p.contents[k]
        != Set::<CertificateId>::empty() by {
        if k == id {
            assert(p.contents[k].contains(certificate_id));
        } else {
            assert(m.resident(k));
        }
    }
}

/// One removal step keeps the transmission cache consistent and every entry
/// referenced.
pub proof fn lemma_remove_transmission_step_wf(
    m: LruModel<TransmissionEntryView>,
    certificate_id: CertificateId,
    id: TransmissionId,
)
    requires
        m.inv(),
        transmissions_referenced(m),
    ensures
        remove_transmission_step(m, certificate_id, id).inv(),
        transmissions_referenced(remove_transmission_step(m, certificate_id, id)),
        remove_transmission_step(m, certificate_id, id).cap == m.cap,
{
    let p = remove_transmission_step(m, certificate_id, id);
    if m.resident(id) {
        let refs = m.contents[id].1.remove(certificate_id);
        if refs == Set::<CertificateId>::empty() {
            lemma_pop_inv(m, id);
            assert forall|k: TransmissionId| #[trigger] p.resident(k) implies p.contents[k].1
                != Set::<CertificateId>::empty() by {
                assert(m.resident(k));
            }
        } else {
            lemma_push_inv(m, id, (m.contents[id].0, refs));
            assert forall|k: TransmissionId| #[trigger] p.resident(k) implies p.contents[k].1
                != Set::<CertificateId>::empty() by {
                if k != id {
                    assert(m.resident(k));
                }
            }
        }
    }
}

/// One removal step keeps the aborted cache consistent and every entry
/// referenced.
pub proof fn lemma_remove_aborted_step_wf(
    m: LruModel<Set<CertificateId>>,
    certificate_id: CertificateId,
    id: TransmissionId,
)
    requires
        m.inv(),
        aborted_referenced(m),
    ensures
        remove_aborted_step(m, certificate_id, id).inv(),
        aborted_referenced(remove_aborted_step(m, certificate_id, id)),
        remove_aborted_step(m, certificate_id, id).cap == m.cap,
{
    let p = remove_aborted_step(m, certificate_id, id);
    if m.resident(id) {
        let refs = m.contents[id].remove(certificate_id);
        if refs == Set::<CertificateId>::empty() {
            lemma_pop_inv(m, id);
            assert forall|k: TransmissionId| #[trigger] p.resident(k) implies p.contents[k]
                != Set::<CertificateId>::empty() by {
                assert(m.resident(k));
            }
        } else {
            lemma_push_inv(m, id, refs);
            assert forall|k: TransmissionId| #[trigger] p.resident(k) implies p.contents[k]
                != Set::<CertificateId>::empty() by {
                if k != id {
                    assert(m.resident(k));
                }
            }
        }
    }
}

/// Two stores with the same contents have the same entries referenced.
proof fn lemma_referenced_same_contents(
    m1: LruModel<TransmissionEntryView>,
    m2: LruModel<TransmissionEntryView>,
)
    requires
        transmissions_referenced(m1),
        m2.contents == m1.contents,
    ensures
        transmissions_referenced(m2),
{
    assert forall|id: TransmissionId| #[trigger] m2.resident(id) implies m2.contents[id].1
        != Set::<CertificateId>::empty() by {
        assert(m1.resident(id));
    }
}

/// A BFT in-memory cache service: a bounded store of transmissions with the
/// certificate ids referencing each, and a bounded store of aborted
/// transmission ids with the certificate ids referencing each.
#[derive(Debug)]
pub struct BFTCacheService {
    transmissions: TransmissionStore,
    aborted_transmission_ids: AbortedStore,
}

impl BFTCacheService {
    /// The abstract state of the transmission cache.
    pub closed spec fn transmissions_model(self) -> LruModel<TransmissionEntryView> {
        transmission_store_model(self.transmissions)
    }

    /// The abstract state of the aborted-transmission cache.
    pub closed spec fn aborted_model(self) -> LruModel<Set<CertificateId>> {
        aborted_store_model(self.aborted_transmission_ids)
    }

    /// The service's invariant: both stores are internally consistent and
    /// every resident entry has at least one referencing certificate.
    pub open spec fn wf(self) -> bool {
        &&& self.transmissions_model().inv()
        &&& self.aborted_model().inv()
        &&& transmissions_referenced(self.transmissions_model())
        &&& aborted_referenced(self.aborted_model())
    }

    /// Initializes a cache service whose sub-caches hold at most the given
    /// numbers of entries.
    pub fn new(transmission_capacity: usize, aborted_capacity: usize) -> (r: Self)
        requires
            1 <= transmission_capacity,
            1 <= aborted_capacity,
        ensures
            r.wf(),
            r.transmissions_model() == LruModel::<TransmissionEntryView>::empty(
                transmission_capacity as nat,
            ),
            r.aborted_model() == LruModel::<Set<CertificateId>>::empty(aborted_capacity as nat),
    {
        let transmissions = transmission_store_new(transmission_capacity);
        let aborted_transmission_ids = aborted_store_new(aborted_capacity);
        let r = BFTCacheService { transmissions, aborted_transmission_ids };
        proof {
            assert(transmission_store_model(r.transmissions).contents =~= Map::<
                TransmissionId,
                TransmissionEntryView,
            >::empty());
            assert(aborted_store_model(r.aborted_transmission_ids).contents =~= Map::<
                TransmissionId,
                Set<CertificateId>,
            >::empty());
            assert(r.transmissions_model() =~= LruModel::<TransmissionEntryView>::empty(
                transmission_capacity as nat,
            ));
            assert(r.aborted_model() =~= LruModel::<Set<CertificateId>>::empty(
                aborted_capacity as nat,
            ));
            assert(Seq::<TransmissionId>::empty().to_set() =~= Set::<TransmissionId>::empty());
        }
        r
    }

    /// Opens a cache service with the capacities of the given operating
    /// profile. Always succeeds; the fallible signature is the boundary
    /// contract a storage backend must satisfy.
    pub fn open(storage_mode: StorageMode) -> (r: Result<Self, CacheError>)
        ensures
            r is Ok,
            r matches Ok(c) ==> c.wf() && c.transmissions_model()
                == LruModel::<TransmissionEntryView>::empty(transmission_capacity_of(storage_mode))
                && c.aborted_model() == LruModel::<Set<CertificateId>>::empty(
                aborted_capacity_of(storage_mode),
            ),
    {
        let capacities: (usize, usize) = match storage_mode {
            StorageMode::Production => (1000, 500),
            StorageMode::Development(_) => (500, 250),
            StorageMode::Custom => (2000, 1000),
        };
        Ok(Self::new(capacities.0, capacities.1))
    }

    /// Whether `transmission_id` is resident in either sub-cache. A pure
    /// probe: it does not touch the recency order of either store.
    pub fn contains_transmission(&self, transmission_id: TransmissionId) -> (r: bool)
        ensures
            r == (self.transmissions_model().resident(transmission_id)
                || self.aborted_model().resident(transmission_id)),
    {
        transmission_store_contains(&self.transmissions, &transmission_id)
            || aborted_store_contains(&self.aborted_transmission_ids, &transmission_id)
    }

    /// A copy of the payload cached for `transmission_id`, if any. A hit
    /// counts as a use: the entry becomes the most recently used one.
    pub fn get_transmission(&mut self, transmission_id: TransmissionId) -> (r: Option<
        Transmission,
    >)
        requires
            old(self).wf(),
        ensures
            final(self).wf(),
            final(self).transmissions_model() == old(self).transmissions_model().touch(
                transmission_id,
            ),
            final(self).aborted_model() == old(self).aborted_model(),
            (r is Some) == old(self).transmissions_model().resident(transmission_id),
            r matches Some(t) ==> t@ == old(self).transmissions_model().contents[
                transmission_id].0,
    {
        let ghost m0 = self.transmissions_model();
        match transmission_store_pop(&mut self.transmissions, &transmission_id) {
            Some(entry) => {
                let payload = entry.0.duplicate();
                proof {
                    lemma_pop_inv(m0, transmission_id);
                }
                transmission_store_push(&mut self.transmissions, transmission_id, entry);
                proof {
                    lemma_pop_push_touch(m0, transmission_id);
                    assert(entry_view(entry) =~= m0.contents[transmission_id]);
                    assert(m0.pop(transmission_id).push(transmission_id, entry_view(entry))
                        == m0.touch(transmission_id));
                    crate::model::lemma_touch_inv(m0, transmission_id);
                    lemma_referenced_same_contents(m0, m0.touch(transmission_id));
                }
                Some(payload)
            },
            None => {
                proof {
                    lemma_pop_inv(m0, transmission_id);
                    assert(self.transmissions_model() == m0);
                }
                None
            },
        }
    }

    /// Classifies every transmission id the batch header names. Ids already
    /// resident in the transmission cache need nothing; of the rest, ids the
    /// caller supplied a payload for are returned (they must be persisted
    /// next), ids in the caller's aborted set need no payload, and any id
    /// that none of the three explains fails the call with a missing-data
    /// error. The supplied mapping is consumed.
    #[verifier::loop_isolation(false)]
    pub fn find_missing_transmissions(
        &self,
        batch_header: &BatchHeader,
        transmissions: TransmissionMap,
        aborted_transmissions: TransmissionIdSet,
    ) -> (r: Result<TransmissionMap, CacheError>)
        ensures
            (r is Ok) == all_accounted(
                batch_header@,
                self.transmissions_model().contents.dom(),
                transmissions@,
                aborted_transmissions@,
            ),
            r matches Ok(m) ==> m@ == missing_of(
                batch_header@,
                self.transmissions_model().contents.dom(),
                transmissions@,
            ),
            r matches Err(e) ==> e == CacheError::MissingTransmission,
    {
        let ghost header = batch_header@;
        let ghost cached = self.transmissions_model().contents.dom();
        let ghost supplied0 = transmissions@;
        let ghost aborted_seq = aborted_transmissions@;
        batch_header.pairwise_distinct();
        let ids = batch_header.transmission_ids();
        let mut supplied = transmissions;
        let mut missing = TransmissionMap::new();
        let n = ids.len();
        let mut i: usize = 0;
        proof {
            assert(missing@ =~= missing_of(header.take(0), cached, supplied0));
            assert(supplied@ =~= supplied0.remove_keys(missing@.dom()));
        }
        while i < n
            invariant
                i <= n,
                n == header.len(),
                ids@ == header,
                header.no_duplicates(),
                cached == self.transmissions_model().contents.dom(),
                aborted_seq == aborted_transmissions@,
                forall|j: int|
                    0 <= j < i ==> accounted(cached, supplied0, aborted_seq, #[trigger] header[j]),
                missing@ == missing_of(header.take(i as int), cached, supplied0),
                supplied@ == supplied0.remove_keys(missing@.dom()),
            decreases n - i,
        {
            let id = ids.index(i);
            let ghost missing_pre = missing@;
            proof {
                assert(!header.take(i as int).contains(id)) by {
                    if header.take(i as int).contains(id) {
                        let j = choose|j: int| 0 <= j < i && header.take(i as int)[j] == id;
                        assert(header[j] == id && header[i as int] == id);
                    }
                }
                assert(!missing_pre.dom().contains(id)) by {
                    assert(missing_pre == supplied0.restrict(
                        header.take(i as int).to_set().difference(cached),
                    ));
                    if missing_pre.dom().contains(id) {
                        assert(header.take(i as int).to_set().contains(id));
                    }
                }
                assert(header.take(i + 1).drop_last() =~= header.take(i as int));
                assert(header.take(i + 1).last() == id);
            }
            if transmission_store_contains(&self.transmissions, &id) {
                proof {
                    assert(missing@ =~= missing_of(header.take(i + 1), cached, supplied0)) by {
                        assert(header.take(i + 1).to_set().difference(cached) =~= header.take(
                            i as int,
                        ).to_set().difference(cached)) by {
                            assert(header.take(i + 1).to_set() =~= header.take(i as int)
                                .to_set().insert(id)) by {
                                lemma_take_push_to_set(header, i as int);
                            }
                        }
                    }
                }
            } else {
                match supplied.remove(&id) {
                    Some(transmission) => {
                        proof {
                            assert(supplied0.contains_key(id));
                            assert(transmission@ == supplied0[id]);
                        }
                        missing.insert(id, transmission);
                        proof {
                            assert(missing@ =~= missing_of(header.take(i + 1), cached, supplied0))
                                by {
                                lemma_take_push_to_set(header, i as int);
                                assert(missing@ =~= missing_pre.insert(id, supplied0[id]));
                            }
                            assert(supplied@ =~= supplied0.remove_keys(missing@.dom()));
                        }
                    },
                    None => {
                        proof {
                            assert(!supplied0.contains_key(id) || missing_pre.dom().contains(id));
                            assert(!supplied0.contains_key(id));
                        }
                        if !aborted_transmissions.contains(&id) {
                            proof {
                                assert(!accounted(cached, supplied0, aborted_seq, header[i as int]));
                                assert(!all_accounted(header, cached, supplied0, aborted_seq));
                            }
                            return Err(CacheError::MissingTransmission);
                        }
                        proof {
                            assert(missing@ =~= missing_of(header.take(i + 1), cached, supplied0))
                                by {
                                lemma_take_push_to_set(header, i as int);
                            }
                        }
                    },
                }
            }
            i = i + 1;
        }
        proof {
            assert(header.take(n as int) =~= header);
        }
        Ok(missing)
    }

    /// Records that `certificate_id` references the given transmission ids
    /// and aborted transmission ids. A cached id gains the certificate in
    /// its reference set (idempotently); an uncached id whose payload the
    /// supplied mapping holds becomes a new cache entry; any other id is
    /// skipped silently, by design. Each aborted id gains the certificate in
    /// the aborted cache, entering it if absent.
    #[verifier::loop_isolation(false)]
    pub fn insert_transmissions(
        &mut self,
        certificate_id: CertificateId,
        transmission_ids: &TransmissionIdSet,
        aborted_transmission_ids: &TransmissionIdSet,
        missing_transmissions: TransmissionMap,
    )
        requires
            old(self).wf(),
        ensures
            final(self).wf(),
            final(self).transmissions_model() == insert_transmissions_spec(
                insert_state(old(self).transmissions_model(), missing_transmissions@),
                certificate_id,
                transmission_ids@,
            ).store,
            final(self).aborted_model() == insert_aborted_spec(
                old(self).aborted_model(),
                certificate_id,
                aborted_transmission_ids@,
            ),
    {
        let ghost st0 = insert_state(self.transmissions_model(), missing_transmissions@);
        let ghost ids_seq = transmission_ids@;
        let mut missing = missing_transmissions;
        let n = transmission_ids.len();
        let mut i: usize = 0;
        while i < n
            invariant
                i <= n,
                insert_state(self.transmissions_model(), missing@) == insert_transmissions_spec(
                    st0,
                    certificate_id,
                    ids_seq.take(i as int),
                ),
                self.transmissions_model().inv(),
                transmissions_referenced(self.transmissions_model()),
                self.aborted_transmission_ids == old(self).aborted_transmission_ids,
            decreases n - i,
        {
            let id = transmission_ids.index(i);
            let ghost pre = self.transmissions_model();
            let ghost miss_pre = missing@;
            proof {
                assert(ids_seq.take(i as int + 1).drop_last() =~= ids_seq.take(i as int));
                assert(ids_seq.take(i as int + 1).last() == id);
            }
            match transmission_store_pop(&mut self.transmissions, &id) {
                Some(entry) => {
                    let (payload, mut refs) = entry;
                    refs.insert(certificate_id);
                    let ghost v = (payload@, refs@);
                    proof {
                        lemma_pop_inv(pre, id);
                    }
                    transmission_store_push(&mut self.transmissions, id, (payload, refs));
                    proof {
                        assert(v == (pre.contents[id].0, pre.contents[id].1.insert(
                            certificate_id,
                        )));
                        lemma_pop_push(pre, id, v);
                        assert(self.transmissions_model() == pre.push(id, v));
                        lemma_insert_transmission_step_wf(
                            insert_state(pre, miss_pre),
                            certificate_id,
                            id,
                        );
                    }
                },
                None => {
                    match missing.remove(&id) {
                        Some(transmission) => {
                            let refs = CertificateIdSet::singleton(certificate_id);
                            let ghost v = (transmission@, refs@);
                            proof {
                                lemma_pop_inv(pre, id);
                                assert(self.transmissions_model() == pre);
                            }
                            transmission_store_push(
                                &mut self.transmissions,
                                id,
                                (transmission, refs),
                            );
                            proof {
                                assert(v == (miss_pre[id], Set::<
                                    CertificateId,
                                >::empty().insert(certificate_id)));
                                assert(self.transmissions_model() == pre.push(id, v));
                                lemma_insert_transmission_step_wf(
                                    insert_state(pre, miss_pre),
                                    certificate_id,
                                    id,
                                );
                            }
                        },
                        None => {
                            proof {
                                lemma_pop_inv(pre, id);
                                assert(self.transmissions_model() == pre);
                                assert(missing@ =~= miss_pre);
                                assert(insert_transmission_step(
                                    insert_state(pre, miss_pre),
                                    certificate_id,
                                    id,
                                ) == insert_state(pre, miss_pre));
                            }
                        },
                    }
                },
            }
            i = i + 1;
        }
        proof {
            assert(ids_seq.take(n as int) =~= ids_seq);
        }
        let ghost a0 = self.aborted_model();
        let ghost ab_seq = aborted_transmission_ids@;
        let ghost transmissions_done = self.transmissions;
        let na = aborted_transmission_ids.len();
        let mut j: usize = 0;
        while j < na
            invariant
                j <= na,
                self.transmissions == transmissions_done,
                self.aborted_model() == insert_aborted_spec(
                    a0,
                    certificate_id,
                    ab_seq.take(j as int),
                ),
                self.aborted_model().inv(),
                aborted_referenced(self.aborted_model()),
            decreases na - j,
        {
            let id = aborted_transmission_ids.index(j);
            let ghost pre = self.aborted_model();
            proof {
                assert(ab_seq.take(j as int + 1).drop_last() =~= ab_seq.take(j as int));
                assert(ab_seq.take(j as int + 1).last() == id);
            }
            match aborted_store_pop(&mut self.aborted_transmission_ids, &id) {
                Some(entry) => {
                    let mut refs = entry;
                    refs.insert(certificate_id);
                    let ghost v = refs@;
                    proof {
                        lemma_pop_inv(pre, id);
                    }
                    aborted_store_push(&mut self.aborted_transmission_ids, id, refs);
                    proof {
                        assert(v == pre.contents[id].insert(certificate_id));
                        lemma_pop_push(pre, id, v);
                        assert(self.aborted_model() == pre.push(id, v));
                        lemma_insert_aborted_step_wf(pre, certificate_id, id);
                    }
                },
                None => {
                    let refs = CertificateIdSet::singleton(certificate_id);
                    proof {
                        lemma_pop_inv(pre, id);
                        assert(self.aborted_model() == pre);
                    }
                    aborted_store_push(&mut self.aborted_transmission_ids, id, refs);
                    proof {
                        assert(refs@ == Set::<CertificateId>::empty().insert(certificate_id));
                        assert(self.aborted_model() == pre.push(id, refs@));
                        lemma_insert_aborted_step_wf(pre, certificate_id, id);
                    }
                },
            }
            j = j + 1;
        }
        proof {
            assert(ab_seq.take(na as int) =~= ab_seq);
        }
    }

    /// Withdraws `certificate_id` from the reference sets of the given
    /// transmission ids, in both sub-caches independently; an entry whose
    /// reference set becomes empty is deleted. Ids absent from a cache, and
    /// reference sets not holding the certificate, are passed over silently.
    #[verifier::loop_isolation(false)]
    pub fn remove_transmissions(
        &mut self,
        certificate_id: &CertificateId,
        transmission_ids: &TransmissionIdSet,
    )
        requires
            old(self).wf(),
        ensures
            final(self).wf(),
            final(self).transmissions_model() == remove_transmissions_spec(
                old(self).transmissions_model(),
                *certificate_id,
                transmission_ids@,
            ),
            final(self).aborted_model() == remove_aborted_spec(
                old(self).aborted_model(),
                *certificate_id,
                transmission_ids@,
            ),
    {
        let ghost t0 = self.transmissions_model();
        let ghost a0 = self.aborted_model();
        let ghost ids_seq = transmission_ids@;
        let n = transmission_ids.len();
        let mut i: usize = 0;
        while i < n
            invariant
                i <= n,
                self.transmissions_model() == remove_transmissions_spec(
                    t0,
                    *certificate_id,
                    ids_seq.take(i as int),
                ),
                self.aborted_model() == remove_aborted_spec(
                    a0,
                    *certificate_id,
                    ids_seq.take(i as int),
                ),
                self.transmissions_model().inv(),
                transmissions_referenced(self.transmissions_model()),
                self.aborted_model().inv(),
                aborted_referenced(self.aborted_model()),
            decreases n - i,
        {
            let id = transmission_ids.index(i);
            let ghost t_pre = self.transmissions_model();
            let ghost a_pre = self.aborted_model();
            proof {
                assert(ids_seq.take(i as int + 1).drop_last() =~= ids_seq.take(i as int));
                assert(ids_seq.take(i as int + 1).last() == id);
            }
            match transmission_store_pop(&mut self.transmissions, &id) {
                Some(entry) => {
                    let (payload, mut refs) = entry;
                    let _ = refs.swap_remove(certificate_id);
                    proof {
                        lemma_pop_inv(t_pre, id);
                        assert(refs@ == t_pre.contents[id].1.remove(*certificate_id));
                    }
                    if refs.is_empty() {
                        proof {
                            assert(self.transmissions_model() == remove_transmission_step(
                                t_pre,
                                *certificate_id,
                                id,
                            ));
                            lemma_remove_transmission_step_wf(t_pre, *certificate_id, id);
                        }
                    } else {
                        let ghost v = (payload@, refs@);
                        transmission_store_push(&mut self.transmissions, id, (payload, refs));
                        proof {
                            lemma_pop_push(t_pre, id, v);
                            assert(self.transmissions_model() == t_pre.push(id, v));
                            lemma_remove_transmission_step_wf(t_pre, *certificate_id, id);
                        }
                    }
                },
                None => {
                    proof {
                        lemma_pop_inv(t_pre, id);
                        assert(self.transmissions_model() == t_pre);
                    }
                },
            }
            match aborted_store_pop(&mut self.aborted_transmission_ids, &id) {
                Some(entry) => {
                    let mut refs = entry;
                    let _ = refs.swap_remove(certificate_id);
                    proof {
                        lemma_pop_inv(a_pre, id);
                        assert(refs@ == a_pre.contents[id].remove(*certificate_id));
                    }
                    if refs.is_empty() {
                        proof {
                            assert(self.aborted_model() == remove_aborted_step(
                                a_pre,
                                *certificate_id,
                                id,
                            ));
                            lemma_remove_aborted_step_wf(a_pre, *certificate_id, id);
                        }
                    } else {
                        let ghost v = refs@;
                        aborted_store_push(&mut self.aborted_transmission_ids, id, refs);
                        proof {
                            lemma_pop_push(a_pre, id, v);
                            assert(self.aborted_model() == a_pre.push(id, v));
                            lemma_remove_aborted_step_wf(a_pre, *certificate_id, id);
                        }
                    }
                },
                None => {
                    proof {
                        lemma_pop_inv(a_pre, id);
                        assert(self.aborted_model() == a_pre);
                    }
                },
            }
            i = i + 1;
        }
        proof {
            assert(ids_seq.take(n as int) =~= ids_seq);
        }
    }

    /// The resident entries of the transmission cache, most recently used
    /// first: each transmission id with its payload and reference set. A
    /// read-only view for verification harnesses, not part of the production
    /// contract.
    pub fn entries(&self) -> (r: Vec<(TransmissionId, TransmissionEntry)>)
        ensures
            r@.len() == self.transmissions_model().order.len(),
            forall|i: int|
                #![trigger r@[i]]
                0 <= i < r@.len() ==> r@[i].0 == self.transmissions_model().order[i]
                    && entry_view(r@[i].1) == self.transmissions_model().contents[
                    self.transmissions_model().order[i]],
    {
        transmission_store_entries(&self.transmissions)
    }
}

} // verus!
