//! The bounded least-recently-used stores behind the two sub-caches. The
//! stores themselves come from the `lru` crate; everything the rest of the
//! crate knows about them is stated here, as contracts over the abstract
//! [`LruModel`] of each store, and believed rather than proved. Each wrapper
//! names the `lru` function it relies on.

use vstd::prelude::*;
use std::collections::hash_map::RandomState;
use std::num::NonZeroUsize;
use lru::LruCache;
use crate::cert_set::CertificateIdSet;
use crate::model::LruModel;
use crate::types::{Transmission, TransmissionId};

verus! {

/// `lru::LruCache`, declared so that it can stand in fields and signatures.
/// Values of it are opaque; the stores are read only through the wrappers
/// below.
#[verifier::external_type_specification]
#[verifier::external_body]
#[verifier::reject_recursive_types(K)]
#[verifier::reject_recursive_types(V)]
#[verifier::reject_recursive_types(S)]
pub struct ExLruCache<K, V, S>(LruCache<K, V, S>);

/// A resident entry of the primary store: the payload and the set of
/// certificate ids referencing it.
pub type TransmissionEntry = (Transmission, CertificateIdSet);

/// The primary store: transmission id to payload and reference set.
pub type TransmissionStore = LruCache<TransmissionId, TransmissionEntry, RandomState>;

/// The aborted store: aborted transmission id to reference set.
pub type AbortedStore = LruCache<TransmissionId, CertificateIdSet, RandomState>;

/// What an entry of the primary store abstractly is: the payload bytes and
/// the set of referencing certificate ids.
pub open spec fn entry_view(e: TransmissionEntry) -> (Seq<u8>, Set<crate::types::CertificateId>) {
    (e.0@, e.1@)
}

/// The resident entries of a primary store, by key.
pub uninterp spec fn transmission_store_contents(c: TransmissionStore) -> Map<
    TransmissionId,
    (Seq<u8>, Set<crate::types::CertificateId>),
>;

/// The resident keys of a primary store, most recently used first.
pub uninterp spec fn transmission_store_order(c: TransmissionStore) -> Seq<TransmissionId>;

/// The capacity a primary store was created with.
pub uninterp spec fn transmission_store_cap(c: TransmissionStore) -> nat;

/// The resident entries of an aborted store, by key.
pub uninterp spec fn aborted_store_contents(c: AbortedStore) -> Map<
    TransmissionId,
    Set<crate::types::CertificateId>,
>;

/// The resident keys of an aborted store, most recently used first.
pub uninterp spec fn aborted_store_order(c: AbortedStore) -> Seq<TransmissionId>;

/// The capacity an aborted store was created with.
pub uninterp spec fn aborted_store_cap(c: AbortedStore) -> nat;

/// The abstract state of a primary store.
pub open spec fn transmission_store_model(c: TransmissionStore) -> LruModel<
    (Seq<u8>, Set<crate::types::CertificateId>),
> {
    LruModel {
        contents: transmission_store_contents(c),
        order: transmission_store_order(c),
        cap: transmission_store_cap(c),
    }
}

/// The abstract state of an aborted store.
pub open spec fn aborted_store_model(c: AbortedStore) -> LruModel<
    Set<crate::types::CertificateId>,
> {
    LruModel {
        contents: aborted_store_contents(c),
        order: aborted_store_order(c),
        cap: aborted_store_cap(c),
    }
}

/// Relies on `lru::LruCache::new`: a fresh cache holds nothing and evicts
/// once more than `cap` keys are resident.
#[verifier::external_body]
pub(crate) fn transmission_store_new(cap: usize) -> (c: TransmissionStore)
    requires
        1 <= cap,
    ensures
        transmission_store_contents(c).dom() == Seq::<TransmissionId>::empty().to_set(),
        transmission_store_order(c) == Seq::<TransmissionId>::empty(),
        transmission_store_cap(c) == cap as nat,
{
    LruCache::new(NonZeroUsize::new(cap).unwrap())
}

/// Relies on `lru::LruCache::contains`: reports residency of the key without
/// touching the recency order (it takes the cache by shared reference).
#[verifier::external_body]
pub(crate) fn transmission_store_contains(c: &TransmissionStore, id: &TransmissionId) -> (r: bool)
    ensures
        r == transmission_store_model(*c).resident(*id),
{
    c.contains(id)
}

/// Relies on `lru::LruCache::pop`: removes the key and returns its value, or
/// returns nothing if the key is absent, leaving the other entries' recency
/// order as it was.
#[verifier::external_body]
pub(crate) fn transmission_store_pop(c: &mut TransmissionStore, id: &TransmissionId) -> (r: Option<
    TransmissionEntry,
>)
    ensures
        transmission_store_model(*final(c)) == transmission_store_model(*old(c)).pop(*id),
        (r is Some) == transmission_store_model(*old(c)).resident(*id),
        r matches Some(e) ==> entry_view(e) == transmission_store_model(*old(c)).contents[*id],
{
    c.pop(id)
}

/// Relies on `lru::LruCache::push`: binds the key to the value as the most
/// recently used entry; if the key was absent and the cache full, the least
/// recently used entry is evicted.
#[verifier::external_body]
pub(crate) fn transmission_store_push(
    c: &mut TransmissionStore,
    id: TransmissionId,
    entry: TransmissionEntry,
)
    ensures
        transmission_store_model(*final(c)) == transmission_store_model(*old(c)).push(
            id,
            entry_view(entry),
        ),
{
    let _ = c.push(id, entry);
}

/// Relies on `lru::LruCache::iter`: visits the resident entries from most
/// recently used to least recently used, without touching the recency order.
#[verifier::external_body]
pub(crate) fn transmission_store_entries(c: &TransmissionStore) -> (r: Vec<
    (TransmissionId, TransmissionEntry),
>)
    ensures
        r@.len() == transmission_store_order(*c).len(),
        forall|i: int|
            #![trigger r@[i]]
            0 <= i < r@.len() ==> r@[i].0 == transmission_store_order(*c)[i]
                && entry_view(r@[i].1) == transmission_store_contents(*c)[transmission_store_order(
                *c,
            )[i]],
{
    c.iter().map(|(k, v)| (*k, v.clone())).collect()
}

/// Relies on `lru::LruCache::new`: a fresh cache holds nothing and evicts
/// once more than `cap` keys are resident.
#[verifier::external_body]
pub(crate) fn aborted_store_new(cap: usize) -> (c: AbortedStore)
    requires
        1 <= cap,
    ensures
        aborted_store_contents(c).dom() == Seq::<TransmissionId>::empty().to_set(),
        aborted_store_order(c) == Seq::<TransmissionId>::empty(),
        aborted_store_cap(c) == cap as nat,
{
    LruCache::new(NonZeroUsize::new(cap).unwrap())
}

/// Relies on `lru::LruCache::contains`: reports residency of the key without
/// touching the recency order (it takes the cache by shared reference).
#[verifier::external_body]
pub(crate) fn aborted_store_contains(c: &AbortedStore, id: &TransmissionId) -> (r: bool)
    ensures
        r == aborted_store_model(*c).resident(*id),
{
    c.contains(id)
}

/// Relies on `lru::LruCache::pop`: removes the key and returns its value, or
/// returns nothing if the key is absent, leaving the other entries' recency
/// order as it was.
#[verifier::external_body]
pub(crate) fn aborted_store_pop(c: &mut AbortedStore, id: &TransmissionId) -> (r: Option<
    CertificateIdSet,
>)
    ensures
        aborted_store_model(*final(c)) == aborted_store_model(*old(c)).pop(*id),
        (r is Some) == aborted_store_model(*old(c)).resident(*id),
        r matches Some(e) ==> e@ == aborted_store_model(*old(c)).contents[*id],
{
    c.pop(id)
}

/// Relies on `lru::LruCache::push`: binds the key to the value as the most
/// recently used entry; if the key was absent and the cache full, the least
/// recently used entry is evicted.
#[verifier::external_body]
pub(crate) fn aborted_store_push(c: &mut AbortedStore, id: TransmissionId, refs: CertificateIdSet)
    ensures
        aborted_store_model(*final(c)) == aborted_store_model(*old(c)).push(id, refs@),
{
    let _ = c.push(id, refs);
}

} // verus!
