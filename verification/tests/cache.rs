//! End-to-end tests of the cache service: the reference-counted lifecycle,
//! missing-transmission reconciliation, idempotent insertion, and the
//! least-recently-used eviction bound.

use bft_memory_cache::cert_set::CertificateIdSet;
use bft_memory_cache::id_set::TransmissionIdSet;
use bft_memory_cache::payload_map::TransmissionMap;
use bft_memory_cache::service::BFTCacheService;
use bft_memory_cache::types::{
    BatchHeader, CacheError, CertificateId, StorageMode, Transmission, TransmissionId,
};

fn tx(n: u64) -> TransmissionId {
    TransmissionId::Transaction { transaction_id: n, checksum: n.wrapping_mul(31) }
}

fn sol(n: u64) -> TransmissionId {
    TransmissionId::Solution { solution_id: n, checksum: n.wrapping_mul(17) }
}

fn payload(bytes: &[u8]) -> Transmission {
    Transmission::new(bytes.to_vec())
}

fn id_set(ids: &[TransmissionId]) -> TransmissionIdSet {
    let mut set = TransmissionIdSet::new();
    for id in ids {
        set.insert(*id);
    }
    set
}

fn supplied(entries: &[(TransmissionId, &[u8])]) -> TransmissionMap {
    let mut map = TransmissionMap::new();
    for (id, bytes) in entries {
        map.insert(*id, payload(bytes));
    }
    map
}

fn refs_of(cache: &BFTCacheService, id: TransmissionId) -> Option<CertificateIdSet> {
    cache
        .entries()
        .into_iter()
        .find(|(entry_id, _)| *entry_id == id)
        .map(|(_, (_, refs))| refs)
}

#[test]
fn reference_count_lifecycle() {
    // Insert T1 under C1, again under C2, then retire C1 and C2 in turn.
    let t1 = tx(1);
    let c1 = CertificateId(101);
    let c2 = CertificateId(102);
    let mut cache = BFTCacheService::new(10, 10);
    assert!(!cache.contains_transmission(t1));

    cache.insert_transmissions(c1, &id_set(&[t1]), &id_set(&[]), supplied(&[(t1, b"abc")]));
    assert!(cache.contains_transmission(t1));

    cache.insert_transmissions(c2, &id_set(&[t1]), &id_set(&[]), TransmissionMap::new());
    let refs = refs_of(&cache, t1).expect("t1 must be resident");
    assert_eq!(refs.len(), 2);
    assert!(refs.contains(&c1));
    assert!(refs.contains(&c2));

    cache.remove_transmissions(&c1, &id_set(&[t1]));
    assert!(cache.contains_transmission(t1));
    let refs = refs_of(&cache, t1).expect("t1 still resident under c2");
    assert_eq!(refs.len(), 1);
    assert!(refs.contains(&c2));

    cache.remove_transmissions(&c2, &id_set(&[t1]));
    assert!(!cache.contains_transmission(t1));
    assert!(cache.entries().is_empty());
}

#[test]
fn insert_is_idempotent() {
    let t1 = tx(1);
    let t2 = sol(2);
    let ab = tx(9);
    let c1 = CertificateId(7);
    let mut cache = BFTCacheService::new(10, 10);
    let ids = id_set(&[t1, t2]);
    let aborted = id_set(&[ab]);

    cache.insert_transmissions(c1, &ids, &aborted, supplied(&[(t1, b"one"), (t2, b"two")]));
    let first: Vec<(TransmissionId, usize)> = cache
        .entries()
        .into_iter()
        .map(|(id, (_, refs))| (id, refs.len()))
        .collect();

    cache.insert_transmissions(c1, &ids, &aborted, supplied(&[(t1, b"one"), (t2, b"two")]));
    let second: Vec<(TransmissionId, usize)> = cache
        .entries()
        .into_iter()
        .map(|(id, (_, refs))| (id, refs.len()))
        .collect();

    assert_eq!(first, second);
    assert!(cache.contains_transmission(ab));
}

#[test]
fn find_missing_returns_supplied_uncached_subset() {
    // T1 cached, T2 supplied: only T2 comes back.
    let t1 = tx(1);
    let t2 = tx(2);
    let c1 = CertificateId(1);
    let mut cache = BFTCacheService::new(10, 10);
    cache.insert_transmissions(c1, &id_set(&[t1]), &id_set(&[]), supplied(&[(t1, b"t1")]));

    let header = BatchHeader::new(id_set(&[t1, t2]));
    let result = cache
        .find_missing_transmissions(&header, supplied(&[(t2, b"t2")]), id_set(&[]))
        .expect("everything is accounted for");
    assert_eq!(result.len(), 1);
    assert!(!result.contains_key(&t1));
    let got = result.get(&t2).expect("t2 is missing");
    assert_eq!(got.as_bytes(), b"t2");
}

#[test]
fn find_missing_fails_on_unaccounted_id() {
    // T1 is neither cached, supplied, nor aborted.
    let t1 = tx(1);
    let t2 = tx(2);
    let cache = BFTCacheService::new(10, 10);
    let header = BatchHeader::new(id_set(&[t1, t2]));
    let err = cache
        .find_missing_transmissions(&header, supplied(&[(t2, b"t2")]), id_set(&[]))
        .expect_err("t1 is unaccounted for");
    assert_eq!(err, CacheError::MissingTransmission);
    assert_eq!(err.message(), "failed to provide a transmission");
}

#[test]
fn find_missing_accepts_aborted_explanation() {
    let t1 = tx(1);
    let cache = BFTCacheService::new(10, 10);
    let header = BatchHeader::new(id_set(&[t1]));
    let result = cache
        .find_missing_transmissions(&header, TransmissionMap::new(), id_set(&[t1]))
        .expect("an aborted id needs no payload");
    assert_eq!(result.len(), 0);
}

#[test]
fn find_missing_does_not_disturb_recency() {
    // A containment probe during reconciliation must not refresh entries:
    // t1 stays least recently used and is evicted first.
    let t1 = tx(1);
    let t2 = tx(2);
    let t3 = tx(3);
    let c = CertificateId(1);
    let mut cache = BFTCacheService::new(2, 2);
    cache.insert_transmissions(c, &id_set(&[t1]), &id_set(&[]), supplied(&[(t1, b"1")]));
    cache.insert_transmissions(c, &id_set(&[t2]), &id_set(&[]), supplied(&[(t2, b"2")]));

    let header = BatchHeader::new(id_set(&[t1]));
    let _ = cache.find_missing_transmissions(&header, TransmissionMap::new(), id_set(&[]));

    cache.insert_transmissions(c, &id_set(&[t3]), &id_set(&[]), supplied(&[(t3, b"3")]));
    assert!(!cache.contains_transmission(t1));
    assert!(cache.contains_transmission(t2));
    assert!(cache.contains_transmission(t3));
}

#[test]
fn eviction_keeps_most_recently_inserted() {
    let c = CertificateId(1);
    let mut cache = BFTCacheService::new(2, 2);
    for n in 1..=3u64 {
        let id = tx(n);
        cache.insert_transmissions(
            c,
            &id_set(&[id]),
            &id_set(&[]),
            supplied(&[(id, b"payload")]),
        );
    }
    let resident: Vec<TransmissionId> = cache.entries().into_iter().map(|(id, _)| id).collect();
    assert_eq!(resident, vec![tx(3), tx(2)]);
    assert!(!cache.contains_transmission(tx(1)));
}

#[test]
fn get_refreshes_recency() {
    let t1 = tx(1);
    let t2 = tx(2);
    let t3 = tx(3);
    let c = CertificateId(1);
    let mut cache = BFTCacheService::new(2, 2);
    cache.insert_transmissions(c, &id_set(&[t1]), &id_set(&[]), supplied(&[(t1, b"1")]));
    cache.insert_transmissions(c, &id_set(&[t2]), &id_set(&[]), supplied(&[(t2, b"2")]));

    // Touch t1: t2 becomes least recently used and is evicted by t3.
    let got = cache.get_transmission(t1).expect("t1 is cached");
    assert_eq!(got.as_bytes(), b"1");
    cache.insert_transmissions(c, &id_set(&[t3]), &id_set(&[]), supplied(&[(t3, b"3")]));
    assert!(cache.contains_transmission(t1));
    assert!(!cache.contains_transmission(t2));
    assert!(cache.contains_transmission(t3));
}

#[test]
fn get_transmission_returns_copy_and_handles_absence() {
    let t1 = sol(5);
    let c = CertificateId(3);
    let mut cache = BFTCacheService::new(4, 4);
    assert!(cache.get_transmission(t1).is_none());

    cache.insert_transmissions(c, &id_set(&[t1]), &id_set(&[]), supplied(&[(t1, b"bytes")]));
    let got = cache.get_transmission(t1).expect("t1 is cached");
    assert_eq!(got.as_bytes(), b"bytes");
    // An aborted id has no payload to return.
    let ab = tx(6);
    cache.insert_transmissions(c, &id_set(&[]), &id_set(&[ab]), TransmissionMap::new());
    assert!(cache.contains_transmission(ab));
    assert!(cache.get_transmission(ab).is_none());
}

#[test]
fn aborted_ids_are_reference_counted_separately() {
    let ab = sol(8);
    let c1 = CertificateId(1);
    let c2 = CertificateId(2);
    let mut cache = BFTCacheService::new(4, 4);
    cache.insert_transmissions(c1, &id_set(&[]), &id_set(&[ab]), TransmissionMap::new());
    cache.insert_transmissions(c2, &id_set(&[]), &id_set(&[ab]), TransmissionMap::new());
    assert!(cache.contains_transmission(ab));
    // No entry in the primary cache: only the aborted cache holds it.
    assert!(cache.entries().is_empty());

    cache.remove_transmissions(&c1, &id_set(&[ab]));
    assert!(cache.contains_transmission(ab));
    cache.remove_transmissions(&c2, &id_set(&[ab]));
    assert!(!cache.contains_transmission(ab));
}

#[test]
fn uncovered_ids_are_skipped_silently() {
    // An id that is neither cached, nor supplied, nor aborted is skipped
    // without error and without creating an entry.
    let t1 = tx(1);
    let t2 = tx(2);
    let c = CertificateId(1);
    let mut cache = BFTCacheService::new(4, 4);
    cache.insert_transmissions(c, &id_set(&[t1, t2]), &id_set(&[]), supplied(&[(t2, b"2")]));
    assert!(!cache.contains_transmission(t1));
    assert!(cache.contains_transmission(t2));
    // Removing an id that is nowhere resident is not an error either.
    cache.remove_transmissions(&c, &id_set(&[t1]));
    assert!(cache.contains_transmission(t2));
}

#[test]
fn open_applies_the_profile_capacities() {
    // The development profile bounds the transmission cache at 500 entries.
    let c = CertificateId(1);
    let mut cache = BFTCacheService::open(StorageMode::Development(0)).expect("open succeeds");
    for n in 0..501u64 {
        let id = tx(n);
        cache.insert_transmissions(c, &id_set(&[id]), &id_set(&[]), supplied(&[(id, b"x")]));
    }
    assert_eq!(cache.entries().len(), 500);
    assert!(!cache.contains_transmission(tx(0)));
    assert!(cache.contains_transmission(tx(500)));

    // The production and custom profiles bound it at 1000 and 2000.
    let mut cache = BFTCacheService::open(StorageMode::Production).expect("open succeeds");
    for n in 0..1001u64 {
        let id = tx(n);
        cache.insert_transmissions(c, &id_set(&[id]), &id_set(&[]), supplied(&[(id, b"x")]));
    }
    assert_eq!(cache.entries().len(), 1000);

    let mut cache = BFTCacheService::open(StorageMode::Custom).expect("open succeeds");
    for n in 0..2001u64 {
        let id = tx(n);
        cache.insert_transmissions(c, &id_set(&[id]), &id_set(&[]), supplied(&[(id, b"x")]));
    }
    assert_eq!(cache.entries().len(), 2000);
}

#[test]
fn aborted_cache_is_bounded_independently() {
    // Transmission capacity 4, aborted capacity 2: the third distinct
    // aborted id evicts the least recently inserted one, while the
    // transmission cache is untouched.
    let c = CertificateId(1);
    let mut cache = BFTCacheService::new(4, 2);
    let t = tx(100);
    cache.insert_transmissions(c, &id_set(&[t]), &id_set(&[]), supplied(&[(t, b"t")]));
    for n in 1..=3u64 {
        cache.insert_transmissions(c, &id_set(&[]), &id_set(&[sol(n)]), TransmissionMap::new());
    }
    assert!(!cache.contains_transmission(sol(1)));
    assert!(cache.contains_transmission(sol(2)));
    assert!(cache.contains_transmission(sol(3)));
    assert!(cache.contains_transmission(t));
}

#[test]
fn entries_are_most_recent_first() {
    let c = CertificateId(1);
    let mut cache = BFTCacheService::new(8, 8);
    for n in 1..=3u64 {
        let id = tx(n);
        cache.insert_transmissions(c, &id_set(&[id]), &id_set(&[]), supplied(&[(id, b"p")]));
    }
    let order: Vec<TransmissionId> = cache.entries().into_iter().map(|(id, _)| id).collect();
    assert_eq!(order, vec![tx(3), tx(2), tx(1)]);

    // A recency-refreshing read moves its entry to the front.
    let _ = cache.get_transmission(tx(1));
    let order: Vec<TransmissionId> = cache.entries().into_iter().map(|(id, _)| id).collect();
    assert_eq!(order, vec![tx(1), tx(3), tx(2)]);
}

#[test]
fn payload_map_binds_and_removes() {
    let t1 = tx(1);
    let t2 = tx(2);
    let mut map = TransmissionMap::new();
    assert_eq!(map.len(), 0);
    map.insert(t1, payload(b"a"));
    map.insert(t2, payload(b"b"));
    map.insert(t1, payload(b"a2"));
    assert_eq!(map.len(), 2);
    assert!(map.contains_key(&t1));
    assert_eq!(map.get(&t1).expect("bound").as_bytes(), b"a2");
    let removed = map.remove(&t1).expect("bound");
    assert_eq!(removed.as_bytes(), b"a2");
    assert!(!map.contains_key(&t1));
    assert!(map.remove(&t1).is_none());
    assert_eq!(map.len(), 1);
}

#[test]
fn id_set_and_payload_round_trip() {
    let ids = id_set(&[tx(1), sol(1), TransmissionId::Ratification]);
    assert_eq!(ids.len(), 3);
    assert!(ids.contains(&TransmissionId::Ratification));
    assert!(!ids.contains(&tx(2)));
    let mut again = ids.clone();
    again.insert(tx(1));
    assert_eq!(again.len(), 3);
    assert_eq!(again.index(0), tx(1));

    let t = payload(b"raw bytes");
    let copy = t.duplicate();
    assert_eq!(copy.as_bytes(), b"raw bytes");

    let header = BatchHeader::new(ids);
    assert_eq!(header.transmission_ids().len(), 3);
}
