//! Plain-value types of the cache: identifiers, payloads, batch headers,
//! operating profiles and the error type.

use vstd::prelude::*;
use crate::id_set::TransmissionIdSet;

verus! {

/// Identifier of a batch certificate: a quorum-signed attestation that a set
/// of transmissions (and known-aborted transmission ids) were proposed
/// together in one round by one author. Held here as an opaque 64-bit value.
#[derive(Clone, Copy, Debug, PartialEq, Eq, Hash, Structural)]
pub struct CertificateId(pub u64);

/// Content-derived identifier of a transmission: a tag telling ratifications,
/// solutions and transactions apart, plus the content id and checksum of the
/// payload, held as opaque 64-bit values.
#[derive(Clone, Copy, Debug, PartialEq, Eq, Hash, Structural)]
pub enum TransmissionId {
    Ratification,
    Solution { solution_id: u64, checksum: u64 },
    Transaction { transaction_id: u64, checksum: u64 },
}

/// A transmission payload: the serialized transaction or solution bytes.
/// Immutable once received; the cache owns it and clones it out on read.
#[derive(Clone, Debug)]
pub struct Transmission {
    data: Vec<u8>,
}

impl View for Transmission {
    type V = Seq<u8>;

    closed spec fn view(&self) -> Seq<u8> {
        self.data@
    }
}

impl Transmission {
    /// Wraps the given serialized bytes as a transmission payload.
    pub fn new(data: Vec<u8>) -> (r: Self)
        ensures
            r@ == data@,
    {
        Transmission { data }
    }

    /// Returns a copy of the payload, byte for byte.
    pub fn duplicate(&self) -> (r: Self)
        ensures
            r@ == self@,
    {
        let mut data: Vec<u8> = Vec::new();
        let mut i: usize = 0;
        while i < self.data.len()
            invariant
                i <= self.data.len(),
                data@ == self.data@.take(i as int),
            decreases self.data.len() - i,
        {
            data.push(self.data[i]);
            proof {
                assert(data@ =~= self.data@.take(i + 1 as int));
            }
            i = i + 1;
        }
        proof {
            assert(data@ =~= self.data@);
        }
        Transmission { data }
    }

    /// The payload bytes.
    pub fn as_bytes(&self) -> (r: &Vec<u8>)
        ensures
            r@ == self@,
    {
        &self.data
    }
}

/// An unsigned batch proposal, read here only for the set of transmission ids
/// it names. Ownership of the header belongs to the caller.
#[derive(Clone, Debug)]
pub struct BatchHeader {
    transmission_ids: TransmissionIdSet,
}

impl View for BatchHeader {
    type V = Seq<TransmissionId>;

    closed spec fn view(&self) -> Seq<TransmissionId> {
        self.transmission_ids@
    }
}

impl BatchHeader {
    /// Learns that no id occurs twice among the ids the header names: a
    /// consequence of the id set's invariant, restated here for callers.
    pub fn pairwise_distinct(&self)
        ensures
            self@.no_duplicates(),
    {
        self.transmission_ids.pairwise_distinct();
    }

    /// Builds a header naming the given set of transmission ids.
    pub fn new(transmission_ids: TransmissionIdSet) -> (r: Self)
        ensures
            r@ == transmission_ids@,
    {
        BatchHeader { transmission_ids }
    }

    /// The set of transmission ids the header names.
    pub fn transmission_ids(&self) -> (r: &TransmissionIdSet)
        ensures
            r@ == self@,
    {
        &self.transmission_ids
    }
}

/// A named operating profile; each profile fixes the capacities of the two
/// sub-caches.
#[derive(Clone, Copy, Debug, PartialEq, Eq, Structural)]
pub enum StorageMode {
    Production,
    Development(u16),
    Custom,
}

/// The one recoverable failure: a batch header names a transmission id that
/// is neither cached, nor supplied by the caller, nor explained as aborted.
#[derive(Clone, Copy, Debug, PartialEq, Eq, Structural)]
pub enum CacheError {
    MissingTransmission,
}

impl CacheError {
    /// A short description of the error.
    pub fn message(&self) -> (r: &'static str) {
        match self {
            CacheError::MissingTransmission => "failed to provide a transmission",
        }
    }
}

} // verus!
