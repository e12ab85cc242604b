//! A bounded, reference-counted in-memory cache for the transmissions a
//! BFT consensus engine exchanges, and for the certificates that reference
//! them: entries live as long as a certificate references them, and each
//! sub-cache evicts its least recently used entry under capacity pressure.

pub mod types;
pub mod id_set;
pub mod cert_set;
pub mod seq_util;
pub mod model;
pub mod payload_map;
pub mod lru_store;
pub mod service;
pub mod laws;

pub use service::BFTCacheService;
pub use types::{BatchHeader, CacheError, CertificateId, StorageMode, Transmission, TransmissionId};
