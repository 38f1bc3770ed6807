//! Versioned, file-backed key-value storage with synchronization detection
//! and monoid-based merging, plus content fingerprints for byte streams.
pub mod id;
pub mod error;
pub mod sync;
pub mod value;
pub mod entries;
pub mod storage;
pub mod text;
pub mod envelope;
pub mod legacy;
pub mod document;
pub mod properties;
