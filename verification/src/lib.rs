//! Transactional core of an embedded key-value store: a registry of
//! in-flight transactions, a write-ahead log with a self-describing binary
//! encoding, and a phased checkpoint protocol that snapshots the store
//! without stopping writers.

pub mod checkpoint;
pub mod db;
pub mod log;
pub mod storage;
pub mod transaction;
pub mod types;

pub use types::{CheckpointPhase, Error, ErrorKind, Xid};
