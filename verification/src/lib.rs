//! A single-node, append-only ledger of transaction batches.
//!
//! Each batch is sealed into a block whose fingerprint (a SHA-256 digest of a
//! canonical serialization of its fields) must carry a configurable number of
//! leading zero hex characters, and which is linked to its predecessor by that
//! predecessor's fingerprint.  The ledger can be validated, written out as a
//! textual snapshot, and restored from one, with a proved round trip.

pub mod hex;
pub mod digest;
pub mod model;
pub mod codec;
pub mod block;
pub mod chain;
pub mod snapshot;

pub use model::{Transaction, Block, Blockchain};
pub use snapshot::SnapshotError;
