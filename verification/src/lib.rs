//! Orchestration for recursively aggregated zero-knowledge proof batching:
//! resolving symbolic commitment-equality policies into concrete index
//! plans, sequencing continuation rounds, bounding in-memory caches of
//! setup material behind authoritative disk copies, building and auditing
//! the Merkle chain over round hashes, and persisting proof-group
//! descriptors. The cryptographic engine itself (circuit building, proof
//! creation and verification) stays outside, behind plain-value interfaces.

pub mod batch;
pub mod cache;
pub mod codec;
pub mod driver;
pub mod errors;
pub mod merkle;
pub mod proofinfo;
pub mod types;
