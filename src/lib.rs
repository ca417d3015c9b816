//! Age attestation by zero-knowledge proof: the protocol layer.
pub mod api;
pub mod codec;
pub mod dates;
pub mod field;
pub mod zk;
