//! Data-availability layer: blobs are chunked and dispersed to storage
//! replicas, and a signing authority batches blob digests into Merkle trees
//! whose roots it signs, yielding confirmations that anyone can verify.

pub mod access;
pub mod backup;
pub mod chunk;
pub mod client;
pub mod commit;
pub mod digest;
pub mod ecdsa;
pub mod merkle;
pub mod replica;
pub mod signer;
pub mod store;
pub mod verify;
