//! Admission and dissemination of candidate transactions for a consensus
//! node, and the reconstruction of the history of attestation reports.
//!
//! The transaction manager caches the transactions that the enclave has
//! accepted, each under the digest of its ciphertext ([`cache`]). It judges
//! a cached transaction against the ledger as it stands ([`ledger`]), picks
//! from a set of candidates one transaction of each group that conflicts
//! bind together ([`combine`]), hands out ciphertexts and proofs all or
//! nothing ([`lookup`]), sweeps out what has expired, and has the enclave
//! encrypt cached transactions for a peer ([`manager`]). What holds of the
//! cache through any sequence of these operations is proved in [`laws`].
//!
//! The history of attestation reports is rebuilt block by block from the
//! signers of a node's blocks ([`history`], [`report`]); the node is named
//! after the address of its block archive ([`source_url`]).
//!
//! Every function is verified against the contract written on it. Believed
//! without proof is what two outside crates return: the SHA-256 hash of the
//! `sha2` crate in [`digest`], and the parts of an address that the `url`
//! crate tells in [`source_url`].

pub mod cache;
pub mod combine;
pub mod config;
pub mod digest;
pub mod entry;
pub mod error;
pub mod hash_set;
pub mod history;
pub mod laws;
pub mod ledger;
pub mod lookup;
pub mod manager;
pub mod report;
pub mod source_url;
