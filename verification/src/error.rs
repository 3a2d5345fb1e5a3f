//! The errors that the transaction manager reports.

use vstd::prelude::*;

verus! {

/// Why a cached transaction does not fit the ledger as it stands.
#[derive(Clone, Copy, Debug, PartialEq, Eq)]
pub enum ValidationKind {
    /// A declared input has been spent.
    DoubleSpend,
    /// A membership proof was made against a root that is no longer current.
    StaleProof,
    /// The ledger has reached the transaction's tombstone height.
    ExpiredTombstone,
    /// A membership proof points past the outputs it was made over.
    MalformedProof,
}

/// A failure reported by the enclave, or on its behalf.
#[derive(Clone, Copy, Debug, PartialEq, Eq)]
pub enum EnclaveFailure {
    /// The transaction context lacks something that every accepted
    /// transaction has.
    MalformedTx,
    /// The peer session is unknown, expired or revoked.
    SessionRejected,
    /// Attestation of the peer failed.
    AttestationFailed,
}

/// Failure of an operation of the transaction manager.
#[derive(Clone, Copy, Debug, PartialEq, Eq)]
pub enum TxManagerError {
    /// A requested digest is not in the cache.
    NotFound,
    /// The enclave refused, or what it handed over is unusable.
    EnclaveError(EnclaveFailure),
    /// The transaction is cached but not valid against the ledger.
    ValidationFailed(ValidationKind),
    /// The ledger could not answer.
    LedgerUnavailable,
}

/// Result of an operation of the transaction manager.
pub type TxManagerResult<T> = Result<T, TxManagerError>;

} // verus!
