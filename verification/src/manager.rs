//! The transaction manager: the cache together with the enclave and the
//! ledger that it asks.

use crate::cache::{counted, expired, insert_outcome, inserted, swept, TxCache};
use crate::combine::{combine, is_combination};
use crate::digest::{KeyImage, TxHash};
use crate::entry::{EnclaveMessage, EntryView, PeerSession, TxContext, TxOutMembershipProof,
    WellFormedEncryptedTx};
use crate::error::{EnclaveFailure, TxManagerError, TxManagerResult};
use crate::hash_set::TxHashSet;
use crate::ledger::{check_entry, verdict, LedgerState, LedgerView};
use crate::lookup::{all_cached, is_lookup, PeerRequest};
use vstd::prelude::*;

verus! {

/// The enclave, as far as the manager calls it. Nothing is assumed of what
/// it answers.
pub trait Enclave {
    /// Bundles the transactions of the request into one message, encrypted
    /// for the session of the peer and bound to the additional authenticated
    /// data.
    fn txs_for_peer(&self, request: &PeerRequest) -> Result<
        EnclaveMessage<PeerSession>,
        EnclaveFailure,
    >;
}

/// The ledger, as far as the manager calls it. Nothing is assumed of what it
/// answers.
pub trait Ledger {
    /// The ledger's state at this moment as far as it bears on the given
    /// inputs: its height, its root, and those of the inputs that have been
    /// spent (a ledger may list other spent inputs too). `None` if the
    /// ledger cannot answer.
    fn current_state(&self, inputs: &Vec<KeyImage>) -> Option<LedgerState>;
}

/// What the manager returns for an answer of the enclave: the message, or
/// the enclave's failure as an error of the manager.
pub open spec fn relayed(answer: Result<EnclaveMessage<PeerSession>, EnclaveFailure>) -> TxManagerResult<
    EnclaveMessage<PeerSession>,
> {
    match answer {
        Ok(message) => Ok(message),
        Err(failure) => Err(TxManagerError::EnclaveError(failure)),
    }
}

/// Turns an answer of the enclave into the manager's result.
pub fn relay(answer: Result<EnclaveMessage<PeerSession>, EnclaveFailure>) -> (result:
    TxManagerResult<EnclaveMessage<PeerSession>>)
    ensures
        result == relayed(answer),
{
    match answer {
        Ok(message) => Ok(message),
        Err(failure) => Err(TxManagerError::EnclaveError(failure)),
    }
}

/// What validation returns for an answer of the ledger: `NotFound` for a
/// digest that is not cached, whatever the ledger says; `LedgerUnavailable`
/// where the ledger did not answer; else the verdict on the transaction.
pub open spec fn judged(cache: Map<TxHash, EntryView>, tx_hash: TxHash, answer: Option<LedgerView>) -> TxManagerResult<
    (),
> {
    if !cache.contains_key(tx_hash) {
        Err(TxManagerError::NotFound)
    } else {
        match answer {
            Some(ledger) => verdict(cache[tx_hash].context, ledger),
            None => Err(TxManagerError::LedgerUnavailable),
        }
    }
}

/// The view of a ledger's answer.
pub open spec fn answer_view(answer: Option<LedgerState>) -> Option<LedgerView> {
    match answer {
        Some(ledger) => Some(ledger@),
        None => None,
    }
}

/// Judges the transaction cached under `tx_hash` by what the ledger
/// answered.
pub fn judge(cache: &TxCache, tx_hash: &TxHash, answer: &Option<LedgerState>) -> (result:
    TxManagerResult<()>)
    requires
        cache.wf(),
    ensures
        result == judged(cache@, *tx_hash, answer_view(*answer)),
{
    match cache.get(tx_hash) {
        None => Err(TxManagerError::NotFound),
        Some(entry) => match answer {
            Some(ledger) => check_entry(entry, ledger),
            None => Err(TxManagerError::LedgerUnavailable),
        },
    }
}

/// The operations on the cache of candidate transactions.
pub trait TxManager {
    /// The manager's internal invariant.
    spec fn wf(&self) -> bool;

    /// The cached transactions, by digest.
    spec fn cache(&self) -> Map<TxHash, EntryView>;

    /// Number of entries stored since the manager was made, up to
    /// `u64::MAX`.
    spec fn insertions(&self) -> u64;

    /// Inserts a transaction into the cache. The transaction must have been
    /// accepted by the enclave. A digest that is cached already is returned
    /// and nothing changes.
    fn insert(&mut self, tx_context: TxContext) -> (result: TxManagerResult<TxHash>)
        requires
            old(self).wf(),
        ensures
            final(self).wf(),
            final(self).cache() == inserted(
                old(self).cache(),
                old(self).insertions(),
                tx_context@,
            ),
            final(self).insertions() == counted(
                old(self).cache(),
                old(self).insertions(),
                tx_context@,
            ),
            result == insert_outcome(tx_context@),
    ;

    /// Removes the transactions whose tombstone height is `block_index` or
    /// lower and returns their digests.
    fn remove_expired(&mut self, block_index: u64) -> (removed: TxHashSet)
        requires
            old(self).wf(),
        ensures
            final(self).wf(),
            removed.wf(),
            removed@ == expired(old(self).cache(), block_index),
            final(self).cache() == swept(old(self).cache(), block_index),
            final(self).insertions() == old(self).insertions(),
    ;

    /// Whether the cache holds a transaction with this digest.
    fn contains(&self, tx_hash: &TxHash) -> (present: bool)
        requires
            self.wf(),
        ensures
            present == self.cache().contains_key(*tx_hash),
    ;

    /// Number of cached transactions.
    fn num_entries(&self) -> (count: usize)
        requires
            self.wf(),
        ensures
            count == self.cache().len(),
    ;

    /// Validates the transaction with the given digest against the ledger
    /// as it stands. A digest that is not cached gives `NotFound`; else the
    /// result is the one that the ledger's answer calls for.
    fn validate(&self, tx_hash: &TxHash) -> (result: TxManagerResult<()>)
        requires
            self.wf(),
        ensures
            exists|answer: Option<LedgerView>|
                result == #[trigger] judged(self.cache(), *tx_hash, answer),
    ;

    /// Combines the transactions with the given digests into a set without
    /// conflicts.
    fn combine(&self, tx_hashes: &[TxHash]) -> (result: TxManagerResult<Vec<TxHash>>)
        requires
            self.wf(),
        ensures
            result matches Ok(combined) && is_combination(self.cache(), tx_hashes@, combined@),
    ;

    /// The ciphertexts and membership proofs of the transactions with the
    /// given digests, in that order; `NotFound` if one of them is missing.
    fn tx_hashes_to_well_formed_encrypted_txs_and_proofs(&self, value: &[TxHash]) -> (result:
        TxManagerResult<Vec<(WellFormedEncryptedTx, Vec<TxOutMembershipProof>)>>)
        requires
            self.wf(),
        ensures
            is_lookup(self.cache(), value@, result),
    ;

    /// Makes a message that holds the transactions with the given digests,
    /// encrypted for a peer. If one of the digests is missing the enclave is
    /// not asked and the result is `NotFound`; else the result is the
    /// enclave's answer.
    fn encrypt_for_peer(&self, tx_hashes: &[TxHash], aad: &[u8], peer: &PeerSession) -> (result:
        TxManagerResult<EnclaveMessage<PeerSession>>)
        requires
            self.wf(),
        ensures
            !all_cached(self.cache(), tx_hashes@) ==> result == Err::<
                EnclaveMessage<PeerSession>,
                TxManagerError,
            >(TxManagerError::NotFound),
            all_cached(self.cache(), tx_hashes@) ==> exists|
                answer: Result<EnclaveMessage<PeerSession>, EnclaveFailure>,
            |
                result == #[trigger] relayed(answer),
    ;

    /// A copy of the ciphertext cached under the given digest.
    fn get_encrypted_tx(&self, tx_hash: &TxHash) -> (encrypted: Option<WellFormedEncryptedTx>)
        requires
            self.wf(),
        ensures
            match encrypted {
                Some(tx) => self.cache().contains_key(*tx_hash) && tx@
                    == self.cache()[*tx_hash].context.encrypted_tx,
                None => !self.cache().contains_key(*tx_hash),
            },
    ;
}

/// The manager that a node runs: a cache, and the enclave and the ledger
/// that were handed to it when it was made.
pub struct TxManagerImpl<E: Enclave, L: Ledger> {
    cache: TxCache,
    enclave: E,
    ledger: L,
}

impl<E: Enclave, L: Ledger> TxManagerImpl<E, L> {
    /// A manager with an empty cache.
    pub fn new(enclave: E, ledger: L) -> (manager: Self)
        ensures
            manager.wf(),
            manager.cache() == Map::<TxHash, EntryView>::empty(),
            manager.insertions() == 0,
    {
        TxManagerImpl { cache: TxCache::new(), enclave, ledger }
    }
}

impl<E: Enclave, L: Ledger> TxManager for TxManagerImpl<E, L> {
    closed spec fn wf(&self) -> bool {
        self.cache.wf()
    }

    closed spec fn cache(&self) -> Map<TxHash, EntryView> {
        self.cache@
    }

    closed spec fn insertions(&self) -> u64 {
        self.cache.insertions()
    }

    fn insert(&mut self, tx_context: TxContext) -> (result: TxManagerResult<TxHash>) {
        self.cache.insert(tx_context)
    }

    fn remove_expired(&mut self, block_index: u64) -> (removed: TxHashSet) {
        self.cache.remove_expired(block_index)
    }

    fn contains(&self, tx_hash: &TxHash) -> (present: bool) {
        self.cache.contains(tx_hash)
    }

    fn num_entries(&self) -> (count: usize) {
        self.cache.num_entries()
    }

    fn validate(&self, tx_hash: &TxHash) -> (result: TxManagerResult<()>) {
        match self.cache.get(tx_hash) {
            None => {
                assert(judged(self.cache(), *tx_hash, None) == Err::<(), TxManagerError>(
                    TxManagerError::NotFound,
                ));
                Err(TxManagerError::NotFound)
            },
            Some(entry) => {
                let answer = self.ledger.current_state(&entry.context.key_images);
                let result = judge(&self.cache, tx_hash, &answer);
                assert(result == judged(self.cache(), *tx_hash, answer_view(answer)));
                result
            },
        }
    }

    fn combine(&self, tx_hashes: &[TxHash]) -> (result: TxManagerResult<Vec<TxHash>>) {
        Ok(combine(&self.cache, tx_hashes))
    }

    fn tx_hashes_to_well_formed_encrypted_txs_and_proofs(&self, value: &[TxHash]) -> (result:
        TxManagerResult<Vec<(WellFormedEncryptedTx, Vec<TxOutMembershipProof>)>>) {
        self.cache.tx_hashes_to_well_formed_encrypted_txs_and_proofs(value)
    }

    fn encrypt_for_peer(&self, tx_hashes: &[TxHash], aad: &[u8], peer: &PeerSession) -> (result:
        TxManagerResult<EnclaveMessage<PeerSession>>) {
        match self.cache.peer_request(tx_hashes, aad, peer) {
            Err(error) => Err(error),
            Ok(request) => {
                let answer = self.enclave.txs_for_peer(&request);
                let result = relay(answer);
                assert(result == relayed(answer));
                result
            },
        }
    }

    fn get_encrypted_tx(&self, tx_hash: &TxHash) -> (encrypted: Option<WellFormedEncryptedTx>) {
        self.cache.get_encrypted_tx(tx_hash)
    }
}

} // verus!
