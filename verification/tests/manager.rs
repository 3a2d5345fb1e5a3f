use std::cell::RefCell;
use std::rc::Rc;
use tx_manager::digest::{KeyImage, TxHash};
use tx_manager::entry::{EnclaveMessage, PeerSession, TxContext, TxOutMembershipProof,
    WellFormedEncryptedTx};
use tx_manager::error::{EnclaveFailure, TxManagerError, ValidationKind};
use tx_manager::ledger::LedgerState;
use tx_manager::lookup::PeerRequest;
use tx_manager::manager::{judge, relay, Enclave, Ledger, TxManager, TxManagerImpl};
use tx_manager::cache::TxCache;

/// An enclave for tests. It knows two sessions. A message is the payload
/// with every byte shifted by the session's key, followed by a check byte
/// over the key and the additional data.
struct TestEnclave;

fn session_key(peer: &PeerSession) -> Option<u8> {
    match peer.0.as_slice() {
        [1] => Some(17),
        [2] => Some(91),
        _ => None,
    }
}

fn check_byte(key: u8, aad: &[u8]) -> u8 {
    aad.iter().fold(key, |sum, byte| sum.wrapping_mul(31).wrapping_add(*byte))
}

impl Enclave for TestEnclave {
    fn txs_for_peer(
        &self,
        request: &PeerRequest,
    ) -> Result<EnclaveMessage<PeerSession>, EnclaveFailure> {
        let key = session_key(request.peer).ok_or(EnclaveFailure::SessionRejected)?;
        let mut data = Vec::new();
        for (tx, _) in &request.txs {
            data.push(tx.0.len() as u8);
            data.extend(tx.0.iter().map(|byte| byte.wrapping_add(key)));
        }
        data.push(check_byte(key, request.aad));
        Ok(EnclaveMessage {
            aad: request.aad.to_vec(),
            channel_id: request.peer.clone(),
            data,
        })
    }
}

fn decrypt(message: &EnclaveMessage<PeerSession>, peer: &PeerSession) -> Option<Vec<Vec<u8>>> {
    let key = session_key(peer)?;
    let (check, body) = message.data.split_last()?;
    if *check != check_byte(key, &message.aad) || message.channel_id != *peer {
        return None;
    }
    let mut txs = Vec::new();
    let mut rest = body;
    while let Some((len, tail)) = rest.split_first() {
        let (tx, tail) = tail.split_at(*len as usize);
        txs.push(tx.iter().map(|byte| byte.wrapping_sub(key)).collect());
        rest = tail;
    }
    Some(txs)
}

/// A ledger for tests: a state that the test can change, or no answer.
#[derive(Clone)]
struct TestLedger(Rc<RefCell<Option<LedgerState>>>);

impl Ledger for TestLedger {
    fn current_state(&self, inputs: &Vec<KeyImage>) -> Option<LedgerState> {
        let state = self.0.borrow().clone()?;
        Some(LedgerState {
            block_height: state.block_height,
            spent_inputs: inputs
                .iter()
                .filter(|input| state.spent_inputs.contains(input))
                .copied()
                .collect(),
            root: state.root,
        })
    }
}

const ROOT: [u8; 32] = [9; 32];

fn digest(tag: u8) -> TxHash {
    TxHash::of(&[tag, 200, 201])
}

fn transaction(tag: u8, input: u8, tombstone_block: u64) -> TxContext {
    TxContext {
        encrypted_tx: WellFormedEncryptedTx(vec![tag, 200, 201]),
        membership_proofs: vec![TxOutMembershipProof { index: 3, highest_index: 10, root: ROOT }],
        key_images: vec![KeyImage([input; 32])],
        tombstone_block,
    }
}

fn state(block_height: u64, spent: &[u8]) -> LedgerState {
    LedgerState {
        block_height,
        spent_inputs: spent.iter().map(|input| KeyImage([*input; 32])).collect(),
        root: ROOT,
    }
}

fn manager_with(ledger: &TestLedger) -> TxManagerImpl<TestEnclave, TestLedger> {
    TxManagerImpl::new(TestEnclave, ledger.clone())
}

fn ledger_at(block_height: u64) -> TestLedger {
    TestLedger(Rc::new(RefCell::new(Some(state(block_height, &[])))))
}

#[test]
fn manager_inserts_once_and_counts_entries() {
    let mut manager = manager_with(&ledger_at(0));
    assert_eq!(manager.num_entries(), 0);
    assert_eq!(manager.insert(transaction(1, 1, 100)), Ok(digest(1)));
    assert_eq!(manager.insert(transaction(1, 1, 100)), Ok(digest(1)));
    assert_eq!(manager.insert(transaction(2, 2, 100)), Ok(digest(2)));
    assert_eq!(manager.num_entries(), 2);
    assert!(manager.contains(&digest(1)));
    assert!(!manager.contains(&digest(3)));
    assert_eq!(
        manager.get_encrypted_tx(&digest(2)),
        Some(WellFormedEncryptedTx(vec![2, 200, 201]))
    );
    assert_eq!(manager.get_encrypted_tx(&digest(3)), None);
}

#[test]
fn manager_refuses_an_inconsistent_context() {
    let mut manager = manager_with(&ledger_at(0));
    let mut bad = transaction(1, 1, 100);
    bad.membership_proofs.clear();
    assert_eq!(
        manager.insert(bad),
        Err(TxManagerError::EnclaveError(EnclaveFailure::MalformedTx))
    );
    assert_eq!(manager.num_entries(), 0);
}

#[test]
fn manager_sweeps_expired_transactions() {
    let mut manager = manager_with(&ledger_at(0));
    let hash = manager.insert(transaction(1, 1, 100)).unwrap();
    assert!(manager.remove_expired(50).is_empty());
    assert!(manager.contains(&hash));
    assert_eq!(manager.remove_expired(101).into_vec(), vec![hash]);
    assert!(!manager.contains(&hash));
    assert!(manager.remove_expired(101).is_empty());
}

#[test]
fn manager_combines_to_the_lower_digest() {
    let mut manager = manager_with(&ledger_at(0));
    let b = manager.insert(transaction(7, 1, 100)).unwrap();
    let c = manager.insert(transaction(5, 1, 100)).unwrap();
    let lower = if b.0 < c.0 { b } else { c };
    assert_eq!(manager.combine(&[b, c]), Ok(vec![lower]));
    assert_eq!(manager.combine(&[c, b]), Ok(vec![lower]));
    assert_eq!(manager.combine(&[c, b, digest(99)]), Ok(vec![lower]));
}

#[test]
fn manager_validates_against_the_ledger_of_the_moment() {
    let ledger = ledger_at(50);
    let mut manager = manager_with(&ledger);
    let hash = manager.insert(transaction(1, 33, 100)).unwrap();
    assert_eq!(manager.validate(&hash), Ok(()));
    *ledger.0.borrow_mut() = Some(state(51, &[33]));
    assert_eq!(
        manager.validate(&hash),
        Err(TxManagerError::ValidationFailed(ValidationKind::DoubleSpend))
    );
    assert!(manager.contains(&hash));
    assert_eq!(manager.num_entries(), 1);
    *ledger.0.borrow_mut() = Some(state(100, &[]));
    assert_eq!(
        manager.validate(&hash),
        Err(TxManagerError::ValidationFailed(ValidationKind::ExpiredTombstone))
    );
    assert!(manager.contains(&hash));
}

#[test]
fn manager_reports_a_ledger_that_does_not_answer() {
    let ledger = ledger_at(50);
    let mut manager = manager_with(&ledger);
    let hash = manager.insert(transaction(1, 33, 100)).unwrap();
    *ledger.0.borrow_mut() = None;
    assert_eq!(manager.validate(&hash), Err(TxManagerError::LedgerUnavailable));
    assert_eq!(manager.validate(&digest(2)), Err(TxManagerError::NotFound));
}

#[test]
fn manager_looks_up_all_or_nothing() {
    let mut manager = manager_with(&ledger_at(0));
    let hash = manager.insert(transaction(1, 1, 100)).unwrap();
    let membership = vec![TxOutMembershipProof { index: 3, highest_index: 10, root: ROOT }];
    assert_eq!(
        manager.tx_hashes_to_well_formed_encrypted_txs_and_proofs(&[hash]),
        Ok(vec![(WellFormedEncryptedTx(vec![1, 200, 201]), membership)])
    );
    assert_eq!(
        manager.tx_hashes_to_well_formed_encrypted_txs_and_proofs(&[hash, digest(2)]),
        Err(TxManagerError::NotFound)
    );
}

#[test]
fn messages_for_two_sessions_differ_and_open_only_in_their_own_session() {
    let mut manager = manager_with(&ledger_at(0));
    let hash = manager.insert(transaction(1, 1, 100)).unwrap();
    let first = PeerSession(vec![1]);
    let second = PeerSession(vec![2]);
    let to_first = manager.encrypt_for_peer(&[hash], b"aad", &first).unwrap();
    let to_second = manager.encrypt_for_peer(&[hash], b"aad", &second).unwrap();
    assert_ne!(to_first, to_second);
    assert_ne!(to_first.data, to_second.data);
    assert_eq!(to_first.channel_id, first);
    assert_eq!(to_second.channel_id, second);
    assert_eq!(to_first.aad, b"aad".to_vec());
    assert_eq!(decrypt(&to_first, &first), Some(vec![vec![1, 200, 201]]));
    assert_eq!(decrypt(&to_second, &second), Some(vec![vec![1, 200, 201]]));
    assert_eq!(decrypt(&to_first, &second), None);
    assert_eq!(decrypt(&to_second, &first), None);
    let mut replayed = to_first.clone();
    replayed.channel_id = second.clone();
    assert_eq!(decrypt(&replayed, &second), None);
    let mut other_context = to_first.clone();
    other_context.aad = b"other".to_vec();
    assert_eq!(decrypt(&other_context, &first), None);
}

#[test]
fn encryption_hands_the_enclave_the_transactions_in_the_order_of_the_request() {
    let mut manager = manager_with(&ledger_at(0));
    let a = manager.insert(transaction(1, 1, 100)).unwrap();
    let b = manager.insert(transaction(2, 2, 100)).unwrap();
    let peer = PeerSession(vec![1]);
    let message = manager.encrypt_for_peer(&[b, a, b], b"", &peer).unwrap();
    assert_eq!(
        decrypt(&message, &peer),
        Some(vec![vec![2, 200, 201], vec![1, 200, 201], vec![2, 200, 201]])
    );
}

#[test]
fn encryption_of_a_missing_digest_fails_before_the_enclave_is_asked() {
    let mut manager = manager_with(&ledger_at(0));
    let hash = manager.insert(transaction(1, 1, 100)).unwrap();
    let unknown_peer = PeerSession(vec![3]);
    assert_eq!(
        manager.encrypt_for_peer(&[hash, digest(2)], b"aad", &unknown_peer),
        Err(TxManagerError::NotFound)
    );
}

#[test]
fn encryption_relays_the_failure_of_the_enclave() {
    let mut manager = manager_with(&ledger_at(0));
    let hash = manager.insert(transaction(1, 1, 100)).unwrap();
    assert_eq!(
        manager.encrypt_for_peer(&[hash], b"aad", &PeerSession(vec![3])),
        Err(TxManagerError::EnclaveError(EnclaveFailure::SessionRejected))
    );
}

#[test]
fn the_request_to_the_enclave_holds_the_payloads_the_data_and_the_session() {
    let mut cache = TxCache::new();
    let a = cache.insert(transaction(1, 1, 100)).unwrap();
    let b = cache.insert(transaction(2, 2, 100)).unwrap();
    let peer = PeerSession(vec![1]);
    let request = cache.peer_request(&[b, a], b"aad", &peer).unwrap();
    let membership = vec![TxOutMembershipProof { index: 3, highest_index: 10, root: ROOT }];
    assert_eq!(
        request.txs,
        vec![
            (WellFormedEncryptedTx(vec![2, 200, 201]), membership.clone()),
            (WellFormedEncryptedTx(vec![1, 200, 201]), membership),
        ]
    );
    assert_eq!(request.aad, b"aad");
    assert_eq!(request.peer, &peer);
    assert_eq!(
        cache.peer_request(&[], b"", &peer),
        Ok(PeerRequest { txs: vec![], aad: b"", peer: &peer })
    );
}

#[test]
fn there_is_no_request_to_the_enclave_when_a_digest_is_missing() {
    let mut cache = TxCache::new();
    let a = cache.insert(transaction(1, 1, 100)).unwrap();
    let peer = PeerSession(vec![1]);
    assert_eq!(cache.peer_request(&[a, digest(2)], b"aad", &peer), Err(TxManagerError::NotFound));
    assert_eq!(cache.peer_request(&[digest(2)], b"aad", &peer), Err(TxManagerError::NotFound));
}

#[test]
fn relay_turns_each_answer_of_the_enclave_into_a_result() {
    let message = EnclaveMessage { aad: vec![1], channel_id: PeerSession(vec![2]), data: vec![3] };
    assert_eq!(relay(Ok(message.clone())), Ok(message));
    assert_eq!(
        relay(Err(EnclaveFailure::AttestationFailed)),
        Err(TxManagerError::EnclaveError(EnclaveFailure::AttestationFailed))
    );
    assert_eq!(
        relay(Err(EnclaveFailure::SessionRejected)),
        Err(TxManagerError::EnclaveError(EnclaveFailure::SessionRejected))
    );
}

#[test]
fn judge_asks_for_the_entry_before_the_ledger() {
    let mut cache = TxCache::new();
    let hash = cache.insert(transaction(1, 33, 100)).unwrap();
    assert_eq!(judge(&cache, &digest(2), &None), Err(TxManagerError::NotFound));
    assert_eq!(judge(&cache, &digest(2), &Some(state(0, &[]))), Err(TxManagerError::NotFound));
    assert_eq!(judge(&cache, &hash, &None), Err(TxManagerError::LedgerUnavailable));
    assert_eq!(judge(&cache, &hash, &Some(state(0, &[]))), Ok(()));
    assert_eq!(
        judge(&cache, &hash, &Some(state(0, &[33]))),
        Err(TxManagerError::ValidationFailed(ValidationKind::DoubleSpend))
    );
}
