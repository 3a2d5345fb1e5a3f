use tx_manager::cache::TxCache;
use tx_manager::digest::{KeyImage, TxHash};
use tx_manager::entry::{TxContext, TxOutMembershipProof, WellFormedEncryptedTx};
use tx_manager::error::TxManagerError;

fn membership(index: u64) -> TxOutMembershipProof {
    TxOutMembershipProof { index, highest_index: 100, root: [3; 32] }
}

fn stored(tag: u8) -> TxContext {
    TxContext {
        encrypted_tx: WellFormedEncryptedTx(vec![tag, tag, 0]),
        membership_proofs: vec![membership(tag as u64), membership(tag as u64 + 1)],
        key_images: vec![KeyImage([tag; 32]), KeyImage([tag + 100; 32])],
        tombstone_block: 10,
    }
}

fn digest(tag: u8) -> TxHash {
    TxHash::of(&[tag, tag, 0])
}

fn filled() -> TxCache {
    let mut cache = TxCache::new();
    for tag in [4u8, 2, 8, 6] {
        cache.insert(stored(tag)).unwrap();
    }
    cache
}

fn expected(tag: u8) -> (WellFormedEncryptedTx, Vec<TxOutMembershipProof>) {
    (WellFormedEncryptedTx(vec![tag, tag, 0]), vec![membership(tag as u64), membership(tag as u64 + 1)])
}

#[test]
fn lookup_returns_the_payloads_in_the_order_of_the_request() {
    let cache = filled();
    let request = [digest(8), digest(2), digest(6)];
    assert_eq!(
        cache.tx_hashes_to_well_formed_encrypted_txs_and_proofs(&request),
        Ok(vec![expected(8), expected(2), expected(6)])
    );
}

#[test]
fn lookup_answers_a_repeated_digest_each_time() {
    let cache = filled();
    let request = [digest(4), digest(4), digest(2), digest(4)];
    assert_eq!(
        cache.tx_hashes_to_well_formed_encrypted_txs_and_proofs(&request),
        Ok(vec![expected(4), expected(4), expected(2), expected(4)])
    );
}

#[test]
fn lookup_of_nothing_returns_nothing() {
    assert_eq!(filled().tx_hashes_to_well_formed_encrypted_txs_and_proofs(&[]), Ok(vec![]));
    assert_eq!(TxCache::new().tx_hashes_to_well_formed_encrypted_txs_and_proofs(&[]), Ok(vec![]));
}

#[test]
fn lookup_with_one_digest_missing_fails_as_a_whole() {
    let cache = filled();
    let request = [digest(4), digest(5)];
    assert_eq!(
        cache.tx_hashes_to_well_formed_encrypted_txs_and_proofs(&request),
        Err(TxManagerError::NotFound)
    );
    let request = [digest(5), digest(4)];
    assert_eq!(
        cache.tx_hashes_to_well_formed_encrypted_txs_and_proofs(&request),
        Err(TxManagerError::NotFound)
    );
}

#[test]
fn lookup_of_a_swept_digest_fails() {
    let mut cache = filled();
    cache.remove_expired(10);
    assert_eq!(
        cache.tx_hashes_to_well_formed_encrypted_txs_and_proofs(&[digest(4)]),
        Err(TxManagerError::NotFound)
    );
}
