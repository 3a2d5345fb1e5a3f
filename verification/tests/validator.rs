use tx_manager::cache::TxCache;
use tx_manager::digest::{KeyImage, TxHash};
use tx_manager::entry::{CacheEntry, TxContext, TxOutMembershipProof, WellFormedEncryptedTx};
use tx_manager::error::{TxManagerError, ValidationKind};
use tx_manager::ledger::{check_entry, LedgerState};

const ROOT: [u8; 32] = [9; 32];

fn transaction() -> TxContext {
    TxContext {
        encrypted_tx: WellFormedEncryptedTx(vec![1, 2, 3]),
        membership_proofs: vec![
            TxOutMembershipProof { index: 3, highest_index: 10, root: ROOT },
            TxOutMembershipProof { index: 10, highest_index: 10, root: ROOT },
        ],
        key_images: vec![KeyImage([11; 32]), KeyImage([12; 32])],
        tombstone_block: 100,
    }
}

fn ledger(block_height: u64, spent: &[u8]) -> LedgerState {
    LedgerState {
        block_height,
        spent_inputs: spent.iter().map(|input| KeyImage([*input; 32])).collect(),
        root: ROOT,
    }
}

fn failed(kind: ValidationKind) -> Result<(), TxManagerError> {
    Err(TxManagerError::ValidationFailed(kind))
}

fn entry(context: TxContext) -> CacheEntry {
    CacheEntry { context, inserted_at: 0 }
}

#[test]
fn validation_follows_the_ledger_and_leaves_the_cache_alone() {
    let mut cache = TxCache::new();
    let hash = cache.insert(transaction()).unwrap();
    assert_eq!(cache.validate(&hash, &ledger(50, &[])), Ok(()));
    assert_eq!(cache.validate(&hash, &ledger(50, &[40, 41])), Ok(()));
    // The ledger moves on and one of the declared inputs is spent.
    assert_eq!(cache.validate(&hash, &ledger(51, &[40, 12])), failed(ValidationKind::DoubleSpend));
    assert!(cache.contains(&hash));
    assert_eq!(cache.num_entries(), 1);
    assert_eq!(cache.get(&hash).unwrap().context, transaction());
}

#[test]
fn validation_of_a_digest_that_is_not_cached_fails() {
    let mut cache = TxCache::new();
    cache.insert(transaction()).unwrap();
    assert_eq!(cache.validate(&TxHash([2; 32]), &ledger(50, &[])), Err(TxManagerError::NotFound));
    assert_eq!(cache.validate(&TxHash::of(&[1, 2]), &ledger(50, &[])), Err(TxManagerError::NotFound));
}

#[test]
fn tombstone_height_must_be_ahead_of_the_ledger() {
    let entry = entry(transaction());
    assert_eq!(check_entry(&entry, &ledger(99, &[])), Ok(()));
    assert_eq!(check_entry(&entry, &ledger(100, &[])), failed(ValidationKind::ExpiredTombstone));
    assert_eq!(check_entry(&entry, &ledger(101, &[])), failed(ValidationKind::ExpiredTombstone));
    assert_eq!(check_entry(&entry, &ledger(u64::MAX, &[])), failed(ValidationKind::ExpiredTombstone));
}

#[test]
fn a_spent_input_is_a_double_spend() {
    let entry = entry(transaction());
    assert_eq!(check_entry(&entry, &ledger(0, &[11])), failed(ValidationKind::DoubleSpend));
    assert_eq!(check_entry(&entry, &ledger(0, &[1, 2, 12])), failed(ValidationKind::DoubleSpend));
    assert_eq!(check_entry(&entry, &ledger(0, &[1, 2, 13])), Ok(()));
}

#[test]
fn a_proof_past_its_highest_index_is_malformed() {
    let mut context = transaction();
    context.membership_proofs[1].index = 11;
    assert_eq!(check_entry(&entry(context), &ledger(0, &[])), failed(ValidationKind::MalformedProof));
}

#[test]
fn a_proof_to_another_root_is_stale() {
    let mut context = transaction();
    context.membership_proofs[1].root[31] = 0;
    assert_eq!(check_entry(&entry(context), &ledger(0, &[])), failed(ValidationKind::StaleProof));
    let mut moved = ledger(0, &[]);
    moved.root = [8; 32];
    assert_eq!(check_entry(&entry(transaction()), &moved), failed(ValidationKind::StaleProof));
}

#[test]
fn the_first_check_that_fails_names_the_error() {
    let mut context = transaction();
    context.membership_proofs[0].index = 11;
    context.membership_proofs[1].root = [0; 32];
    let bad = entry(context);
    assert_eq!(check_entry(&bad, &ledger(100, &[11])), failed(ValidationKind::ExpiredTombstone));
    assert_eq!(check_entry(&bad, &ledger(99, &[11])), failed(ValidationKind::DoubleSpend));
    assert_eq!(check_entry(&bad, &ledger(99, &[])), failed(ValidationKind::MalformedProof));
    let mut context = transaction();
    context.membership_proofs[1].root = [0; 32];
    assert_eq!(check_entry(&entry(context), &ledger(99, &[])), failed(ValidationKind::StaleProof));
}

#[test]
fn is_spent_looks_through_the_whole_spent_set() {
    let state = ledger(0, &[5, 6, 7]);
    assert!(state.is_spent(&KeyImage([5; 32])));
    assert!(state.is_spent(&KeyImage([7; 32])));
    assert!(!state.is_spent(&KeyImage([8; 32])));
    assert!(!ledger(0, &[]).is_spent(&KeyImage([5; 32])));
}
