use tx_manager::cache::TxCache;
use tx_manager::combine::{combine, share_input};
use tx_manager::digest::{KeyImage, TxHash};
use tx_manager::entry::{CacheEntry, TxContext, TxOutMembershipProof, WellFormedEncryptedTx};

/// Ciphertexts for tests, in the order of their digests: the digest of
/// `ciphertext(0)` is the lowest.
fn ciphertext(rank: u8) -> Vec<u8> {
    let mut all: Vec<Vec<u8>> = (0u8..100).map(|tag| vec![tag, 1, 2, 3]).collect();
    all.sort_by_key(|bytes| TxHash::of(bytes).0);
    all[rank as usize].clone()
}

fn spending(rank: u8, inputs: &[u8]) -> TxContext {
    TxContext {
        encrypted_tx: WellFormedEncryptedTx(ciphertext(rank)),
        membership_proofs: inputs
            .iter()
            .map(|_| TxOutMembershipProof { index: 0, highest_index: 0, root: [0; 32] })
            .collect(),
        key_images: inputs.iter().map(|input| KeyImage([*input; 32])).collect(),
        tombstone_block: 1000,
    }
}

fn cache_of(contexts: Vec<TxContext>) -> TxCache {
    let mut cache = TxCache::new();
    for context in contexts {
        cache.insert(context).unwrap();
    }
    cache
}

fn hashes(ranks: &[u8]) -> Vec<TxHash> {
    ranks.iter().map(|rank| TxHash::of(&ciphertext(*rank))).collect()
}

#[test]
fn of_two_transactions_that_spend_one_input_the_lower_digest_is_kept() {
    let cache = cache_of(vec![spending(20, &[1]), spending(10, &[1])]);
    assert_eq!(combine(&cache, &hashes(&[20, 10])), hashes(&[10]));
    assert_eq!(combine(&cache, &hashes(&[10, 20])), hashes(&[10]));
    assert_eq!(combine(&cache, &hashes(&[20, 10])), hashes(&[10]));
}

#[test]
fn a_transaction_alone_in_the_request_is_kept_even_if_a_cached_one_conflicts() {
    let cache = cache_of(vec![spending(20, &[1]), spending(10, &[1])]);
    assert_eq!(combine(&cache, &hashes(&[20])), hashes(&[20]));
}

#[test]
fn transactions_without_conflicts_come_out_in_ascending_order() {
    let cache = cache_of(vec![
        spending(30, &[3]),
        spending(10, &[1]),
        spending(40, &[4]),
        spending(20, &[2]),
    ]);
    assert_eq!(combine(&cache, &hashes(&[40, 10, 30, 20])), hashes(&[10, 20, 30, 40]));
}

#[test]
fn digests_that_are_not_cached_are_dropped() {
    let cache = cache_of(vec![spending(30, &[3]), spending(10, &[1])]);
    assert_eq!(combine(&cache, &hashes(&[99, 30, 5, 10, 77])), hashes(&[10, 30]));
    assert_eq!(combine(&cache, &hashes(&[99, 5])), hashes(&[]));
}

#[test]
fn a_digest_requested_twice_comes_out_once() {
    let cache = cache_of(vec![spending(30, &[3]), spending(10, &[1])]);
    assert_eq!(combine(&cache, &hashes(&[30, 10, 30, 30, 10])), hashes(&[10, 30]));
}

#[test]
fn an_empty_request_combines_to_nothing() {
    let cache = cache_of(vec![spending(30, &[3])]);
    assert_eq!(combine(&cache, &[]), hashes(&[]));
    assert_eq!(combine(&TxCache::new(), &hashes(&[1, 2])), hashes(&[]));
}

#[test]
fn a_chain_of_conflicts_is_one_group() {
    // 10 and 20 share input 1, 20 and 30 share input 2: one group, of which
    // the lowest digest is kept.
    let cache = cache_of(vec![spending(10, &[1]), spending(20, &[1, 2]), spending(30, &[2])]);
    assert_eq!(combine(&cache, &hashes(&[30, 20, 10])), hashes(&[10]));
    // Without the link in the middle the two ends do not conflict.
    assert_eq!(combine(&cache, &hashes(&[30, 10])), hashes(&[10, 30]));
}

#[test]
fn a_long_chain_that_is_linked_from_the_high_end_is_one_group() {
    // 50-40, 40-30, 30-20, 20-10: the lowest label has to travel the whole
    // chain.
    let cache = cache_of(vec![
        spending(50, &[4]),
        spending(40, &[4, 3]),
        spending(30, &[3, 2]),
        spending(20, &[2, 1]),
        spending(10, &[1]),
        spending(60, &[9]),
    ]);
    assert_eq!(combine(&cache, &hashes(&[10, 20, 30, 40, 50, 60])), hashes(&[10, 60]));
    assert_eq!(combine(&cache, &hashes(&[60, 50, 40, 30, 20])), hashes(&[20, 60]));
}

#[test]
fn two_groups_keep_one_transaction_each() {
    let cache = cache_of(vec![
        spending(11, &[1]),
        spending(12, &[1]),
        spending(13, &[1]),
        spending(21, &[2]),
        spending(22, &[2]),
    ]);
    assert_eq!(combine(&cache, &hashes(&[22, 13, 21, 12, 11])), hashes(&[11, 21]));
    assert_eq!(combine(&cache, &hashes(&[22, 13, 12])), hashes(&[12, 22]));
}

#[test]
fn the_combination_is_the_same_for_every_order_of_the_request() {
    let cache = cache_of(vec![
        spending(1, &[1, 2]),
        spending(2, &[2]),
        spending(3, &[3]),
        spending(4, &[4, 3]),
        spending(5, &[5]),
    ]);
    let expected = hashes(&[1, 3, 5]);
    let orders: [[u8; 5]; 6] = [
        [1, 2, 3, 4, 5],
        [5, 4, 3, 2, 1],
        [3, 1, 4, 5, 2],
        [2, 4, 1, 3, 5],
        [4, 5, 2, 1, 3],
        [5, 1, 4, 2, 3],
    ];
    for order in orders {
        assert_eq!(combine(&cache, &hashes(&order)), expected);
    }
}

#[test]
fn the_order_of_digests_goes_by_the_first_byte_that_differs() {
    let cache = cache_of(vec![spending(8, &[1]), spending(9, &[1])]);
    let low = hashes(&[8])[0];
    let high = hashes(&[9])[0];
    assert!(low.0 < high.0);
    assert!(low.is_below(&high));
    assert_eq!(combine(&cache, &[high, low]), vec![low]);
}

#[test]
fn combine_does_not_change_the_cache() {
    let cache = cache_of(vec![spending(20, &[1]), spending(10, &[1])]);
    let _ = combine(&cache, &hashes(&[20, 10]));
    assert_eq!(cache.num_entries(), 2);
    assert!(cache.contains(&hashes(&[20])[0]));
}

#[test]
fn share_input_finds_a_common_input() {
    let entry = |context: TxContext| CacheEntry { context, inserted_at: 0 };
    assert!(share_input(&entry(spending(1, &[1, 2, 3])), &entry(spending(2, &[9, 3]))));
    assert!(!share_input(&entry(spending(1, &[1, 2, 3])), &entry(spending(2, &[9, 8]))));
    assert!(!share_input(&entry(spending(1, &[])), &entry(spending(2, &[9, 8]))));
}
