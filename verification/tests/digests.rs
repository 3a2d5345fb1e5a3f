use tx_manager::digest::{first_difference, KeyImage, TxHash};
use tx_manager::hash_set::{search, TxHashSet};

fn digest(head: u8, tail: u8) -> TxHash {
    let mut bytes = [head; 32];
    bytes[31] = tail;
    TxHash(bytes)
}

#[test]
fn first_difference_is_the_first_position_that_differs() {
    let a = [5u8; 32];
    let mut b = [5u8; 32];
    assert_eq!(first_difference(&a, &b), 32);
    b[31] = 6;
    assert_eq!(first_difference(&a, &b), 31);
    b[7] = 0;
    assert_eq!(first_difference(&a, &b), 7);
    b[0] = 255;
    assert_eq!(first_difference(&a, &b), 0);
}

#[test]
fn digests_are_ordered_from_the_first_byte() {
    assert!(digest(1, 9).is_below(&digest(2, 0)));
    assert!(!digest(2, 0).is_below(&digest(1, 9)));
    assert!(digest(1, 8).is_below(&digest(1, 9)));
    assert!(!digest(1, 9).is_below(&digest(1, 9)));
    assert!(TxHash([0; 32]).is_below(&TxHash([255; 32])));
    assert!(digest(1, 9).same(&digest(1, 9)));
    assert!(!digest(1, 9).same(&digest(1, 8)));
    assert_eq!(digest(3, 4).as_bytes()[31], 4);
}

#[test]
fn inputs_are_the_same_when_all_bytes_are() {
    assert!(KeyImage([4; 32]).same(&KeyImage([4; 32])));
    let mut other = [4u8; 32];
    other[16] = 5;
    assert!(!KeyImage([4; 32]).same(&KeyImage(other)));
}

#[test]
fn search_finds_the_position_or_the_place_to_insert() {
    let keys = vec![digest(1, 0), digest(3, 0), digest(5, 0), digest(7, 0)];
    assert_eq!(search(&keys, &digest(1, 0)), Ok(0));
    assert_eq!(search(&keys, &digest(5, 0)), Ok(2));
    assert_eq!(search(&keys, &digest(7, 0)), Ok(3));
    assert_eq!(search(&keys, &digest(0, 0)), Err(0));
    assert_eq!(search(&keys, &digest(4, 0)), Err(2));
    assert_eq!(search(&keys, &digest(5, 1)), Err(3));
    assert_eq!(search(&keys, &digest(9, 0)), Err(4));
    assert_eq!(search(&vec![], &digest(9, 0)), Err(0));
}

#[test]
fn a_set_of_digests_holds_each_member_once_in_ascending_order() {
    let mut set = TxHashSet::new();
    assert!(set.is_empty());
    assert!(set.insert(digest(5, 0)));
    assert!(set.insert(digest(1, 0)));
    assert!(!set.insert(digest(5, 0)));
    assert!(set.insert(digest(3, 0)));
    assert!(set.insert(digest(3, 1)));
    assert_eq!(set.len(), 4);
    assert!(!set.is_empty());
    assert!(set.contains(&digest(3, 1)));
    assert!(!set.contains(&digest(3, 2)));
    assert_eq!(set.get(0), digest(1, 0));
    assert_eq!(set.get(3), digest(5, 0));
    assert_eq!(set.into_vec(), vec![digest(1, 0), digest(3, 0), digest(3, 1), digest(5, 0)]);
}
