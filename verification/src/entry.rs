//! The values that pass between the enclave, the cache and its callers.

use crate::digest::{digest_of, KeyImage, TxHash};
use vstd::prelude::*;

verus! {

/// Ciphertext of a transaction that the enclave has accepted as well formed.
/// Only the enclave can read it.
#[derive(Clone, Debug, PartialEq, Eq)]
pub struct WellFormedEncryptedTx(pub Vec<u8>);

impl View for WellFormedEncryptedTx {
    type V = Seq<u8>;

    open spec fn view(&self) -> Seq<u8> {
        self.0@
    }
}

/// Proof that an output stands in the ledger: the output's index, the index
/// of the last output that the proof was made over, and the root that the
/// proof leads to.
#[derive(Clone, Copy, Debug, PartialEq, Eq)]
pub struct TxOutMembershipProof {
    pub index: u64,
    pub highest_index: u64,
    pub root: [u8; 32],
}

/// What the enclave hands over for a transaction that it accepted: the
/// ciphertext, one membership proof for each declared input, the declared
/// inputs, and the tombstone height, from which on the transaction can no
/// longer be committed.
#[derive(Clone, Debug, PartialEq, Eq)]
pub struct TxContext {
    pub encrypted_tx: WellFormedEncryptedTx,
    pub membership_proofs: Vec<TxOutMembershipProof>,
    pub key_images: Vec<KeyImage>,
    pub tombstone_block: u64,
}

/// A transaction context as a mathematical value.
pub struct ContextView {
    pub encrypted_tx: Seq<u8>,
    pub membership_proofs: Seq<TxOutMembershipProof>,
    pub key_images: Seq<KeyImage>,
    pub tombstone_block: u64,
}

impl ContextView {
    /// The digest of the transaction: that of its ciphertext.
    pub open spec fn tx_hash(self) -> TxHash {
        digest_of(self.encrypted_tx)
    }

    /// Nothing that every accepted transaction has is missing: there is
    /// ciphertext, at least one declared input, and one proof for each input.
    pub open spec fn consistent(self) -> bool {
        &&& self.encrypted_tx.len() > 0
        &&& self.key_images.len() > 0
        &&& self.membership_proofs.len() == self.key_images.len()
    }

    /// The transaction declares `input`.
    pub open spec fn declares(self, input: KeyImage) -> bool {
        self.key_images.contains(input)
    }
}

impl View for TxContext {
    type V = ContextView;

    open spec fn view(&self) -> ContextView {
        ContextView {
            encrypted_tx: self.encrypted_tx@,
            membership_proofs: self.membership_proofs@,
            key_images: self.key_images@,
            tombstone_block: self.tombstone_block,
        }
    }
}

/// A copy of `source`, element by element.
pub fn copy_of<T: Copy>(source: &Vec<T>) -> (copy: Vec<T>)
    ensures
        copy@ == source@,
{
    let mut copy: Vec<T> = Vec::new();
    let mut i: usize = 0;
    while i < source.len()
        invariant
            i <= source@.len(),
            copy@ == source@.take(i as int),
        decreases source@.len() - i,
    {
        copy.push(source[i]);
        assert(source@.take(i + 1) =~= source@.take(i as int).push(source@[i as int]));
        i += 1;
    }
    assert(source@.take(source@.len() as int) =~= source@);
    copy
}

impl WellFormedEncryptedTx {
    /// The digest of the ciphertext.
    pub fn tx_hash(&self) -> (hash: TxHash)
        ensures
            hash == digest_of(self@),
    {
        TxHash::of(self.0.as_slice())
    }

    /// A copy of the ciphertext.
    pub fn duplicate(&self) -> (copy: WellFormedEncryptedTx)
        ensures
            copy@ == self@,
    {
        WellFormedEncryptedTx(copy_of(&self.0))
    }
}

impl TxContext {
    /// The digest of the transaction: that of its ciphertext.
    pub fn tx_hash(&self) -> (hash: TxHash)
        ensures
            hash == self@.tx_hash(),
    {
        self.encrypted_tx.tx_hash()
    }

    /// Whether nothing that every accepted transaction has is missing.
    pub fn is_consistent(&self) -> (consistent: bool)
        ensures
            consistent == self@.consistent(),
    {
        self.encrypted_tx.0.len() > 0 && self.key_images.len() > 0 && self.membership_proofs.len()
            == self.key_images.len()
    }
}

/// A cached transaction: its context, and how many transactions the cache
/// had stored before it.
#[derive(Clone, Debug, PartialEq, Eq)]
pub struct CacheEntry {
    pub context: TxContext,
    pub inserted_at: u64,
}

/// A cached transaction as a mathematical value.
pub struct EntryView {
    pub context: ContextView,
    pub inserted_at: u64,
}

impl View for CacheEntry {
    type V = EntryView;

    open spec fn view(&self) -> EntryView {
        EntryView { context: self.context@, inserted_at: self.inserted_at }
    }
}

/// Token of an attested channel to one peer. The cache hands it to the
/// enclave and never looks inside.
#[derive(Clone, Debug, PartialEq, Eq)]
pub struct PeerSession(pub Vec<u8>);

impl View for PeerSession {
    type V = Seq<u8>;

    open spec fn view(&self) -> Seq<u8> {
        self.0@
    }
}

/// Authenticated ciphertext made by the enclave for the channel
/// `channel_id`, bound to the additional authenticated data `aad`.
#[derive(Clone, Debug, PartialEq, Eq)]
pub struct EnclaveMessage<S> {
    pub aad: Vec<u8>,
    pub channel_id: S,
    pub data: Vec<u8>,
}

} // verus!
