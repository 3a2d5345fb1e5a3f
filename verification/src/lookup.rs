//! The bulk lookup: ciphertexts and proofs for a list of digests, all or
//! nothing.

use crate::cache::TxCache;
use crate::digest::TxHash;
use crate::entry::{copy_of, EntryView, PeerSession, TxOutMembershipProof, WellFormedEncryptedTx};
use crate::error::{TxManagerError, TxManagerResult};
use vstd::prelude::*;

verus! {

/// Every digest of the list is cached.
pub open spec fn all_cached(cache: Map<TxHash, EntryView>, hashes: Seq<TxHash>) -> bool {
    forall|i: int| 0 <= i < hashes.len() ==> cache.contains_key(#[trigger] hashes[i])
}

/// The ciphertext and the proofs of each requested transaction, in the order
/// of the request.
pub open spec fn payloads(cache: Map<TxHash, EntryView>, hashes: Seq<TxHash>) -> Seq<
    (Seq<u8>, Seq<TxOutMembershipProof>),
> {
    Seq::new(
        hashes.len(),
        |i: int|
            (cache[hashes[i]].context.encrypted_tx, cache[hashes[i]].context.membership_proofs),
    )
}

/// A list of ciphertexts and proofs as a mathematical value.
pub open spec fn payload_views(list: Seq<(WellFormedEncryptedTx, Vec<TxOutMembershipProof>)>) -> Seq<
    (Seq<u8>, Seq<TxOutMembershipProof>),
> {
    Seq::new(list.len(), |i: int| (list[i].0@, list[i].1@))
}

/// `result` is what a bulk lookup of `hashes` gives: where every digest is
/// cached, the payloads of all of them in the order of the request; where
/// one is missing, `NotFound` and nothing else.
pub open spec fn is_lookup(
    cache: Map<TxHash, EntryView>,
    hashes: Seq<TxHash>,
    result: TxManagerResult<Vec<(WellFormedEncryptedTx, Vec<TxOutMembershipProof>)>>,
) -> bool {
    match result {
        Ok(list) => all_cached(cache, hashes) && payload_views(list@) == payloads(cache, hashes),
        Err(error) => !all_cached(cache, hashes) && error == TxManagerError::NotFound,
    }
}

/// What the enclave is asked to encrypt for a peer: the ciphertexts and
/// proofs of the transactions, the additional authenticated data, and the
/// session of the peer.
#[derive(Clone, Debug, PartialEq, Eq)]
pub struct PeerRequest<'a> {
    pub txs: Vec<(WellFormedEncryptedTx, Vec<TxOutMembershipProof>)>,
    pub aad: &'a [u8],
    pub peer: &'a PeerSession,
}

/// `request` is the request to the enclave for the transactions `hashes`:
/// where every digest is cached, their payloads in the order of the request
/// together with `aad` and `peer` as they were given; where one is missing,
/// `NotFound`.
pub open spec fn is_peer_request(
    cache: Map<TxHash, EntryView>,
    hashes: Seq<TxHash>,
    aad: Seq<u8>,
    peer: Seq<u8>,
    request: TxManagerResult<PeerRequest>,
) -> bool {
    match request {
        Ok(asked) => {
            &&& all_cached(cache, hashes)
            &&& payload_views(asked.txs@) == payloads(cache, hashes)
            &&& asked.aad@ == aad
            &&& asked.peer@ == peer
        },
        Err(error) => !all_cached(cache, hashes) && error == TxManagerError::NotFound,
    }
}

impl TxCache {
    /// The request that goes to the enclave to have the transactions that
    /// `tx_hashes` names encrypted for `peer`. If one of the digests is not
    /// cached there is no request, and the result is `NotFound`.
    pub fn peer_request<'a>(&self, tx_hashes: &[TxHash], aad: &'a [u8], peer: &'a PeerSession) -> (request:
        TxManagerResult<PeerRequest<'a>>)
        requires
            self.wf(),
        ensures
            is_peer_request(self@, tx_hashes@, aad@, peer@, request),
    {
        match self.tx_hashes_to_well_formed_encrypted_txs_and_proofs(tx_hashes) {
            Ok(txs) => Ok(PeerRequest { txs, aad, peer }),
            Err(error) => Err(error),
        }
    }

    /// The ciphertext and the membership proofs of each transaction that
    /// `tx_hashes` names, in the order of the request. If one of the digests
    /// is not cached the whole call fails with `NotFound`.
    pub fn tx_hashes_to_well_formed_encrypted_txs_and_proofs(&self, tx_hashes: &[TxHash]) -> (result:
        TxManagerResult<Vec<(WellFormedEncryptedTx, Vec<TxOutMembershipProof>)>>)
        requires
            self.wf(),
        ensures
            is_lookup(self@, tx_hashes@, result),
    {
        let mut list: Vec<(WellFormedEncryptedTx, Vec<TxOutMembershipProof>)> = Vec::new();
        let mut i: usize = 0;
        while i < tx_hashes.len()
            invariant
                self.wf(),
                i <= tx_hashes@.len(),
                all_cached(self@, tx_hashes@.take(i as int)),
                payload_views(list@) == payloads(self@, tx_hashes@.take(i as int)),
            decreases tx_hashes@.len() - i,
        {
            match self.get(&tx_hashes[i]) {
                Some(entry) => {
                    let ghost before = list@;
                    list.push(
                        (
                            entry.context.encrypted_tx.duplicate(),
                            copy_of(&entry.context.membership_proofs),
                        ),
                    );
                    proof {
                        let shorter = tx_hashes@.take(i as int);
                        let longer = tx_hashes@.take(i + 1);
                        assert(payload_views(before).len() == i);
                        assert forall|k: int| 0 <= k < longer.len() implies self@.contains_key(
                            #[trigger] longer[k],
                        ) by {
                            if k < i {
                                assert(longer[k] == shorter[k]);
                            }
                        }
                        assert forall|k: int| 0 <= k < i + 1 implies payload_views(list@)[k]
                            == payloads(self@, longer)[k] by {
                            if k < i {
                                assert(payload_views(before)[k] == payloads(self@, shorter)[k]);
                                assert(list@[k] == before[k]);
                                assert(longer[k] == shorter[k]);
                            }
                        }
                        assert(payload_views(list@) =~= payloads(self@, longer));
                    }
                },
                None => {
                    return Err(TxManagerError::NotFound);
                },
            }
            i += 1;
        }
        proof {
            assert(tx_hashes@.take(tx_hashes@.len() as int) =~= tx_hashes@);
        }
        Ok(list)
    }
}

} // verus!
