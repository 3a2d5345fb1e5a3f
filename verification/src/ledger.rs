//! The validator: whether a cached transaction still fits the ledger.

use crate::cache::TxCache;
use crate::digest::{first_difference, KeyImage, TxHash};
use crate::entry::{CacheEntry, ContextView, TxOutMembershipProof};
use crate::error::{TxManagerError, TxManagerResult, ValidationKind};
use vstd::prelude::*;

verus! {

/// What the ledger says at one moment: the height of its chain, the inputs
/// that have been spent, and the root that membership proofs must lead to.
#[derive(Clone, Debug, PartialEq, Eq)]
pub struct LedgerState {
    pub block_height: u64,
    pub spent_inputs: Vec<KeyImage>,
    pub root: [u8; 32],
}

/// A ledger state as a mathematical value.
pub struct LedgerView {
    pub block_height: u64,
    pub spent_inputs: Set<KeyImage>,
    pub root: [u8; 32],
}

impl View for LedgerState {
    type V = LedgerView;

    open spec fn view(&self) -> LedgerView {
        LedgerView {
            block_height: self.block_height,
            spent_inputs: self.spent_inputs@.to_set(),
            root: self.root,
        }
    }
}

/// The proof points at an output among those it was made over.
pub open spec fn proof_well_formed(proof: TxOutMembershipProof) -> bool {
    proof.index <= proof.highest_index
}

/// The ledger has reached the transaction's tombstone height.
pub open spec fn tombstone_reached(context: ContextView, ledger: LedgerView) -> bool {
    context.tombstone_block <= ledger.block_height
}

/// One of the transaction's declared inputs has been spent.
pub open spec fn spends_spent_input(context: ContextView, ledger: LedgerView) -> bool {
    exists|i: int|
        0 <= i < context.key_images.len() && ledger.spent_inputs.contains(
            #[trigger] context.key_images[i],
        )
}

/// One of the transaction's membership proofs is not well formed.
pub open spec fn has_malformed_proof(context: ContextView) -> bool {
    exists|i: int|
        0 <= i < context.membership_proofs.len() && !proof_well_formed(
            #[trigger] context.membership_proofs[i],
        )
}

/// One of the transaction's membership proofs leads to another root than the
/// ledger's current one.
pub open spec fn has_stale_proof(context: ContextView, ledger: LedgerView) -> bool {
    exists|i: int|
        0 <= i < context.membership_proofs.len() && (
        #[trigger] context.membership_proofs[i]).root != ledger.root
}

/// The verdict on a transaction against a ledger state. The tombstone height
/// is judged first, then the declared inputs, then the shape of the proofs,
/// then their roots; the first of these to fail names the error.
pub open spec fn verdict(context: ContextView, ledger: LedgerView) -> Result<
    (),
    TxManagerError,
> {
    if tombstone_reached(context, ledger) {
        Err(TxManagerError::ValidationFailed(ValidationKind::ExpiredTombstone))
    } else if spends_spent_input(context, ledger) {
        Err(TxManagerError::ValidationFailed(ValidationKind::DoubleSpend))
    } else if has_malformed_proof(context) {
        Err(TxManagerError::ValidationFailed(ValidationKind::MalformedProof))
    } else if has_stale_proof(context, ledger) {
        Err(TxManagerError::ValidationFailed(ValidationKind::StaleProof))
    } else {
        Ok(())
    }
}

impl LedgerState {
    /// Whether `input` has been spent.
    pub fn is_spent(&self, input: &KeyImage) -> (spent: bool)
        ensures
            spent == self@.spent_inputs.contains(*input),
    {
        let mut i: usize = 0;
        while i < self.spent_inputs.len()
            invariant
                i <= self.spent_inputs@.len(),
                forall|k: int| 0 <= k < i ==> self.spent_inputs@[k] != *input,
            decreases self.spent_inputs@.len() - i,
        {
            if self.spent_inputs[i].same(input) {
                assert(self.spent_inputs@.contains(*input));
                return true;
            }
            i += 1;
        }
        false
    }
}

/// Judges a cached transaction against a ledger state.
pub fn check_entry(entry: &CacheEntry, ledger: &LedgerState) -> (result: TxManagerResult<()>)
    ensures
        result == verdict(entry@.context, ledger@),
{
    let context = &entry.context;
    if context.tombstone_block <= ledger.block_height {
        return Err(TxManagerError::ValidationFailed(ValidationKind::ExpiredTombstone));
    }
    let mut i: usize = 0;
    while i < context.key_images.len()
        invariant
            i <= context.key_images@.len(),
            context@ == entry@.context,
            !tombstone_reached(context@, ledger@),
            forall|k: int|
                0 <= k < i ==> !ledger@.spent_inputs.contains(#[trigger] context.key_images@[k]),
        decreases context.key_images@.len() - i,
    {
        if ledger.is_spent(&context.key_images[i]) {
            assert(ledger@.spent_inputs.contains(context@.key_images[i as int]));
            return Err(TxManagerError::ValidationFailed(ValidationKind::DoubleSpend));
        }
        i += 1;
    }
    let mut j: usize = 0;
    while j < context.membership_proofs.len()
        invariant
            j <= context.membership_proofs@.len(),
            context@ == entry@.context,
            !tombstone_reached(context@, ledger@),
            !spends_spent_input(context@, ledger@),
            forall|k: int|
                0 <= k < j ==> proof_well_formed(#[trigger] context.membership_proofs@[k]),
        decreases context.membership_proofs@.len() - j,
    {
        if context.membership_proofs[j].index > context.membership_proofs[j].highest_index {
            assert(!proof_well_formed(context@.membership_proofs[j as int]));
            return Err(TxManagerError::ValidationFailed(ValidationKind::MalformedProof));
        }
        j += 1;
    }
    let mut k: usize = 0;
    while k < context.membership_proofs.len()
        invariant
            k <= context.membership_proofs@.len(),
            context@ == entry@.context,
            !tombstone_reached(context@, ledger@),
            !spends_spent_input(context@, ledger@),
            !has_malformed_proof(context@),
            forall|m: int|
                0 <= m < k ==> (#[trigger] context.membership_proofs@[m]).root == ledger.root,
        decreases context.membership_proofs@.len() - k,
    {
        if first_difference(&context.membership_proofs[k].root, &ledger.root) != 32 {
            assert(context@.membership_proofs[k as int].root != ledger@.root);
            return Err(TxManagerError::ValidationFailed(ValidationKind::StaleProof));
        }
        k += 1;
    }
    Ok(())
}

impl TxCache {
    /// Judges the transaction cached under `tx_hash` against a ledger state.
    /// A digest that is not cached gives `NotFound`. The cache is not
    /// changed, whatever the verdict.
    pub fn validate(&self, tx_hash: &TxHash, ledger: &LedgerState) -> (result: TxManagerResult<()>)
        requires
            self.wf(),
        ensures
            result == validated(self@, *tx_hash, ledger@),
    {
        match self.get(tx_hash) {
            Some(entry) => check_entry(entry, ledger),
            None => Err(TxManagerError::NotFound),
        }
    }
}

/// The result of validating the digest `tx_hash` against `ledger`.
pub open spec fn validated(
    cache: Map<TxHash, crate::entry::EntryView>,
    tx_hash: TxHash,
    ledger: LedgerView,
) -> Result<(), TxManagerError> {
    if cache.contains_key(tx_hash) {
        verdict(cache[tx_hash].context, ledger)
    } else {
        Err(TxManagerError::NotFound)
    }
}

} // verus!
