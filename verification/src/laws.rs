//! What holds of the cache through any sequence of operations.

use crate::cache::{counted, expired, insert_outcome, inserted, swept};
use crate::combine::{candidates, conflict, is_chain, is_combination, is_retained,
    lemma_group_reflexive, lemma_group_symmetric, lemma_group_transitive, same_group};
use crate::digest::{hash_lt, lemma_hash_bytes, lemma_lex_asymmetric, lemma_lex_total,
    lemma_lex_transitive, TxHash};
use crate::entry::{ContextView, EntryView};
use crate::hash_set::lemma_ascending_unique;
use vstd::prelude::*;

verus! {

/// Inserting is idempotent. Of two consistent transactions with identical
/// ciphertext, offered one after the other, both get the same digest, and
/// the second offer leaves the cache, its number of entries and its count of
/// insertions as the first left them.
pub proof fn lemma_insert_idempotent(
    cache: Map<TxHash, EntryView>,
    count: u64,
    first: ContextView,
    second: ContextView,
)
    requires
        first.consistent(),
        second.consistent(),
        second.encrypted_tx == first.encrypted_tx,
    ensures
        insert_outcome(second) == insert_outcome(first),
        inserted(inserted(cache, count, first), counted(cache, count, first), second) == inserted(
            cache,
            count,
            first,
        ),
        inserted(inserted(cache, count, first), counted(cache, count, first), second).len()
            == inserted(cache, count, first).len(),
        counted(inserted(cache, count, first), counted(cache, count, first), second) == counted(
            cache,
            count,
            first,
        ),
{
}

/// Offering the very same context twice gives the same result twice, and
/// the second offer changes nothing, whether or not the context is
/// consistent.
pub proof fn lemma_insert_twice(cache: Map<TxHash, EntryView>, count: u64, context: ContextView)
    ensures
        inserted(inserted(cache, count, context), counted(cache, count, context), context)
            == inserted(cache, count, context),
        counted(inserted(cache, count, context), counted(cache, count, context), context)
            == counted(cache, count, context),
{
}

/// An operation that changes the cache.
pub enum CacheOp {
    /// An attempt to insert the given context.
    Insert(ContextView),
    /// A sweep at the given block height.
    RemoveExpired(u64),
}

/// The cache and its count of insertions.
pub struct CacheState {
    pub entries: Map<TxHash, EntryView>,
    pub insertions: u64,
}

/// The state after one operation.
pub open spec fn step(state: CacheState, op: CacheOp) -> CacheState {
    match op {
        CacheOp::Insert(context) => CacheState {
            entries: inserted(state.entries, state.insertions, context),
            insertions: counted(state.entries, state.insertions, context),
        },
        CacheOp::RemoveExpired(block_index) => CacheState {
            entries: swept(state.entries, block_index),
            insertions: state.insertions,
        },
    }
}

/// The state of a cache that was made empty and has gone through `ops`.
pub open spec fn run(ops: Seq<CacheOp>) -> CacheState
    decreases ops.len(),
{
    if ops.len() == 0 {
        CacheState { entries: Map::empty(), insertions: 0 }
    } else {
        step(run(ops.drop_last()), ops.last())
    }
}

/// Operation `i` inserts a transaction with digest `hash`.
pub open spec fn inserts(ops: Seq<CacheOp>, i: int, hash: TxHash) -> bool {
    &&& 0 <= i < ops.len()
    &&& ops[i] matches CacheOp::Insert(context)
    &&& context.consistent()
    &&& context.tx_hash() == hash
}

/// Operation `j` is a sweep that returns `hash`.
pub open spec fn sweeps_out(ops: Seq<CacheOp>, j: int, hash: TxHash) -> bool {
    &&& 0 <= j < ops.len()
    &&& ops[j] matches CacheOp::RemoveExpired(block_index)
    &&& expired(run(ops.take(j)).entries, block_index).contains(hash)
}

/// `hash` was inserted and no sweep has returned it since.
pub open spec fn live(ops: Seq<CacheOp>, hash: TxHash) -> bool {
    exists|i: int| #[trigger]
        inserts(ops, i, hash) && forall|j: int| i < j < ops.len() ==> !sweeps_out(ops, j, hash)
}

/// After any sequence of operations the cache contains a digest exactly when
/// the digest was inserted and no sweep has returned it since.
pub proof fn lemma_contains_iff_live(ops: Seq<CacheOp>, hash: TxHash)
    ensures
        run(ops).entries.contains_key(hash) <==> live(ops, hash),
    decreases ops.len(),
{
    if ops.len() == 0 {
        assert(!live(ops, hash));
    } else {
        let n = ops.len() - 1;
        let prev = ops.drop_last();
        lemma_contains_iff_live(prev, hash);
        assert(ops.take(n) =~= prev);
        assert forall|j: int| 0 <= j < n implies sweeps_out(ops, j, hash) == sweeps_out(prev, j, hash) by {
            assert(ops.take(j) =~= prev.take(j));
        }
        assert forall|i: int| 0 <= i < n implies inserts(ops, i, hash) == inserts(prev, i, hash) by {}
        let before = run(prev).entries;
        match ops.last() {
            CacheOp::Insert(context) => {
                assert(!sweeps_out(ops, n, hash));
                if run(ops).entries.contains_key(hash) {
                    if before.contains_key(hash) {
                        let i = choose|i: int| #[trigger]
                            inserts(prev, i, hash) && forall|j: int|
                                i < j < prev.len() ==> !sweeps_out(prev, j, hash);
                        assert(inserts(ops, i, hash));
                        assert forall|j: int| i < j < ops.len() implies !sweeps_out(ops, j, hash) by {
                            if j < n {
                                assert(!sweeps_out(prev, j, hash));
                            }
                        }
                    } else {
                        assert(inserts(ops, n, hash));
                    }
                }
                if live(ops, hash) {
                    let i = choose|i: int| #[trigger]
                        inserts(ops, i, hash) && forall|j: int|
                            i < j < ops.len() ==> !sweeps_out(ops, j, hash);
                    if i < n {
                        assert(inserts(prev, i, hash));
                        assert forall|j: int| i < j < prev.len() implies !sweeps_out(prev, j, hash) by {
                            assert(!sweeps_out(ops, j, hash));
                        }
                        assert(live(prev, hash));
                    }
                }
            },
            CacheOp::RemoveExpired(block_index) => {
                assert(sweeps_out(ops, n, hash) == expired(before, block_index).contains(hash));
                assert(!inserts(ops, n, hash));
                if run(ops).entries.contains_key(hash) {
                    let i = choose|i: int| #[trigger]
                        inserts(prev, i, hash) && forall|j: int|
                            i < j < prev.len() ==> !sweeps_out(prev, j, hash);
                    assert(inserts(ops, i, hash));
                    assert forall|j: int| i < j < ops.len() implies !sweeps_out(ops, j, hash) by {
                        if j < n {
                            assert(!sweeps_out(prev, j, hash));
                        }
                    }
                }
                if live(ops, hash) {
                    let i = choose|i: int| #[trigger]
                        inserts(ops, i, hash) && forall|j: int|
                            i < j < ops.len() ==> !sweeps_out(ops, j, hash);
                    assert(i < n);
                    assert(inserts(prev, i, hash));
                    assert forall|j: int| i < j < prev.len() implies !sweeps_out(prev, j, hash) by {
                        assert(!sweeps_out(ops, j, hash));
                    }
                    assert(live(prev, hash));
                    assert(!sweeps_out(ops, n, hash));
                }
            },
        }
    }
}

/// A sweep removes exactly the transactions whose tombstone height is at or
/// below the given height: those are gone, and every other entry is still
/// there, unchanged.
pub proof fn lemma_sweep_exact(cache: Map<TxHash, EntryView>, block_index: u64, hash: TxHash)
    ensures
        swept(cache, block_index).contains_key(hash) <==> (cache.contains_key(hash)
            && cache[hash].context.tombstone_block > block_index),
        swept(cache, block_index).contains_key(hash) ==> swept(cache, block_index)[hash]
            == cache[hash],
        expired(cache, block_index).contains(hash) <==> (cache.contains_key(hash)
            && !swept(cache, block_index).contains_key(hash)),
{
}

/// A second sweep at the same height, or at a lower one, returns nothing and
/// changes nothing.
pub proof fn lemma_sweep_again(cache: Map<TxHash, EntryView>, block_index: u64, again: u64)
    requires
        again <= block_index,
    ensures
        expired(swept(cache, block_index), again) == Set::<TxHash>::empty(),
        swept(swept(cache, block_index), again) == swept(cache, block_index),
{
    assert(expired(swept(cache, block_index), again) =~= Set::<TxHash>::empty());
    assert(swept(swept(cache, block_index), again) =~= swept(cache, block_index));
}

/// Sweeps are monotonic in the height: what a sweep at one height removes,
/// a sweep of the same cache at a greater height removes too, and what two
/// sweeps in a row have removed is what one sweep at the greater of their
/// heights removes.
pub proof fn lemma_sweep_monotonic(cache: Map<TxHash, EntryView>, block_index: u64, later: u64)
    requires
        block_index <= later,
    ensures
        expired(cache, block_index).subset_of(expired(cache, later)),
        expired(cache, block_index).union(expired(swept(cache, block_index), later)) == expired(
            cache,
            later,
        ),
        swept(swept(cache, block_index), later) == swept(cache, later),
{
    assert(expired(cache, block_index).union(expired(swept(cache, block_index), later)) =~= expired(
        cache,
        later,
    ));
    assert(swept(swept(cache, block_index), later) =~= swept(cache, later));
}

/// The combination does not depend on the order of the request: two requests
/// that hold the same digests, in any order, have the same combination.
pub proof fn lemma_combine_order_independent(
    cache: Map<TxHash, EntryView>,
    first: Seq<TxHash>,
    second: Seq<TxHash>,
    first_combined: Seq<TxHash>,
    second_combined: Seq<TxHash>,
)
    requires
        first.to_multiset() == second.to_multiset(),
        is_combination(cache, first, first_combined),
        is_combination(cache, second, second_combined),
    ensures
        first_combined == second_combined,
{
    first.to_multiset_ensures();
    second.to_multiset_ensures();
    assert forall|hash: TxHash| first.contains(hash) <==> second.contains(hash) by {
        assert(first.contains(hash) <==> first.to_multiset().count(hash) > 0);
        assert(second.contains(hash) <==> second.to_multiset().count(hash) > 0);
    }
    lemma_combine_deterministic(cache, first, second, first_combined, second_combined);
}

/// The combination is determined by the cache and the digests requested: a
/// request has one combination only, and asking for a digest more than once
/// does not change it.
pub proof fn lemma_combine_deterministic(
    cache: Map<TxHash, EntryView>,
    first: Seq<TxHash>,
    second: Seq<TxHash>,
    first_combined: Seq<TxHash>,
    second_combined: Seq<TxHash>,
)
    requires
        forall|hash: TxHash| first.contains(hash) <==> second.contains(hash),
        is_combination(cache, first, first_combined),
        is_combination(cache, second, second_combined),
    ensures
        first_combined == second_combined,
{
    assert(candidates(cache, first) =~= candidates(cache, second));
    lemma_ascending_unique(first_combined, second_combined);
}

/// The combination holds only digests that were requested and are cached.
pub proof fn lemma_combination_of_candidates(
    cache: Map<TxHash, EntryView>,
    requested: Seq<TxHash>,
    combined: Seq<TxHash>,
    hash: TxHash,
)
    requires
        is_combination(cache, requested, combined),
        combined.contains(hash),
    ensures
        requested.contains(hash),
        cache.contains_key(hash),
{
}

/// The combination is free of conflicts: no two of its transactions declare
/// a common input.
pub proof fn lemma_combination_conflict_free(
    cache: Map<TxHash, EntryView>,
    requested: Seq<TxHash>,
    combined: Seq<TxHash>,
    a: TxHash,
    b: TxHash,
)
    requires
        is_combination(cache, requested, combined),
        combined.contains(a),
        combined.contains(b),
        a != b,
    ensures
        !conflict(cache, a, b),
{
    let pool = candidates(cache, requested);
    if conflict(cache, a, b) {
        lemma_group_reflexive(cache, pool, b);
        crate::combine::lemma_group_extends(cache, pool, a, b, b);
        lemma_group_symmetric(cache, pool, a, b);
        lemma_hash_bytes(a, b);
        lemma_lex_total(a.0@, b.0@);
    }
}

/// The lowest digest among the first `upto` requested ones that are in the
/// group of `hash`, where `hash` itself is among the candidates.
proof fn lemma_lowest_of_group(
    cache: Map<TxHash, EntryView>,
    requested: Seq<TxHash>,
    hash: TxHash,
    upto: int,
) -> (lowest: TxHash)
    requires
        candidates(cache, requested).contains(hash),
        0 <= upto <= requested.len(),
    ensures
        same_group(cache, candidates(cache, requested), hash, lowest),
        forall|i: int|
            0 <= i < upto && same_group(
                cache,
                candidates(cache, requested),
                hash,
                #[trigger] requested[i],
            ) ==> !hash_lt(requested[i], lowest),
    decreases upto,
{
    let pool = candidates(cache, requested);
    if upto == 0 {
        lemma_group_reflexive(cache, pool, hash);
        hash
    } else {
        let before = lemma_lowest_of_group(cache, requested, hash, upto - 1);
        let next = requested[upto - 1];
        if same_group(cache, pool, hash, next) && hash_lt(next, before) {
            assert forall|i: int|
                0 <= i < upto && same_group(cache, pool, hash, #[trigger] requested[i]) implies !hash_lt(
                requested[i],
                next,
            ) by {
                if hash_lt(requested[i], next) {
                    lemma_lex_transitive(requested[i].0@, next.0@, before.0@);
                }
            }
            next
        } else {
            before
        }
    }
}

/// Of each conflict group among the candidates, exactly one transaction is
/// in the combination: every candidate has a digest of its group there, and
/// only one.
pub proof fn lemma_combination_one_per_group(
    cache: Map<TxHash, EntryView>,
    requested: Seq<TxHash>,
    combined: Seq<TxHash>,
    hash: TxHash,
) -> (kept: TxHash)
    requires
        is_combination(cache, requested, combined),
        requested.contains(hash),
        cache.contains_key(hash),
    ensures
        combined.contains(kept),
        same_group(cache, candidates(cache, requested), hash, kept),
        !hash_lt(hash, kept),
        forall|other: TxHash|
            combined.contains(other) && #[trigger] same_group(
                cache,
                candidates(cache, requested),
                hash,
                other,
            ) ==> other == kept,
{
    let pool = candidates(cache, requested);
    let kept = lemma_lowest_of_group(cache, requested, hash, requested.len() as int);
    assert forall|other: TxHash| #[trigger] same_group(cache, pool, kept, other) implies !hash_lt(
        other,
        kept,
    ) by {
        lemma_group_transitive(cache, pool, hash, kept, other);
        let path = choose|path: Seq<TxHash>|
            is_chain(cache, pool, path) && #[trigger] path.first() == kept && path.last() == other;
        assert(pool.contains(path[path.len() - 1]));
        let i = choose|i: int| 0 <= i < requested.len() && requested[i] == other;
        assert(!hash_lt(requested[i], kept));
    }
    let path = choose|path: Seq<TxHash>|
        is_chain(cache, pool, path) && #[trigger] path.first() == hash && path.last() == kept;
    assert(pool.contains(path[path.len() - 1]));
    assert(is_retained(cache, pool, kept));
    assert(!hash_lt(hash, kept)) by {
        let i = choose|i: int| 0 <= i < requested.len() && requested[i] == hash;
        lemma_group_reflexive(cache, pool, hash);
        assert(same_group(cache, pool, hash, requested[i]));
    }
    assert forall|other: TxHash|
        combined.contains(other) && #[trigger] same_group(cache, pool, hash, other) implies other
        == kept by {
        lemma_group_symmetric(cache, pool, hash, other);
        lemma_group_transitive(cache, pool, other, hash, kept);
        lemma_group_symmetric(cache, pool, other, kept);
        lemma_hash_bytes(other, kept);
        lemma_lex_total(other.0@, kept.0@);
        lemma_lex_asymmetric(other.0@, kept.0@);
    }
    kept
}

} // verus!
