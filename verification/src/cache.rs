//! The cache store: enclave-accepted transactions by digest, and the sweep
//! that removes those whose tombstone height has been reached.

use crate::digest::TxHash;
use crate::entry::{CacheEntry, ContextView, EntryView, TxContext, WellFormedEncryptedTx};
use crate::error::{EnclaveFailure, TxManagerError, TxManagerResult};
use crate::hash_set::{ascending, is_slot, lemma_ascending_distinct, lemma_insert_at_slot, search,
    TxHashSet};
use vstd::prelude::*;

verus! {

/// The entry that is made for `context` when `count` transactions were
/// stored before it.
pub open spec fn new_entry(context: ContextView, count: u64) -> EntryView {
    EntryView { context, inserted_at: count }
}

/// The cache after an attempt to insert `context`: a consistent context is
/// stored under the digest of its ciphertext, unless that digest is cached
/// already; anything else changes nothing.
pub open spec fn inserted(cache: Map<TxHash, EntryView>, count: u64, context: ContextView) -> Map<
    TxHash,
    EntryView,
> {
    if context.consistent() && !cache.contains_key(context.tx_hash()) {
        cache.insert(context.tx_hash(), new_entry(context, count))
    } else {
        cache
    }
}

/// What an attempt to insert `context` returns: the digest of a consistent
/// context, whether or not it was cached before, and an enclave error for an
/// inconsistent one.
pub open spec fn insert_outcome(context: ContextView) -> TxManagerResult<TxHash> {
    if context.consistent() {
        Ok(context.tx_hash())
    } else {
        Err(TxManagerError::EnclaveError(EnclaveFailure::MalformedTx))
    }
}

/// The number of entries ever stored, after an attempt to insert `context`.
/// It stops at `u64::MAX`.
pub open spec fn counted(cache: Map<TxHash, EntryView>, count: u64, context: ContextView) -> u64 {
    if context.consistent() && !cache.contains_key(context.tx_hash()) && count < u64::MAX {
        (count + 1) as u64
    } else {
        count
    }
}

/// The digests of `cache` whose tombstone height is `block_index` or lower.
pub open spec fn expired(cache: Map<TxHash, EntryView>, block_index: u64) -> Set<TxHash> {
    Set::new(
        |hash: TxHash|
            cache.contains_key(hash) && cache[hash].context.tombstone_block <= block_index,
    )
}

/// The cache after a sweep at height `block_index`.
pub open spec fn swept(cache: Map<TxHash, EntryView>, block_index: u64) -> Map<TxHash, EntryView> {
    cache.remove_keys(expired(cache, block_index))
}

/// Position of `hash` in `keys`.
spec fn place_of(keys: Seq<TxHash>, hash: TxHash) -> int {
    choose|i: int| 0 <= i < keys.len() && keys[i] == hash
}

/// The map that the two parallel sequences stand for.
spec fn model(keys: Seq<TxHash>, entries: Seq<CacheEntry>) -> Map<TxHash, EntryView> {
    Map::new(|hash: TxHash| keys.contains(hash), |hash: TxHash| entries[place_of(keys, hash)]@)
}

proof fn lemma_model_at(keys: Seq<TxHash>, entries: Seq<CacheEntry>, i: int)
    requires
        ascending(keys),
        keys.len() == entries.len(),
        0 <= i < keys.len(),
    ensures
        model(keys, entries).contains_key(keys[i]),
        model(keys, entries)[keys[i]] == entries[i]@,
        place_of(keys, keys[i]) == i,
{
    lemma_ascending_distinct(keys);
    assert(keys.contains(keys[i]));
}

proof fn lemma_model_insert(
    keys: Seq<TxHash>,
    entries: Seq<CacheEntry>,
    hash: TxHash,
    entry: CacheEntry,
    pos: int,
)
    requires
        ascending(keys),
        keys.len() == entries.len(),
        is_slot(keys, hash, pos),
        !keys.contains(hash),
    ensures
        ascending(keys.insert(pos, hash)),
        model(keys.insert(pos, hash), entries.insert(pos, entry)) == model(keys, entries).insert(
            hash,
            entry@,
        ),
{
    let keys2 = keys.insert(pos, hash);
    let entries2 = entries.insert(pos, entry);
    lemma_insert_at_slot(keys, hash, pos);
    let before = model(keys, entries).insert(hash, entry@);
    let after = model(keys2, entries2);
    assert forall|h: TxHash| after.contains_key(h) implies #[trigger] after[h] == before[h] by {
        let i = place_of(keys2, h);
        lemma_model_at(keys2, entries2, i);
        if i < pos {
            lemma_model_at(keys, entries, i);
        } else if i > pos {
            lemma_model_at(keys, entries, i - 1);
        }
    }
    assert(after =~= before);
}

/// The cache of candidate transactions. It maps the digest of each cached
/// transaction to its entry, and counts the entries it has ever stored.
pub struct TxCache {
    keys: Vec<TxHash>,
    entries: Vec<CacheEntry>,
    insertions: u64,
}

impl View for TxCache {
    type V = Map<TxHash, EntryView>;

    closed spec fn view(&self) -> Map<TxHash, EntryView> {
        model(self.keys@, self.entries@)
    }
}

impl TxCache {
    /// The digests are held in ascending order, each beside the entry that it
    /// is the digest of, and every entry is consistent.
    pub closed spec fn wf(&self) -> bool {
        &&& ascending(self.keys@)
        &&& self.keys@.len() == self.entries@.len()
        &&& forall|i: int|
            0 <= i < self.entries@.len() ==> (#[trigger] self.entries@[i])@.context.tx_hash()
                == self.keys@[i]
        &&& forall|i: int|
            0 <= i < self.entries@.len() ==> (#[trigger] self.entries@[i])@.context.consistent()
    }

    /// Number of entries stored since the cache was made, up to `u64::MAX`.
    pub closed spec fn insertions(&self) -> u64 {
        self.insertions
    }

    /// What holds of every cache: it is finite, each entry stands under the
    /// digest of its ciphertext, and each entry is consistent.
    pub proof fn lemma_entries(&self)
        requires
            self.wf(),
        ensures
            self@.dom().finite(),
            forall|hash: TxHash| #[trigger]
                self@.contains_key(hash) ==> self@[hash].context.tx_hash() == hash
                    && self@[hash].context.consistent(),
    {
        assert(self@.dom() =~= self.keys@.to_set());
        vstd::seq_lib::seq_to_set_is_finite(self.keys@);
        assert forall|hash: TxHash| #[trigger] self@.contains_key(hash) implies self@[hash].context.tx_hash()
            == hash && self@[hash].context.consistent() by {
            let i = place_of(self.keys@, hash);
            lemma_model_at(self.keys@, self.entries@, i);
        }
    }

    /// An empty cache.
    pub fn new() -> (cache: TxCache)
        ensures
            cache.wf(),
            cache@ == Map::<TxHash, EntryView>::empty(),
            cache.insertions() == 0,
    {
        let cache = TxCache { keys: Vec::new(), entries: Vec::new(), insertions: 0 };
        assert(cache@ =~= Map::<TxHash, EntryView>::empty());
        cache
    }

    /// Admits a transaction that the enclave accepted. A consistent context
    /// is stored under the digest of its ciphertext unless that digest is
    /// cached already, and the digest is returned either way. An
    /// inconsistent context is refused and changes nothing.
    pub fn insert(&mut self, tx_context: TxContext) -> (result: TxManagerResult<TxHash>)
        requires
            old(self).wf(),
        ensures
            final(self).wf(),
            final(self)@ == inserted(old(self)@, old(self).insertions(), tx_context@),
            result == insert_outcome(tx_context@),
            final(self).insertions() == counted(
                old(self)@,
                old(self).insertions(),
                tx_context@,
            ),
    {
        if !tx_context.is_consistent() {
            return Err(TxManagerError::EnclaveError(EnclaveFailure::MalformedTx));
        }
        let tx_hash = tx_context.tx_hash();
        self.insert_hashed(tx_hash, tx_context)
    }

    /// As `insert`, for a caller that has computed the digest: `tx_hash` is
    /// the digest of the context's ciphertext.
    pub fn insert_hashed(&mut self, tx_hash: TxHash, tx_context: TxContext) -> (result:
        TxManagerResult<TxHash>)
        requires
            old(self).wf(),
            tx_hash == tx_context@.tx_hash(),
        ensures
            final(self).wf(),
            final(self)@ == inserted(old(self)@, old(self).insertions(), tx_context@),
            result == insert_outcome(tx_context@),
            final(self).insertions() == counted(
                old(self)@,
                old(self).insertions(),
                tx_context@,
            ),
    {
        if !tx_context.is_consistent() {
            return Err(TxManagerError::EnclaveError(EnclaveFailure::MalformedTx));
        }
        match search(&self.keys, &tx_hash) {
            Ok(_) => Ok(tx_hash),
            Err(pos) => {
                let entry = CacheEntry { context: tx_context, inserted_at: self.insertions };
                proof {
                    lemma_model_insert(self.keys@, self.entries@, tx_hash, entry, pos as int);
                }
                self.keys.insert(pos, tx_hash);
                self.entries.insert(pos, entry);
                if self.insertions < u64::MAX {
                    self.insertions += 1;
                }
                Ok(tx_hash)
            },
        }
    }

    /// Whether a transaction with this digest is cached.
    pub fn contains(&self, tx_hash: &TxHash) -> (present: bool)
        requires
            self.wf(),
        ensures
            present == self@.contains_key(*tx_hash),
    {
        search(&self.keys, tx_hash).is_ok()
    }

    /// Number of cached transactions.
    pub fn num_entries(&self) -> (count: usize)
        requires
            self.wf(),
        ensures
            count == self@.len(),
            count == self@.dom().len(),
    {
        proof {
            assert(self@.dom() =~= self.keys@.to_set());
            lemma_ascending_distinct(self.keys@);
            self.keys@.unique_seq_to_set();
        }
        self.keys.len()
    }

    /// The entry cached under `tx_hash`, if there is one.
    pub fn get(&self, tx_hash: &TxHash) -> (entry: Option<&CacheEntry>)
        requires
            self.wf(),
        ensures
            match entry {
                Some(e) => self@.contains_key(*tx_hash) && e@ == self@[*tx_hash],
                None => !self@.contains_key(*tx_hash),
            },
    {
        match search(&self.keys, tx_hash) {
            Ok(pos) => {
                proof {
                    lemma_model_at(self.keys@, self.entries@, pos as int);
                }
                Some(&self.entries[pos])
            },
            Err(_) => None,
        }
    }

    /// A copy of the ciphertext cached under `tx_hash`, if there is one.
    pub fn get_encrypted_tx(&self, tx_hash: &TxHash) -> (encrypted: Option<WellFormedEncryptedTx>)
        requires
            self.wf(),
        ensures
            match encrypted {
                Some(tx) => self@.contains_key(*tx_hash) && tx@
                    == self@[*tx_hash].context.encrypted_tx,
                None => !self@.contains_key(*tx_hash),
            },
    {
        match self.get(tx_hash) {
            Some(entry) => Some(entry.context.encrypted_tx.duplicate()),
            None => None,
        }
    }

    /// Removes every transaction whose tombstone height is `block_index` or
    /// lower, and returns the digests of those it removed.
    pub fn remove_expired(&mut self, block_index: u64) -> (removed: TxHashSet)
        requires
            old(self).wf(),
        ensures
            final(self).wf(),
            removed.wf(),
            removed@ == expired(old(self)@, block_index),
            final(self)@ == swept(old(self)@, block_index),
            final(self).insertions() == old(self).insertions(),
    {
        let mut keys: Vec<TxHash> = Vec::new();
        let mut entries: Vec<CacheEntry> = Vec::new();
        std::mem::swap(&mut self.keys, &mut keys);
        std::mem::swap(&mut self.entries, &mut entries);
        let ghost all = entries@;
        let count = keys.len();
        let mut removed = TxHashSet::new();
        let mut i: usize = 0;
        for entry in walk: entries
            invariant
                walk.seq() == all,
                i == walk.index(),
                keys@.len() == all.len(),
                keys@.len() == count,
                keys@ == old(self).keys@,
                all == old(self).entries@,
                old(self).wf(),
                self.insertions == old(self).insertions,
                self.keys@.len() == self.entries@.len(),
                ascending(self.keys@),
                removed.wf(),
                forall|x: int|
                    0 <= x < self.keys@.len() ==> is_kept(
                        keys@,
                        all,
                        block_index,
                        i as int,
                        #[trigger] self.keys@[x],
                        self.entries@[x],
                    ),
                forall|j: int|
                    0 <= j < i && all[j].context.tombstone_block > block_index
                        ==> self.keys@.contains(#[trigger] keys@[j]),
                forall|hash: TxHash|
                    removed@.contains(hash) <==> is_gone(keys@, all, block_index, i as int, hash),
        {
            let tx_hash = keys[i];
            let ghost kept_keys = self.keys@;
            let ghost kept_entries = self.entries@;
            let ghost gone = removed@;
            if entry.context.tombstone_block <= block_index {
                removed.insert(tx_hash);
                proof {
                    assert forall|x: int| 0 <= x < self.keys@.len() implies is_kept(
                        keys@,
                        all,
                        block_index,
                        i + 1,
                        #[trigger] self.keys@[x],
                        self.entries@[x],
                    ) by {
                        lemma_is_kept_later(keys@, all, block_index, i as int, self.keys@[x], self.entries@[x]);
                    }
                    assert forall|hash: TxHash|
                        removed@.contains(hash) <==> is_gone(
                            keys@,
                            all,
                            block_index,
                            i + 1,
                            hash,
                        ) by {
                        lemma_is_gone_step(keys@, all, block_index, i as int, hash);
                    }
                }
            } else {
                self.keys.push(tx_hash);
                self.entries.push(entry);
                proof {
                    assert forall|x: int| 0 <= x < self.keys@.len() implies is_kept(
                        keys@,
                        all,
                        block_index,
                        i + 1,
                        #[trigger] self.keys@[x],
                        self.entries@[x],
                    ) by {
                        if x < kept_keys.len() {
                            assert(self.keys@[x] == kept_keys[x] && self.entries@[x]
                                == kept_entries[x]);
                            lemma_is_kept_later(keys@, all, block_index, i as int, kept_keys[x], kept_entries[x]);
                        } else {
                            assert(keys@[i as int] == self.keys@[x] && all[i as int]
                                == self.entries@[x]);
                        }
                    }
                    assert forall|a: int, b: int| 0 <= a < b < self.keys@.len() implies crate::digest::hash_lt(
                        #[trigger] self.keys@[a],
                        #[trigger] self.keys@[b],
                    ) by {
                        if b == kept_keys.len() {
                            assert(is_kept(keys@, all, block_index, i as int, kept_keys[a], kept_entries[a]));
                            let j = choose|j: int|
                                0 <= j < i && j < keys@.len() && #[trigger] keys@[j] == kept_keys[a]
                                    && all[j] == kept_entries[a] && all[j].context.tombstone_block
                                    > block_index;
                            assert(crate::digest::hash_lt(keys@[j], keys@[i as int]));
                        } else {
                            assert(self.keys@[a] == kept_keys[a] && self.keys@[b] == kept_keys[b]);
                        }
                    }
                    assert forall|j: int|
                        0 <= j < i + 1 && all[j].context.tombstone_block
                            > block_index implies self.keys@.contains(#[trigger] keys@[j]) by {
                        if j < i {
                            let x = choose|x: int| 0 <= x < kept_keys.len() && kept_keys[x] == keys@[j];
                            assert(self.keys@[x] == keys@[j]);
                        } else {
                            assert(self.keys@[kept_keys.len() as int] == keys@[j]);
                        }
                    }
                    assert forall|hash: TxHash|
                        removed@.contains(hash) <==> is_gone(
                            keys@,
                            all,
                            block_index,
                            i + 1,
                            hash,
                        ) by {
                        lemma_is_gone_step(keys@, all, block_index, i as int, hash);
                    }
                }
            }
            i += 1;
        }
        proof {
            assert forall|x: int| 0 <= x < self.entries@.len() implies (
            #[trigger] self.entries@[x])@.context.tx_hash() == self.keys@[x]
                && self.entries@[x]@.context.consistent() by {
                assert(is_kept(keys@, all, block_index, i as int, self.keys@[x], self.entries@[x]));
                let j = choose|j: int|
                    0 <= j < i && j < keys@.len() && #[trigger] keys@[j] == self.keys@[x]
                        && all[j] == self.entries@[x] && all[j].context.tombstone_block
                        > block_index;
                assert(all[j]@.context.tx_hash() == keys@[j]);
            }
            lemma_swept_model(
                old(self).keys@,
                old(self).entries@,
                self.keys@,
                self.entries@,
                block_index,
            );
            assert forall|hash: TxHash|
                removed@.contains(hash) <==> expired(old(self)@, block_index).contains(hash) by {
                if removed@.contains(hash) {
                    let j = choose|j: int|
                        0 <= j < i && j < keys@.len() && #[trigger] keys@[j] == hash
                            && all[j].context.tombstone_block <= block_index;
                    lemma_model_at(keys@, all, j);
                }
                if expired(old(self)@, block_index).contains(hash) {
                    let j = place_of(keys@, hash);
                    lemma_model_at(keys@, all, j);
                    assert(is_gone(keys@, all, block_index, i as int, hash));
                }
            }
            assert(removed@ =~= expired(old(self)@, block_index));
        }
        removed
    }
}

/// `key` and `entry` stand side by side among the first `upto` transactions
/// of a cache, and the entry's tombstone height is above `block_index`.
spec fn is_kept(
    keys: Seq<TxHash>,
    entries: Seq<CacheEntry>,
    block_index: u64,
    upto: int,
    key: TxHash,
    entry: CacheEntry,
) -> bool {
    exists|j: int|
        0 <= j < upto && j < keys.len() && #[trigger] keys[j] == key && entries[j] == entry
            && entries[j].context.tombstone_block > block_index
}

/// `hash` is the digest of one of the first `upto` transactions of a cache,
/// one whose tombstone height is `block_index` or lower.
spec fn is_gone(
    keys: Seq<TxHash>,
    entries: Seq<CacheEntry>,
    block_index: u64,
    upto: int,
    hash: TxHash,
) -> bool {
    exists|j: int|
        0 <= j < upto && j < keys.len() && #[trigger] keys[j] == hash
            && entries[j].context.tombstone_block <= block_index
}

proof fn lemma_is_kept_later(
    keys: Seq<TxHash>,
    entries: Seq<CacheEntry>,
    block_index: u64,
    upto: int,
    key: TxHash,
    entry: CacheEntry,
)
    requires
        is_kept(keys, entries, block_index, upto, key, entry),
    ensures
        is_kept(keys, entries, block_index, upto + 1, key, entry),
{
    let j = choose|j: int|
        0 <= j < upto && j < keys.len() && #[trigger] keys[j] == key && entries[j] == entry
            && entries[j].context.tombstone_block > block_index;
    assert(0 <= j < upto + 1 && keys[j] == key);
}

proof fn lemma_is_gone_step(
    keys: Seq<TxHash>,
    entries: Seq<CacheEntry>,
    block_index: u64,
    upto: int,
    hash: TxHash,
)
    requires
        0 <= upto < keys.len(),
    ensures
        is_gone(keys, entries, block_index, upto + 1, hash) <==> (is_gone(
            keys,
            entries,
            block_index,
            upto,
            hash,
        ) || (keys[upto] == hash && entries[upto].context.tombstone_block <= block_index)),
{
    if is_gone(keys, entries, block_index, upto + 1, hash) {
        let j = choose|j: int|
            0 <= j < upto + 1 && j < keys.len() && #[trigger] keys[j] == hash
                && entries[j].context.tombstone_block <= block_index;
        if j < upto {
            assert(is_gone(keys, entries, block_index, upto, hash));
        }
    }
    if is_gone(keys, entries, block_index, upto, hash) {
        let j = choose|j: int|
            0 <= j < upto && j < keys.len() && #[trigger] keys[j] == hash
                && entries[j].context.tombstone_block <= block_index;
        assert(0 <= j < upto + 1 && keys[j] == hash);
    }
    if keys[upto] == hash && entries[upto].context.tombstone_block <= block_index {
        assert(0 <= upto < upto + 1 && keys[upto] == hash);
    }
}

/// What is left of a cache when exactly the transactions above the height
/// are kept, in their order, is the cache after a sweep at that height.
proof fn lemma_swept_model(
    keys: Seq<TxHash>,
    entries: Seq<CacheEntry>,
    kept_keys: Seq<TxHash>,
    kept_entries: Seq<CacheEntry>,
    block_index: u64,
)
    requires
        ascending(keys),
        keys.len() == entries.len(),
        ascending(kept_keys),
        kept_keys.len() == kept_entries.len(),
        forall|x: int|
            0 <= x < kept_keys.len() ==> is_kept(
                keys,
                entries,
                block_index,
                keys.len() as int,
                #[trigger] kept_keys[x],
                kept_entries[x],
            ),
        forall|j: int|
            0 <= j < keys.len() && entries[j].context.tombstone_block > block_index
                ==> kept_keys.contains(#[trigger] keys[j]),
    ensures
        model(kept_keys, kept_entries) == swept(model(keys, entries), block_index),
{
    let after = model(kept_keys, kept_entries);
    let before = swept(model(keys, entries), block_index);
    assert forall|hash: TxHash| after.contains_key(hash) implies before.contains_key(hash)
        && after[hash] == before[hash] by {
        let x = place_of(kept_keys, hash);
        lemma_model_at(kept_keys, kept_entries, x);
        assert(is_kept(keys, entries, block_index, keys.len() as int, kept_keys[x], kept_entries[x]));
        let j = choose|j: int|
            0 <= j < keys.len() && j < keys.len() && #[trigger] keys[j] == kept_keys[x]
                && entries[j] == kept_entries[x] && entries[j].context.tombstone_block
                > block_index;
        lemma_model_at(keys, entries, j);
    }
    assert forall|hash: TxHash| before.contains_key(hash) implies after.contains_key(hash) by {
        let j = place_of(keys, hash);
        lemma_model_at(keys, entries, j);
        assert(kept_keys.contains(keys[j]));
    }
    assert(after =~= before);
}

} // verus!
