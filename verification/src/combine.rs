//! The combiner: from a list of requested digests, the lowest digest of each
//! group of cached transactions that conflicts bind together.

use crate::cache::TxCache;
use crate::digest::{hash_lt, lemma_lex_asymmetric, lemma_lex_irreflexive, KeyImage, TxHash};
use crate::entry::{CacheEntry, EntryView};
use crate::hash_set::{ascending, lemma_ascending_distinct, TxHashSet};
use vstd::prelude::*;

verus! {

/// The candidates of a request: the requested digests that are cached.
/// Asking for a digest twice, or for one that is not cached, adds nothing.
pub open spec fn candidates(cache: Map<TxHash, EntryView>, requested: Seq<TxHash>) -> Set<TxHash> {
    Set::new(|hash: TxHash| requested.contains(hash) && cache.contains_key(hash))
}

/// The transactions cached under `a` and `b` declare a common input.
pub open spec fn conflict(cache: Map<TxHash, EntryView>, a: TxHash, b: TxHash) -> bool {
    exists|input: KeyImage|
        cache[a].context.key_images.contains(input) && cache[b].context.key_images.contains(
            input,
        )
}

/// `path` holds digests of `pool`, each in conflict with the next.
pub open spec fn is_chain(cache: Map<TxHash, EntryView>, pool: Set<TxHash>, path: Seq<TxHash>) -> bool {
    &&& path.len() > 0
    &&& forall|i: int| 0 <= i < path.len() ==> pool.contains(#[trigger] path[i])
    &&& forall|i: int|
        0 <= i < path.len() - 1 ==> conflict(cache, #[trigger] path[i], path[i + 1])
}

/// `a` and `b` belong to one conflict group of `pool`: a chain of conflicts
/// leads from one to the other.
pub open spec fn same_group(
    cache: Map<TxHash, EntryView>,
    pool: Set<TxHash>,
    a: TxHash,
    b: TxHash,
) -> bool {
    exists|path: Seq<TxHash>|
        is_chain(cache, pool, path) && #[trigger] path.first() == a && path.last() == b
}

/// `hash` is the lowest digest of its conflict group in `pool`.
pub open spec fn is_retained(cache: Map<TxHash, EntryView>, pool: Set<TxHash>, hash: TxHash) -> bool {
    &&& pool.contains(hash)
    &&& forall|other: TxHash| #[trigger] same_group(cache, pool, hash, other) ==> !hash_lt(other, hash)
}

/// `combined` is the combination of `requested`: the lowest digest of each
/// conflict group among the candidates, in ascending order.
pub open spec fn is_combination(
    cache: Map<TxHash, EntryView>,
    requested: Seq<TxHash>,
    combined: Seq<TxHash>,
) -> bool {
    &&& ascending(combined)
    &&& forall|hash: TxHash|
        combined.contains(hash) <==> is_retained(cache, candidates(cache, requested), hash)
}

/// Conflict does not depend on the order of the two transactions.
pub proof fn lemma_conflict_symmetric(cache: Map<TxHash, EntryView>, a: TxHash, b: TxHash)
    ensures
        conflict(cache, a, b) == conflict(cache, b, a),
{
    if conflict(cache, a, b) {
        let input = choose|input: KeyImage|
            cache[a].context.key_images.contains(input) && cache[b].context.key_images.contains(
                input,
            );
        assert(cache[b].context.key_images.contains(input) && cache[a].context.key_images.contains(
            input,
        ));
    }
    if conflict(cache, b, a) {
        let input = choose|input: KeyImage|
            cache[b].context.key_images.contains(input) && cache[a].context.key_images.contains(
                input,
            );
        assert(cache[a].context.key_images.contains(input) && cache[b].context.key_images.contains(
            input,
        ));
    }
}

/// Every digest of the pool is in its own group.
pub proof fn lemma_group_reflexive(cache: Map<TxHash, EntryView>, pool: Set<TxHash>, a: TxHash)
    requires
        pool.contains(a),
    ensures
        same_group(cache, pool, a, a),
{
    let path = seq![a];
    assert(is_chain(cache, pool, path) && path.first() == a && path.last() == a);
}

/// A digest that conflicts with a member of a group belongs to that group.
pub proof fn lemma_group_extends(
    cache: Map<TxHash, EntryView>,
    pool: Set<TxHash>,
    a: TxHash,
    b: TxHash,
    c: TxHash,
)
    requires
        pool.contains(a),
        conflict(cache, a, b),
        same_group(cache, pool, b, c),
    ensures
        same_group(cache, pool, a, c),
{
    let tail = choose|path: Seq<TxHash>|
        is_chain(cache, pool, path) && #[trigger] path.first() == b && path.last() == c;
    let path = seq![a] + tail;
    assert forall|i: int| 0 <= i < path.len() implies pool.contains(#[trigger] path[i]) by {
        if i > 0 {
            assert(path[i] == tail[i - 1]);
        }
    }
    assert forall|i: int| 0 <= i < path.len() - 1 implies conflict(
        cache,
        #[trigger] path[i],
        path[i + 1],
    ) by {
        if i > 0 {
            assert(path[i] == tail[i - 1] && path[i + 1] == tail[i]);
        } else {
            assert(path[1] == tail[0]);
        }
    }
    assert(path.last() == tail.last());
    assert(is_chain(cache, pool, path) && path.first() == a && path.last() == c);
}

/// Belonging to one group does not depend on the order of the two digests.
pub proof fn lemma_group_symmetric(
    cache: Map<TxHash, EntryView>,
    pool: Set<TxHash>,
    a: TxHash,
    b: TxHash,
)
    requires
        same_group(cache, pool, a, b),
    ensures
        same_group(cache, pool, b, a),
{
    let path = choose|path: Seq<TxHash>|
        is_chain(cache, pool, path) && #[trigger] path.first() == a && path.last() == b;
    let back = Seq::new(path.len(), |i: int| path[path.len() - 1 - i]);
    assert forall|i: int| 0 <= i < back.len() - 1 implies conflict(
        cache,
        #[trigger] back[i],
        back[i + 1],
    ) by {
        let k = path.len() - 2 - i;
        assert(conflict(cache, path[k], path[k + 1]));
        lemma_conflict_symmetric(cache, path[k], path[k + 1]);
    }
    assert(is_chain(cache, pool, back) && back.first() == b && back.last() == a);
}

/// Two digests that are in one group with a third are in one group.
pub proof fn lemma_group_transitive(
    cache: Map<TxHash, EntryView>,
    pool: Set<TxHash>,
    a: TxHash,
    b: TxHash,
    c: TxHash,
)
    requires
        same_group(cache, pool, a, b),
        same_group(cache, pool, b, c),
    ensures
        same_group(cache, pool, a, c),
{
    let head = choose|path: Seq<TxHash>|
        is_chain(cache, pool, path) && #[trigger] path.first() == a && path.last() == b;
    let tail = choose|path: Seq<TxHash>|
        is_chain(cache, pool, path) && #[trigger] path.first() == b && path.last() == c;
    let path = head + tail.drop_first();
    assert forall|i: int| 0 <= i < path.len() implies pool.contains(#[trigger] path[i]) by {
        if i >= head.len() {
            assert(path[i] == tail[i - head.len() + 1]);
        }
    }
    assert forall|i: int| 0 <= i < path.len() - 1 implies conflict(
        cache,
        #[trigger] path[i],
        path[i + 1],
    ) by {
        if i < head.len() - 1 {
            assert(path[i] == head[i] && path[i + 1] == head[i + 1]);
        } else {
            let k = i - head.len() + 1;
            assert(path[i] == tail[k]);
            assert(path[i + 1] == tail[k + 1]);
            assert(conflict(cache, tail[k], tail[k + 1]));
        }
    }
    assert(path.first() == a);
    assert(path.last() == c) by {
        if tail.len() == 1 {
            assert(path =~= head);
        } else {
            assert(path.last() == tail[tail.len() - 1]);
        }
    }
    assert(is_chain(cache, pool, path) && path.first() == a && path.last() == c);
}

/// Whether the two transactions declare a common input.
pub fn share_input(a: &CacheEntry, b: &CacheEntry) -> (shared: bool)
    ensures
        shared == exists|input: KeyImage|
            a@.context.key_images.contains(input) && b@.context.key_images.contains(input),
{
    let left = &a.context.key_images;
    let right = &b.context.key_images;
    let mut i: usize = 0;
    while i < left.len()
        invariant
            i <= left@.len(),
            left@ == a@.context.key_images,
            right@ == b@.context.key_images,
            forall|x: int, y: int|
                0 <= x < i && 0 <= y < right@.len() ==> #[trigger] left@[x] != #[trigger] right@[y],
        decreases left@.len() - i,
    {
        let mut j: usize = 0;
        while j < right.len()
            invariant
                i < left@.len(),
                j <= right@.len(),
                left@ == a@.context.key_images,
                right@ == b@.context.key_images,
                forall|y: int| 0 <= y < j ==> left@[i as int] != #[trigger] right@[y],
            decreases right@.len() - j,
        {
            if left[i].same(&right[j]) {
                assert(left@.contains(left@[i as int]) && right@.contains(left@[i as int]));
                return true;
            }
            j += 1;
        }
        i += 1;
    }
    proof {
        assert forall|input: KeyImage|
            !(left@.contains(input) && right@.contains(input)) by {
            if left@.contains(input) && right@.contains(input) {
                let x = choose|x: int| 0 <= x < left@.len() && left@[x] == input;
                let y = choose|y: int| 0 <= y < right@.len() && right@[y] == input;
                assert(left@[x] != right@[y]);
            }
        }
    }
    false
}

/// The cached digests among `tx_hashes`, each once, in ascending order.
fn gather(cache: &TxCache, tx_hashes: &[TxHash]) -> (pool: Vec<TxHash>)
    requires
        cache.wf(),
    ensures
        ascending(pool@),
        pool@.to_set() == candidates(cache@, tx_hashes@),
{
    let mut found = TxHashSet::new();
    let mut i: usize = 0;
    while i < tx_hashes.len()
        invariant
            cache.wf(),
            found.wf(),
            i <= tx_hashes@.len(),
            found@ == candidates(cache@, tx_hashes@.take(i as int)),
        decreases tx_hashes@.len() - i,
    {
        let ghost before = tx_hashes@.take(i as int);
        let ghost after = tx_hashes@.take(i + 1);
        proof {
            assert(after =~= before.push(tx_hashes@[i as int]));
            assert forall|hash: TxHash|
                after.contains(hash) <==> (before.contains(hash) || hash == tx_hashes@[i as int]) by {
                if after.contains(hash) {
                    let k = choose|k: int| 0 <= k < after.len() && after[k] == hash;
                    if k < i {
                        assert(before[k] == hash);
                    }
                }
                if before.contains(hash) {
                    let k = choose|k: int| 0 <= k < before.len() && before[k] == hash;
                    assert(after[k] == hash);
                }
                if hash == tx_hashes@[i as int] {
                    assert(after[i as int] == hash);
                }
            }
        }
        if cache.contains(&tx_hashes[i]) {
            found.insert(tx_hashes[i]);
            assert(found@ =~= candidates(cache@, after));
        } else {
            assert(found@ =~= candidates(cache@, after));
        }
        i += 1;
    }
    proof {
        assert(tx_hashes@.take(tx_hashes@.len() as int) =~= tx_hashes@);
        found.lemma_in_order();
    }
    found.into_vec()
}

/// Sum of the labels.
spec fn total(labels: Seq<usize>) -> int
    decreases labels.len(),
{
    if labels.len() == 0 {
        0
    } else {
        total(labels.drop_last()) + labels.last()
    }
}

proof fn lemma_total_lowered(labels: Seq<usize>, i: int, label: usize)
    requires
        0 <= i < labels.len(),
        label <= labels[i],
    ensures
        total(labels.update(i, label)) == total(labels) - labels[i] + label,
        total(labels) >= 0,
    decreases labels.len(),
{
    let lowered = labels.update(i, label);
    if i == labels.len() - 1 {
        assert(lowered.drop_last() =~= labels.drop_last());
        lemma_total_bounds(labels.drop_last());
    } else {
        assert(lowered.drop_last() =~= labels.drop_last().update(i, label));
        lemma_total_lowered(labels.drop_last(), i, label);
    }
}

proof fn lemma_total_bounds(labels: Seq<usize>)
    ensures
        total(labels) >= 0,
    decreases labels.len(),
{
    if labels.len() > 0 {
        lemma_total_bounds(labels.drop_last());
    }
}

/// Each position is labelled with a position at or before it whose digest is
/// in the same group.
spec fn labels_sound(cache: Map<TxHash, EntryView>, pool: Seq<TxHash>, labels: Seq<usize>) -> bool {
    &&& labels.len() == pool.len()
    &&& forall|i: int|
        0 <= i < pool.len() ==> (#[trigger] labels[i]) <= i && same_group(
            cache,
            pool.to_set(),
            pool[i],
            pool[labels[i] as int],
        )
}

/// Positions whose digests conflict carry one label.
spec fn labels_stable(cache: Map<TxHash, EntryView>, pool: Seq<TxHash>, labels: Seq<usize>) -> bool {
    forall|i: int, j: int|
        0 <= i < j < pool.len() && conflict(cache, pool[i], pool[j]) ==> #[trigger] labels[i]
            == #[trigger] labels[j]
}

/// One of the first `upto` positions holds `hash` and carries its own label.
spec fn is_kept(pool: Seq<TxHash>, labels: Seq<usize>, upto: int, hash: TxHash) -> bool {
    exists|a: int| 0 <= a < upto && a < pool.len() && #[trigger] pool[a] == hash && labels[a] == a
}

/// Along a chain the label does not change, once the labels are stable.
proof fn lemma_chain_keeps_label(
    cache: Map<TxHash, EntryView>,
    pool: Seq<TxHash>,
    labels: Seq<usize>,
    path: Seq<TxHash>,
    upto: int,
) -> (ends: (int, int))
    requires
        ascending(pool),
        labels.len() == pool.len(),
        labels_stable(cache, pool, labels),
        is_chain(cache, pool.to_set(), path),
        0 <= upto < path.len(),
    ensures
        0 <= ends.0 < pool.len(),
        0 <= ends.1 < pool.len(),
        pool[ends.0] == path[0],
        pool[ends.1] == path[upto],
        labels[ends.0] == labels[ends.1],
    decreases upto,
{
    assert(pool.to_set().contains(path[upto]));
    let here = choose|k: int| 0 <= k < pool.len() && pool[k] == path[upto];
    if upto == 0 {
        (here, here)
    } else {
        let before = lemma_chain_keeps_label(cache, pool, labels, path, upto - 1);
        assert(conflict(cache, path[upto - 1], path[upto - 1 + 1]));
        lemma_conflict_symmetric(cache, pool[before.1], pool[here]);
        (before.0, here)
    }
}

/// The entries of the pool's digests, position by position.
fn fetch<'a>(cache: &'a TxCache, pool: &Vec<TxHash>) -> (entries: Vec<&'a CacheEntry>)
    requires
        cache.wf(),
        forall|i: int| 0 <= i < pool@.len() ==> cache@.contains_key(#[trigger] pool@[i]),
    ensures
        entries@.len() == pool@.len(),
        forall|i: int| 0 <= i < pool@.len() ==> (#[trigger] entries@[i])@ == cache@[pool@[i]],
{
    let mut entries: Vec<&CacheEntry> = Vec::new();
    let mut i: usize = 0;
    while i < pool.len()
        invariant
            cache.wf(),
            forall|k: int| 0 <= k < pool@.len() ==> cache@.contains_key(#[trigger] pool@[k]),
            i <= pool@.len(),
            entries@.len() == i,
            forall|k: int| 0 <= k < i ==> (#[trigger] entries@[k])@ == cache@[pool@[k]],
        decreases pool@.len() - i,
    {
        match cache.get(&pool[i]) {
            Some(entry) => entries.push(entry),
            None => vstd::pervasive::unreached(),
        }
        i += 1;
    }
    entries
}

/// One round over all pairs of positions: where the digests of a pair
/// conflict and their labels differ, both get the lower label. Returns
/// whether any label changed.
fn relax(
    cache: Ghost<Map<TxHash, EntryView>>,
    pool: &Vec<TxHash>,
    entries: &Vec<&CacheEntry>,
    labels: &mut Vec<usize>,
) -> (changed: bool)
    requires
        ascending(pool@),
        entries@.len() == pool@.len(),
        forall|i: int| 0 <= i < pool@.len() ==> (#[trigger] entries@[i])@ == cache@[pool@[i]],
        labels_sound(cache@, pool@, old(labels)@),
    ensures
        labels_sound(cache@, pool@, final(labels)@),
        changed ==> total(final(labels)@) < total(old(labels)@),
        !changed ==> final(labels)@ == old(labels)@ && labels_stable(
            cache@,
            pool@,
            final(labels)@,
        ),
{
    let mut changed = false;
    let mut i: usize = 0;
    while i < pool.len()
        invariant
            ascending(pool@),
            entries@.len() == pool@.len(),
            forall|k: int| 0 <= k < pool@.len() ==> (#[trigger] entries@[k])@ == cache@[pool@[k]],
            labels_sound(cache@, pool@, labels@),
            i <= pool@.len(),
            changed ==> total(labels@) < total(old(labels)@),
            !changed ==> labels@ == old(labels)@,
            !changed ==> forall|a: int, b: int|
                0 <= a < b < pool@.len() && a < i && conflict(cache@, pool@[a], pool@[b])
                    ==> #[trigger] labels@[a] == #[trigger] labels@[b],
        decreases pool@.len() - i,
    {
        let mut j: usize = i + 1;
        while j < pool.len()
            invariant
                ascending(pool@),
                entries@.len() == pool@.len(),
                forall|k: int|
                    0 <= k < pool@.len() ==> (#[trigger] entries@[k])@ == cache@[pool@[k]],
                labels_sound(cache@, pool@, labels@),
                i < j <= pool@.len(),
                changed ==> total(labels@) < total(old(labels)@),
                !changed ==> labels@ == old(labels)@,
                !changed ==> forall|a: int, b: int|
                    0 <= a < b < pool@.len() && a < i && conflict(cache@, pool@[a], pool@[b])
                        ==> #[trigger] labels@[a] == #[trigger] labels@[b],
                !changed ==> forall|b: int|
                    i < b < j && conflict(cache@, pool@[i as int], pool@[b]) ==> labels@[i as int]
                        == #[trigger] labels@[b],
            decreases pool@.len() - j,
        {
            if labels[i] != labels[j] && share_input(entries[i], entries[j]) {
                let low = if labels[i] < labels[j] {
                    labels[i]
                } else {
                    labels[j]
                };
                proof {
                    let group = pool@.to_set();
                    let hi = pool@[i as int];
                    let hj = pool@[j as int];
                    assert(entries@[i as int]@ == cache@[hi] && entries@[j as int]@ == cache@[hj]);
                    assert(conflict(cache@, hi, hj));
                    lemma_conflict_symmetric(cache@, hi, hj);
                    assert(group.contains(hi) && group.contains(hj));
                    lemma_group_extends(cache@, group, hi, hj, pool@[labels@[j as int] as int]);
                    lemma_group_extends(cache@, group, hj, hi, pool@[labels@[i as int] as int]);
                    lemma_total_lowered(labels@, i as int, low);
                    lemma_total_lowered(labels@.update(i as int, low), j as int, low);
                }
                labels.set(i, low);
                labels.set(j, low);
                changed = true;
            } else {
                assert(entries@[i as int]@ == cache@[pool@[i as int]] && entries@[j as int]@
                    == cache@[pool@[j as int]]);
            }
            j += 1;
        }
        i += 1;
    }
    changed
}

/// Labels every position of the pool with the lowest position of its group.
fn settle(cache: Ghost<Map<TxHash, EntryView>>, pool: &Vec<TxHash>, entries: &Vec<&CacheEntry>) -> (labels:
    Vec<usize>)
    requires
        ascending(pool@),
        entries@.len() == pool@.len(),
        forall|i: int| 0 <= i < pool@.len() ==> (#[trigger] entries@[i])@ == cache@[pool@[i]],
    ensures
        labels_sound(cache@, pool@, labels@),
        labels_stable(cache@, pool@, labels@),
{
    let mut labels: Vec<usize> = Vec::new();
    let mut i: usize = 0;
    while i < pool.len()
        invariant
            i <= pool@.len(),
            labels@.len() == i,
            forall|k: int| 0 <= k < i ==> #[trigger] labels@[k] == k,
        decreases pool@.len() - i,
    {
        labels.push(i);
        i += 1;
    }
    proof {
        assert forall|k: int| 0 <= k < pool@.len() implies (#[trigger] labels@[k]) <= k
            && same_group(cache@, pool@.to_set(), pool@[k], pool@[labels@[k] as int]) by {
            assert(pool@.to_set().contains(pool@[k]));
            lemma_group_reflexive(cache@, pool@.to_set(), pool@[k]);
        }
        lemma_total_bounds(labels@);
    }
    let mut changed = true;
    while changed
        invariant
            ascending(pool@),
            entries@.len() == pool@.len(),
            forall|k: int| 0 <= k < pool@.len() ==> (#[trigger] entries@[k])@ == cache@[pool@[k]],
            labels_sound(cache@, pool@, labels@),
            total(labels@) >= 0,
            !changed ==> labels_stable(cache@, pool@, labels@),
        decreases total(labels@) + if changed { 1int } else { 0int },
    {
        changed = relax(cache, pool, entries, &mut labels);
        proof {
            lemma_total_bounds(labels@);
        }
    }
    labels
}

/// Combines the transactions that `tx_hashes` ask for. The requested digests
/// that are cached fall into conflict groups, two transactions being bound
/// together where they declare a common input; of each group the lowest
/// digest is kept. What is kept comes out in ascending order, whatever the
/// order of the request.
pub fn combine(cache: &TxCache, tx_hashes: &[TxHash]) -> (combined: Vec<TxHash>)
    requires
        cache.wf(),
    ensures
        is_combination(cache@, tx_hashes@, combined@),
{
    let pool = gather(cache, tx_hashes);
    proof {
        assert forall|i: int| 0 <= i < pool@.len() implies cache@.contains_key(
            #[trigger] pool@[i],
        ) by {
            assert(pool@.to_set().contains(pool@[i]));
        }
    }
    let entries = fetch(cache, &pool);
    let labels = settle(Ghost(cache@), &pool, &entries);
    let mut combined: Vec<TxHash> = Vec::new();
    let mut i: usize = 0;
    while i < pool.len()
        invariant
            i <= pool@.len(),
            ascending(pool@),
            labels@.len() == pool@.len(),
            ascending(combined@),
            forall|x: int|
                0 <= x < combined@.len() ==> is_kept(pool@, labels@, i as int, #[trigger] combined@[x]),
            forall|a: int|
                0 <= a < i && labels@[a] == a ==> combined@.contains(#[trigger] pool@[a]),
        decreases pool@.len() - i,
    {
        if labels[i] == i {
            let ghost before = combined@;
            combined.push(pool[i]);
            proof {
                assert forall|x: int, y: int| 0 <= x < y < combined@.len() implies hash_lt(
                    #[trigger] combined@[x],
                    #[trigger] combined@[y],
                ) by {
                    if y == before.len() {
                        assert(is_kept(pool@, labels@, i as int, before[x]));
                        let a = choose|a: int|
                            0 <= a < i && a < pool@.len() && #[trigger] pool@[a] == before[x]
                                && labels@[a] == a;
                        assert(hash_lt(pool@[a], pool@[i as int]));
                    } else {
                        assert(combined@[x] == before[x] && combined@[y] == before[y]);
                    }
                }
                assert forall|x: int| 0 <= x < combined@.len() implies is_kept(
                    pool@,
                    labels@,
                    i + 1,
                    #[trigger] combined@[x],
                ) by {
                    if x < before.len() {
                        assert(is_kept(pool@, labels@, i as int, before[x]));
                        let a = choose|a: int|
                            0 <= a < i && a < pool@.len() && #[trigger] pool@[a] == before[x]
                                && labels@[a] == a;
                        assert(pool@[a] == combined@[x]);
                    } else {
                        assert(pool@[i as int] == combined@[x]);
                    }
                }
                assert forall|a: int| 0 <= a < i + 1 && labels@[a] == a implies combined@.contains(
                    #[trigger] pool@[a],
                ) by {
                    if a < i {
                        let x = choose|x: int| 0 <= x < before.len() && before[x] == pool@[a];
                        assert(combined@[x] == pool@[a]);
                    } else {
                        assert(combined@[before.len() as int] == pool@[a]);
                    }
                }
            }
        }
        i += 1;
    }
    proof {
        lemma_kept_are_lowest(cache@, pool@, labels@, combined@);
        assert(pool@.to_set() == candidates(cache@, tx_hashes@));
    }
    combined
}

/// The positions that carry their own label are those of the lowest digest
/// of each group.
proof fn lemma_kept_are_lowest(
    cache: Map<TxHash, EntryView>,
    pool: Seq<TxHash>,
    labels: Seq<usize>,
    combined: Seq<TxHash>,
)
    requires
        ascending(pool),
        labels_sound(cache, pool, labels),
        labels_stable(cache, pool, labels),
        forall|x: int|
            0 <= x < combined.len() ==> is_kept(pool, labels, pool.len() as int, #[trigger] combined[x]),
        forall|a: int| 0 <= a < pool.len() && labels[a] == a ==> combined.contains(#[trigger] pool[a]),
    ensures
        forall|hash: TxHash|
            combined.contains(hash) <==> is_retained(cache, pool.to_set(), hash),
{
    let group = pool.to_set();
    lemma_ascending_distinct(pool);
    assert forall|hash: TxHash| combined.contains(hash) implies is_retained(cache, group, hash) by {
        let x = choose|x: int| 0 <= x < combined.len() && combined[x] == hash;
        assert(is_kept(pool, labels, pool.len() as int, combined[x]));
        let a = choose|a: int|
            0 <= a < pool.len() && a < pool.len() && #[trigger] pool[a] == combined[x] && labels[a]
                == a;
        assert(group.contains(pool[a]));
        assert forall|other: TxHash| #[trigger]
            same_group(cache, group, hash, other) implies !hash_lt(other, hash) by {
            let path = choose|path: Seq<TxHash>|
                is_chain(cache, group, path) && #[trigger] path.first() == hash && path.last()
                    == other;
            let ends = lemma_chain_keeps_label(cache, pool, labels, path, path.len() - 1);
            assert(ends.0 == a);
            assert(labels[ends.1] <= ends.1);
            if a < ends.1 {
                assert(hash_lt(pool[a], pool[ends.1]));
                lemma_lex_asymmetric(hash.0@, other.0@);
            } else {
                lemma_lex_irreflexive(hash.0@);
            }
        }
    }
    assert forall|hash: TxHash| is_retained(cache, group, hash) implies combined.contains(hash) by {
        let a = choose|a: int| 0 <= a < pool.len() && pool[a] == hash;
        if labels[a] != a {
            let low = labels[a] as int;
            assert(same_group(cache, group, pool[a], pool[low]));
            assert(hash_lt(pool[low], pool[a]));
        }
        assert(combined.contains(pool[a]));
    }
}

} // verus!
