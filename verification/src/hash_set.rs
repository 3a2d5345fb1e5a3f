//! A set of digests, held in ascending order.

use crate::digest::{hash_lt, lemma_hash_bytes, lemma_lex_asymmetric, lemma_lex_irreflexive,
    lemma_lex_total, lemma_lex_transitive, TxHash};
use vstd::prelude::*;

verus! {

/// Every digest of `s` is lower than each one after it.
pub open spec fn ascending(s: Seq<TxHash>) -> bool {
    forall|i: int, j: int| 0 <= i < j < s.len() ==> hash_lt(#[trigger] s[i], #[trigger] s[j])
}

/// `pos` is where `target` stands in `s`, or where it would have to be put:
/// everything before `pos` is lower than `target` and everything from `pos`
/// on is not.
pub open spec fn is_slot(s: Seq<TxHash>, target: TxHash, pos: int) -> bool {
    &&& 0 <= pos <= s.len()
    &&& forall|i: int| 0 <= i < pos ==> hash_lt(#[trigger] s[i], target)
    &&& forall|i: int| pos <= i < s.len() ==> !hash_lt(#[trigger] s[i], target)
}

/// The digests of an ascending sequence are pairwise different.
pub proof fn lemma_ascending_distinct(s: Seq<TxHash>)
    requires
        ascending(s),
    ensures
        s.no_duplicates(),
{
    assert forall|i: int, j: int| 0 <= i < s.len() && 0 <= j < s.len() && i != j implies s[i]
        != s[j] by {
        lemma_lex_irreflexive(s[i].0@);
        if i < j {
            assert(hash_lt(s[i], s[j]));
        } else {
            assert(hash_lt(s[j], s[i]));
        }
    }
}

/// In an ascending sequence a digest is present exactly when it stands at its
/// slot.
pub proof fn lemma_slot_decides(s: Seq<TxHash>, target: TxHash, pos: int)
    requires
        ascending(s),
        is_slot(s, target, pos),
    ensures
        s.contains(target) <==> (pos < s.len() && s[pos] == target),
        pos < s.len() && s[pos] != target ==> hash_lt(target, s[pos]),
{
    lemma_lex_irreflexive(target.0@);
    if s.contains(target) {
        let i = choose|i: int| 0 <= i < s.len() && s[i] == target;
        if i < pos {
            assert(hash_lt(s[i], target));
        } else if i > pos {
            assert(hash_lt(s[pos], s[i]));
        }
    }
    if pos < s.len() && s[pos] != target {
        lemma_hash_bytes(s[pos], target);
        lemma_hash_bytes(target, s[pos]);
        lemma_lex_total(s[pos].0@, target.0@);
    }
}

/// Putting a missing digest at its slot keeps the order and adds just that
/// digest.
pub proof fn lemma_insert_at_slot(s: Seq<TxHash>, target: TxHash, pos: int)
    requires
        ascending(s),
        is_slot(s, target, pos),
        !s.contains(target),
    ensures
        ascending(s.insert(pos, target)),
        s.insert(pos, target).to_set() == s.to_set().insert(target),
        forall|h: TxHash| s.insert(pos, target).contains(h) <==> (h == target || s.contains(h)),
{
    let t = s.insert(pos, target);
    lemma_slot_decides(s, target, pos);
    assert forall|i: int, j: int| 0 <= i < j < t.len() implies hash_lt(
        #[trigger] t[i],
        #[trigger] t[j],
    ) by {
        if j < pos {
            assert(t[i] == s[i] && t[j] == s[j]);
        } else if j == pos {
            assert(t[i] == s[i]);
        } else if i < pos {
            assert(t[i] == s[i] && t[j] == s[j - 1]);
            if j - 1 == pos {
                lemma_lex_transitive(s[i].0@, target.0@, s[pos].0@);
            } else {
                assert(hash_lt(s[i], s[j - 1]));
            }
        } else if i == pos {
            assert(t[j] == s[j - 1]);
            if j - 1 > pos {
                assert(hash_lt(s[pos], s[j - 1]));
                lemma_lex_transitive(target.0@, s[pos].0@, s[j - 1].0@);
            }
        } else {
            assert(t[i] == s[i - 1] && t[j] == s[j - 1]);
        }
    }
    assert forall|h: TxHash| t.contains(h) <==> (h == target || s.contains(h)) by {
        if t.contains(h) {
            let i = choose|i: int| 0 <= i < t.len() && t[i] == h;
            if i < pos {
                assert(s[i] == h);
            } else if i > pos {
                assert(s[i - 1] == h);
            }
        }
        if h == target {
            assert(t[pos] == h);
        } else if s.contains(h) {
            let i = choose|i: int| 0 <= i < s.len() && s[i] == h;
            if i < pos {
                assert(t[i] == h);
            } else {
                assert(t[i + 1] == h);
            }
        }
    }
    assert(t.to_set() =~= s.to_set().insert(target));
}

/// Two ascending sequences that hold the same digests are the same sequence.
pub proof fn lemma_ascending_unique(s: Seq<TxHash>, t: Seq<TxHash>)
    requires
        ascending(s),
        ascending(t),
        forall|h: TxHash| s.contains(h) <==> t.contains(h),
    ensures
        s == t,
    decreases s.len(),
{
    if s.len() == 0 {
        if t.len() > 0 {
            assert(t.contains(t[0]));
        }
        assert(s =~= t);
    } else if t.len() == 0 {
        assert(s.contains(s[0]));
    } else {
        // The lowest digest of each stands first, so the two first digests agree.
        assert(s.contains(s[0]));
        assert(t.contains(t[0]));
        let i = choose|i: int| 0 <= i < t.len() && t[i] == s[0];
        let j = choose|j: int| 0 <= j < s.len() && s[j] == t[0];
        if i > 0 && j > 0 {
            assert(hash_lt(t[0], t[i]));
            assert(hash_lt(s[0], s[j]));
            lemma_lex_asymmetric(s[0].0@, t[0].0@);
        }
        if i > 0 && j == 0 {
            lemma_ascending_distinct(t);
        }
        assert(s[0] == t[0]);
        let s1 = s.drop_first();
        let t1 = t.drop_first();
        lemma_ascending_distinct(s);
        lemma_ascending_distinct(t);
        assert forall|h: TxHash| s1.contains(h) <==> t1.contains(h) by {
            if s1.contains(h) {
                let a = choose|a: int| 0 <= a < s1.len() && s1[a] == h;
                assert(s[a + 1] == h);
                assert(s.contains(h));
                let b = choose|b: int| 0 <= b < t.len() && t[b] == h;
                assert(b != 0);
                assert(t1[b - 1] == h);
            }
            if t1.contains(h) {
                let a = choose|a: int| 0 <= a < t1.len() && t1[a] == h;
                assert(t[a + 1] == h);
                assert(t.contains(h));
                let b = choose|b: int| 0 <= b < s.len() && s[b] == h;
                assert(b != 0);
                assert(s1[b - 1] == h);
            }
        }
        assert(ascending(s1)) by {
            assert forall|a: int, b: int| 0 <= a < b < s1.len() implies hash_lt(
                #[trigger] s1[a],
                #[trigger] s1[b],
            ) by {
                assert(hash_lt(s[a + 1], s[b + 1]));
            }
        }
        assert(ascending(t1)) by {
            assert forall|a: int, b: int| 0 <= a < b < t1.len() implies hash_lt(
                #[trigger] t1[a],
                #[trigger] t1[b],
            ) by {
                assert(hash_lt(t[a + 1], t[b + 1]));
            }
        }
        lemma_ascending_unique(s1, t1);
        assert(s =~= seq![s[0]] + s1);
        assert(t =~= seq![t[0]] + t1);
    }
}

/// Finds the slot of `target` in an ascending vector by bisection. The result
/// is `Ok` with the position of `target` where it is present, and `Err` with
/// the position at which it would have to be put where it is not.
pub fn search(keys: &Vec<TxHash>, target: &TxHash) -> (slot: Result<usize, usize>)
    requires
        ascending(keys@),
    ensures
        match slot {
            Ok(pos) => pos < keys@.len() && keys@[pos as int] == *target && is_slot(
                keys@,
                *target,
                pos as int,
            ),
            Err(pos) => !keys@.contains(*target) && is_slot(keys@, *target, pos as int),
        },
{
    let mut low: usize = 0;
    let mut high: usize = keys.len();
    while low < high
        invariant
            ascending(keys@),
            low <= high <= keys@.len(),
            forall|i: int| 0 <= i < low ==> hash_lt(#[trigger] keys@[i], *target),
            forall|i: int| high <= i < keys@.len() ==> !hash_lt(#[trigger] keys@[i], *target),
        decreases high - low,
    {
        let mid = low + (high - low) / 2;
        if keys[mid].is_below(target) {
            proof {
                assert forall|i: int| 0 <= i < mid + 1 implies hash_lt(
                    #[trigger] keys@[i],
                    *target,
                ) by {
                    if i < mid {
                        assert(hash_lt(keys@[i], keys@[mid as int]));
                        lemma_lex_transitive(keys@[i].0@, keys@[mid as int].0@, target.0@);
                    }
                }
            }
            low = mid + 1;
        } else {
            proof {
                assert forall|i: int| mid <= i < keys@.len() implies !hash_lt(
                    #[trigger] keys@[i],
                    *target,
                ) by {
                    if i > mid && hash_lt(keys@[i], *target) {
                        assert(hash_lt(keys@[mid as int], keys@[i]));
                        lemma_lex_transitive(keys@[mid as int].0@, keys@[i].0@, target.0@);
                    }
                }
            }
            high = mid;
        }
    }
    proof {
        lemma_slot_decides(keys@, *target, low as int);
    }
    if low < keys.len() && keys[low].same(target) {
        Ok(low)
    } else {
        Err(low)
    }
}

/// A finite set of digests. Its members can be walked in ascending order.
pub struct TxHashSet {
    hashes: Vec<TxHash>,
}

impl View for TxHashSet {
    type V = Set<TxHash>;

    closed spec fn view(&self) -> Set<TxHash> {
        self.hashes@.to_set()
    }
}

impl TxHashSet {
    /// The members are held in ascending order.
    pub closed spec fn wf(&self) -> bool {
        ascending(self.hashes@)
    }

    /// The members, from the lowest digest to the highest.
    pub closed spec fn in_order(&self) -> Seq<TxHash> {
        self.hashes@
    }

    /// The ordered walk holds each member once, in ascending order, and
    /// nothing else.
    pub proof fn lemma_in_order(&self)
        requires
            self.wf(),
        ensures
            ascending(self.in_order()),
            self.in_order().no_duplicates(),
            self.in_order().to_set() == self@,
            self@.finite(),
            self@.len() == self.in_order().len(),
            forall|h: TxHash| self@.contains(h) <==> self.in_order().contains(h),
    {
        lemma_ascending_distinct(self.hashes@);
        self.hashes@.unique_seq_to_set();
        vstd::seq_lib::seq_to_set_is_finite(self.hashes@);
    }

    /// The empty set.
    pub fn new() -> (set: TxHashSet)
        ensures
            set.wf(),
            set@ == Set::<TxHash>::empty(),
            set.in_order() == Seq::<TxHash>::empty(),
    {
        let set = TxHashSet { hashes: Vec::new() };
        assert(set.hashes@.to_set() =~= Set::<TxHash>::empty());
        set
    }

    /// Number of members.
    pub fn len(&self) -> (n: usize)
        requires
            self.wf(),
        ensures
            n == self@.len(),
            n == self.in_order().len(),
    {
        proof {
            self.lemma_in_order();
        }
        self.hashes.len()
    }

    /// Whether the set has no member.
    pub fn is_empty(&self) -> (empty: bool)
        requires
            self.wf(),
        ensures
            empty == (self@ == Set::<TxHash>::empty()),
    {
        proof {
            self.lemma_in_order();
            if self.hashes@.len() > 0 {
                assert(self.hashes@.contains(self.hashes@[0]));
            } else {
                assert(self@ =~= Set::<TxHash>::empty());
            }
        }
        self.hashes.len() == 0
    }

    /// Whether `hash` is a member.
    pub fn contains(&self, hash: &TxHash) -> (present: bool)
        requires
            self.wf(),
        ensures
            present == self@.contains(*hash),
    {
        search(&self.hashes, hash).is_ok()
    }

    /// Adds `hash`. Returns whether it was new to the set.
    pub fn insert(&mut self, hash: TxHash) -> (added: bool)
        requires
            old(self).wf(),
        ensures
            final(self).wf(),
            final(self)@ == old(self)@.insert(hash),
            added == !old(self)@.contains(hash),
    {
        match search(&self.hashes, &hash) {
            Ok(_) => {
                assert(self@ =~= self@.insert(hash));
                false
            },
            Err(pos) => {
                proof {
                    lemma_insert_at_slot(self.hashes@, hash, pos as int);
                }
                self.hashes.insert(pos, hash);
                true
            },
        }
    }

    /// The member at place `i` of the ordered walk.
    pub fn get(&self, i: usize) -> (hash: TxHash)
        requires
            self.wf(),
            i < self.in_order().len(),
        ensures
            hash == self.in_order()[i as int],
    {
        self.hashes[i]
    }

    /// The members as a vector, from the lowest digest to the highest.
    pub fn into_vec(self) -> (hashes: Vec<TxHash>)
        requires
            self.wf(),
        ensures
            hashes@ == self.in_order(),
    {
        self.hashes
    }
}

} // verus!
