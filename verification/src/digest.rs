//! Thirty-two byte digests and their lexicographic order.
//!
//! The digest of a ciphertext is its SHA-256 hash, computed by the `sha2`
//! crate. What that crate returns is believed, not proved.

use sha2::{Digest, Sha256};
use vstd::prelude::*;

verus! {

/// Digest of an encrypted transaction. Two bit-identical ciphertexts have
/// the same digest.
#[derive(Clone, Copy, Debug, PartialEq, Eq, Hash)]
pub struct TxHash(pub [u8; 32]);

/// What `Sha256::digest` returns for a string of bytes: its SHA-256 hash.
pub uninterp spec fn sha256(data: Seq<u8>) -> [u8; 32];

/// Calls `Sha256::digest`. Believed: the thirty-two bytes that come back are
/// the SHA-256 hash of `data`, so the same bytes always give the same hash.
#[verifier::external_body]
fn sha256_of(data: &[u8]) -> (hash: [u8; 32])
    ensures
        hash == sha256(data@),
{
    Sha256::digest(data).into()
}

/// The digest of a ciphertext.
pub open spec fn digest_of(ciphertext: Seq<u8>) -> TxHash {
    TxHash(sha256(ciphertext))
}

/// Identity of a spendable input. A transaction spends each input it declares,
/// so two transactions that declare the same one cannot both be committed.
#[derive(Clone, Copy, Debug, PartialEq, Eq, Hash)]
pub struct KeyImage(pub [u8; 32]);

/// `a` comes before `b` in lexicographic order: at the first position where
/// they differ, `a` holds the smaller byte.
pub open spec fn lex_lt(a: Seq<u8>, b: Seq<u8>) -> bool {
    exists|k: int| is_first_difference(a, b, k) && a[k] < b[k]
}

/// `a` and `b` agree before position `k` and differ at `k`.
pub open spec fn is_first_difference(a: Seq<u8>, b: Seq<u8>, k: int) -> bool {
    &&& 0 <= k < a.len()
    &&& k < b.len()
    &&& a[k] != b[k]
    &&& forall|j: int| 0 <= j < k ==> a[j] == b[j]
}

/// The order of digests: `a` is the lower of the two.
pub open spec fn hash_lt(a: TxHash, b: TxHash) -> bool {
    lex_lt(a.0@, b.0@)
}

/// Two sequences of one length that differ have a first difference at or
/// after any position up to which they agree.
pub proof fn lemma_first_difference(a: Seq<u8>, b: Seq<u8>, from: int) -> (k: int)
    requires
        a.len() == b.len(),
        a != b,
        0 <= from <= a.len(),
        forall|j: int| 0 <= j < from ==> a[j] == b[j],
    ensures
        from <= k,
        is_first_difference(a, b, k),
    decreases a.len() - from,
{
    if from == a.len() {
        assert(a =~= b);
        from
    } else if a[from] != b[from] {
        from
    } else {
        lemma_first_difference(a, b, from + 1)
    }
}

/// No sequence comes before itself.
pub proof fn lemma_lex_irreflexive(a: Seq<u8>)
    ensures
        !lex_lt(a, a),
{
}

/// Of two sequences, at most one comes before the other.
pub proof fn lemma_lex_asymmetric(a: Seq<u8>, b: Seq<u8>)
    ensures
        !(lex_lt(a, b) && lex_lt(b, a)),
{
    if lex_lt(a, b) && lex_lt(b, a) {
        let k1 = choose|k: int| is_first_difference(a, b, k) && a[k] < b[k];
        let k2 = choose|k: int| is_first_difference(b, a, k) && b[k] < a[k];
        assert(k1 == k2) by {
            if k1 < k2 {
                assert(b[k1] == a[k1]);
            } else if k2 < k1 {
                assert(a[k2] == b[k2]);
            }
        }
    }
}

/// The order is transitive.
pub proof fn lemma_lex_transitive(a: Seq<u8>, b: Seq<u8>, c: Seq<u8>)
    requires
        lex_lt(a, b),
        lex_lt(b, c),
    ensures
        lex_lt(a, c),
{
    let k1 = choose|k: int| is_first_difference(a, b, k) && a[k] < b[k];
    let k2 = choose|k: int| is_first_difference(b, c, k) && b[k] < c[k];
    let k = if k1 <= k2 { k1 } else { k2 };
    assert(is_first_difference(a, c, k) && a[k] < c[k]) by {
        assert forall|j: int| 0 <= j < k implies a[j] == c[j] by {
            assert(a[j] == b[j]);
            assert(b[j] == c[j]);
        }
        if k1 < k2 {
            assert(b[k1] == c[k1]);
        } else if k2 < k1 {
            assert(a[k2] == b[k2]);
        }
    }
}

/// Two sequences of one length are equal, or one comes before the other.
pub proof fn lemma_lex_total(a: Seq<u8>, b: Seq<u8>)
    requires
        a.len() == b.len(),
    ensures
        a == b || lex_lt(a, b) || lex_lt(b, a),
{
    if a != b {
        let k = lemma_first_difference(a, b, 0);
        assert(is_first_difference(b, a, k));
    }
}

/// Two digests are equal exactly when their bytes are.
pub proof fn lemma_hash_bytes(a: TxHash, b: TxHash)
    ensures
        (a == b) <==> (a.0@ == b.0@),
        a.0@.len() == 32,
{
    if a.0@ == b.0@ {
        assert(a.0 =~= b.0);
    }
}

/// Position of the first byte at which `a` and `b` differ, or 32 if they are
/// equal.
pub fn first_difference(a: &[u8; 32], b: &[u8; 32]) -> (k: usize)
    ensures
        k <= 32,
        k == 32 <==> *a == *b,
        k < 32 ==> is_first_difference(a@, b@, k as int),
{
    let mut i: usize = 0;
    while i < 32
        invariant
            i <= 32,
            forall|j: int| 0 <= j < i ==> a@[j] == b@[j],
        decreases 32 - i,
    {
        if a[i] != b[i] {
            return i;
        }
        i += 1;
    }
    assert(*a =~= *b);
    i
}

impl TxHash {
    /// The digest of a ciphertext.
    pub fn of(ciphertext: &[u8]) -> (hash: TxHash)
        ensures
            hash == digest_of(ciphertext@),
    {
        TxHash(sha256_of(ciphertext))
    }

    /// The bytes of the digest.
    pub fn as_bytes(&self) -> (bytes: &[u8; 32])
        ensures
            *bytes == self.0,
    {
        &self.0
    }

    /// Whether this digest is the lower of the two.
    pub fn is_below(&self, other: &TxHash) -> (below: bool)
        ensures
            below == hash_lt(*self, *other),
    {
        let k = first_difference(&self.0, &other.0);
        if k == 32 {
            proof {
                lemma_lex_irreflexive(self.0@);
            }
            false
        } else {
            proof {
                if self.0[k as int] > other.0[k as int] {
                    assert(is_first_difference(other.0@, self.0@, k as int));
                    lemma_lex_asymmetric(self.0@, other.0@);
                }
            }
            self.0[k] < other.0[k]
        }
    }

    /// Whether the two digests are equal.
    pub fn same(&self, other: &TxHash) -> (same: bool)
        ensures
            same == (*self == *other),
    {
        first_difference(&self.0, &other.0) == 32
    }
}

impl KeyImage {
    /// Whether the two stand for the same input.
    pub fn same(&self, other: &KeyImage) -> (same: bool)
        ensures
            same == (*self == *other),
    {
        first_difference(&self.0, &other.0) == 32
    }
}

} // verus!
