//! Binary Merkle-root construction over an ordered sequence of 32-byte
//! digests.  Adjacent leaves are paired left to right; an odd level
//! duplicates its last digest as its own pair partner; the empty set has the
//! all-zero digest as its defined root.

use vstd::prelude::*;

use crate::bytes::concat_bytes;
use crate::hashing::{hash_leaf, sha256_of, zero_digest, zero_digest_spec};

verus! {

/// The views of a sequence of byte vectors.
pub open spec fn digests_of(s: Seq<Vec<u8>>) -> Seq<Seq<u8>> {
    s.map_values(|v: Vec<u8>| v@)
}

/// An interior node commits to the concatenation of its two children.
pub open spec fn node_hash(left: Seq<u8>, right: Seq<u8>) -> Seq<u8> {
    sha256_of(left + right)
}

/// One level up the tree: adjacent digests paired left to right, the last
/// digest of an odd level paired with itself.
pub open spec fn merkle_level(leaves: Seq<Seq<u8>>) -> Seq<Seq<u8>> {
    Seq::new(
        (leaves.len() + 1) / 2,
        |i: int|
            if 2 * i + 1 < leaves.len() {
                node_hash(leaves[2 * i], leaves[2 * i + 1])
            } else {
                node_hash(leaves[2 * i], leaves[2 * i])
            },
    )
}

/// The Merkle root of an ordered sequence of digests.
pub open spec fn merkle_root_spec(leaves: Seq<Seq<u8>>) -> Seq<u8>
    decreases leaves.len(),
{
    if leaves.len() == 0 {
        zero_digest_spec()
    } else if leaves.len() == 1 {
        leaves[0]
    } else {
        merkle_root_spec(merkle_level(leaves))
    }
}

/// The root of the empty leaf set is the all-zero digest.
pub proof fn lemma_merkle_root_empty()
    ensures
        merkle_root_spec(Seq::<Seq<u8>>::empty()) == zero_digest_spec(),
{
}

/// The root of a single leaf is that leaf.
pub proof fn lemma_merkle_root_single(a: Seq<u8>)
    ensures
        merkle_root_spec(seq![a]) == a,
{
}

/// The root of two leaves is the hash of their concatenation.
pub proof fn lemma_merkle_root_pair(a: Seq<u8>, b: Seq<u8>)
    ensures
        merkle_root_spec(seq![a, b]) == sha256_of(a + b),
{
    assert(merkle_level(seq![a, b]) =~= seq![node_hash(a, b)]);
    assert(merkle_root_spec(seq![node_hash(a, b)]) == node_hash(a, b));
}

/// The root of three leaves duplicates the odd leaf as its own partner.
pub proof fn lemma_merkle_root_odd_triple(a: Seq<u8>, b: Seq<u8>, c: Seq<u8>)
    ensures
        merkle_root_spec(seq![a, b, c]) == sha256_of(sha256_of(a + b) + sha256_of(c + c)),
{
    assert(merkle_level(seq![a, b, c]) =~= seq![node_hash(a, b), node_hash(c, c)]);
    lemma_merkle_root_pair(node_hash(a, b), node_hash(c, c));
}

/// Build the Merkle root of the given ordered leaves.  The root depends only
/// on leaf order and values, so a batch is identified by its ordered leaf
/// set.
pub fn build_merkle_root(leaves: Vec<Vec<u8>>) -> (r: Vec<u8>)
    requires
        forall|i: int| 0 <= i < leaves@.len() ==> (#[trigger] leaves@[i])@.len() == 32,
    ensures
        r@ == merkle_root_spec(digests_of(leaves@)),
        r@.len() == 32,
{
    let ghost orig: Seq<Seq<u8>> = digests_of(leaves@);
    if leaves.len() == 0 {
        return zero_digest();
    }
    let mut cur = leaves;
    while cur.len() > 1
        invariant
            cur@.len() >= 1,
            forall|i: int| 0 <= i < cur@.len() ==> (#[trigger] cur@[i])@.len() == 32,
            merkle_root_spec(digests_of(cur@)) == merkle_root_spec(orig),
        decreases cur@.len(),
    {
        let ghost pre: Seq<Seq<u8>> = digests_of(cur@);
        let mut next: Vec<Vec<u8>> = Vec::new();
        let mut i: usize = 0;
        while i + 1 < cur.len()
            invariant
                cur@.len() >= 2,
                i % 2 == 0,
                i <= cur@.len(),
                pre == digests_of(cur@),
                forall|j: int| 0 <= j < cur@.len() ==> (#[trigger] cur@[j])@.len() == 32,
                forall|j: int| 0 <= j < next@.len() ==> (#[trigger] next@[j])@.len() == 32,
                i as int / 2 <= merkle_level(pre).len(),
                next@.len() == i as int / 2,
                digests_of(next@) =~= merkle_level(pre).take(i as int / 2),
            decreases cur@.len() - i,
        {
            let left = &cur[i];
            let right = &cur[i + 1];
            let buf = concat_bytes(left, right);
            let node = hash_leaf(&buf);
            next.push(node);
            proof {
                let k = i as int / 2;
                assert(2 * k == i as int);
                assert(k + 1 <= merkle_level(pre).len());
                assert(merkle_level(pre)[k] == node@);
                assert(digests_of(next@) =~= merkle_level(pre).take(k + 1));
            }
            i = i + 2;
        }
        if i < cur.len() {
            // odd level: the last digest is its own pair partner
            let last = &cur[i];
            let buf = concat_bytes(last, last);
            let node = hash_leaf(&buf);
            next.push(node);
            proof {
                let k = i as int / 2;
                assert(2 * k == i as int);
                assert(k + 1 == merkle_level(pre).len());
                assert(merkle_level(pre)[k] == node@);
                assert(digests_of(next@) =~= merkle_level(pre).take(k + 1));
            }
        }
        proof {
            assert(digests_of(next@) =~= merkle_level(pre));
        }
        cur = next;
    }
    proof {
        assert(merkle_root_spec(digests_of(cur@)) == digests_of(cur@)[0]);
        assert(digests_of(cur@)[0] == cur@[0]@);
    }
    let r = cur.pop().unwrap();
    r
}

} // verus!
