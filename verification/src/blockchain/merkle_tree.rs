//! Merkle trees over transaction hashes.

use vstd::prelude::*;
use vstd::string::StringExecFns;

use crate::utils::hashing::{double_sha256, spec_double_sha256};

verus! {

/// The views of a list of byte vectors.
pub open spec fn hashes_model(s: Seq<Vec<u8>>) -> Seq<Seq<u8>> {
    s.map_values(|v: Vec<u8>| v@)
}

/// Parent `k` of a level: the double SHA-256 of the concatenation of its two
/// children, the last node being paired with itself when the level is odd.
pub open spec fn merkle_parent(level: Seq<Seq<u8>>, k: int) -> Seq<u8> {
    let right = if 2 * k + 1 < level.len() { 2 * k + 1 } else { 2 * k };
    spec_double_sha256(level[2 * k] + level[right])
}

/// The level above `level`.
pub open spec fn merkle_next_level(level: Seq<Seq<u8>>) -> Seq<Seq<u8>> {
    Seq::new(((level.len() + 1) / 2) as nat, |k: int| merkle_parent(level, k))
}

/// The Merkle root of a non-empty list of hashes.
pub open spec fn merkle_root_of(level: Seq<Seq<u8>>) -> Seq<u8>
    decreases level.len(),
{
    if level.len() <= 1 {
        level[0]
    } else {
        merkle_root_of(merkle_next_level(level))
    }
}

/// Law: the Merkle root of one hash is that hash.
pub proof fn lemma_merkle_root_single(a: Seq<u8>)
    ensures
        merkle_root_of(seq![a]) == a,
{
}

/// Law: the Merkle root of an even number of hashes, at least two, is the
/// root of the level above, whose node `k` is the double SHA-256 of hash
/// `2k` followed by hash `2k + 1`.
pub proof fn lemma_merkle_root_even(level: Seq<Seq<u8>>)
    requires
        level.len() >= 2,
        level.len() % 2 == 0,
    ensures
        merkle_root_of(level) == merkle_root_of(
            Seq::new(level.len() / 2, |k: int| spec_double_sha256(level[2 * k] + level[2 * k + 1])),
        ),
{
    let up = Seq::new(level.len() / 2, |k: int| spec_double_sha256(level[2 * k] + level[2 * k + 1]));
    assert(merkle_next_level(level) =~= up);
}

/// Law: the Merkle root of two hashes is the double SHA-256 of the first
/// followed by the second.
pub proof fn lemma_merkle_root_two(a: Seq<u8>, b: Seq<u8>)
    ensures
        merkle_root_of(seq![a, b]) == spec_double_sha256(a + b),
{
    lemma_merkle_root_even(seq![a, b]);
    let up = Seq::new(1, |k: int| spec_double_sha256(seq![a, b][2 * k] + seq![a, b][2 * k + 1]));
    assert(up =~= seq![spec_double_sha256(a + b)]);
    lemma_merkle_root_single(spec_double_sha256(a + b));
}

/// Law: the Merkle root of five hashes: the fifth is paired with itself on
/// the first level, and the node it gives with itself on the second.
pub proof fn lemma_merkle_root_five(a: Seq<u8>, b: Seq<u8>, c: Seq<u8>, d: Seq<u8>, e: Seq<u8>)
    ensures
        merkle_root_of(seq![a, b, c, d, e]) == spec_double_sha256(
            spec_double_sha256(spec_double_sha256(a + b) + spec_double_sha256(c + d))
                + spec_double_sha256(spec_double_sha256(e + e) + spec_double_sha256(e + e)),
        ),
{
    let h = |x: Seq<u8>, y: Seq<u8>| spec_double_sha256(x + y);
    let l0 = seq![a, b, c, d, e];
    let l1 = seq![h(a, b), h(c, d), h(e, e)];
    let l2 = seq![h(h(a, b), h(c, d)), h(h(e, e), h(e, e))];
    assert(merkle_next_level(l0) =~= l1);
    assert(merkle_next_level(l1) =~= l2);
    assert(merkle_root_of(l0) == merkle_root_of(l1));
    assert(merkle_root_of(l1) == merkle_root_of(l2));
    lemma_merkle_root_two(h(h(a, b), h(c, d)), h(h(e, e), h(e, e)));
}

/// Law: for an odd number of hashes, at least three, appending a copy of
/// the last hash leaves the Merkle root unchanged.
pub proof fn lemma_merkle_root_odd_duplicate(level: Seq<Seq<u8>>)
    requires
        level.len() >= 3,
        level.len() % 2 == 1,
    ensures
        merkle_root_of(level.push(level.last())) == merkle_root_of(level),
{
    let p = level.push(level.last());
    assert forall|k: int| 0 <= k < (level.len() + 1) / 2 implies #[trigger] merkle_parent(p, k)
        == merkle_parent(level, k) by {
        assert(p[2 * k] == level[2 * k]);
        if 2 * k + 1 < level.len() {
            assert(p[2 * k + 1] == level[2 * k + 1]);
        } else {
            assert(p[2 * k + 1] == level[2 * k]);
        }
    }
    assert(merkle_next_level(p) =~= merkle_next_level(level));
}

/// Represents a Merkle Tree used for hashing transactions.
pub struct MerkleTree {
    /// The Merkle root of the tree.
    root: Vec<u8>,
    /// The list of transaction hashes (leaf nodes).
    transactions: Vec<Vec<u8>>,
}

/// Mathematical model of a Merkle tree.
pub struct MerkleModel {
    pub root: Seq<u8>,
    pub transactions: Seq<Seq<u8>>,
}

impl View for MerkleTree {
    type V = MerkleModel;

    closed spec fn view(&self) -> MerkleModel {
        MerkleModel { root: self.root@, transactions: hashes_model(self.transactions@) }
    }
}

/// Copies a list of byte vectors.
fn copy_hashes(hashes: &[Vec<u8>]) -> (res: Vec<Vec<u8>>)
    ensures
        hashes_model(res@) == hashes_model(hashes@),
        res@.len() == hashes@.len(),
{
    let mut out: Vec<Vec<u8>> = Vec::new();
    let n = hashes.len();
    let mut i: usize = 0;
    while i < n
        invariant
            n == hashes@.len(),
            i <= n,
            out@.len() == i,
            forall|j: int| 0 <= j < i ==> #[trigger] out@[j]@ == hashes@[j]@,
        decreases n - i,
    {
        out.push(hashes[i].clone());
        i = i + 1;
    }
    assert(hashes_model(out@) =~= hashes_model(hashes@));
    out
}

/// Computes one level up.
fn next_level(current: &Vec<Vec<u8>>) -> (res: Vec<Vec<u8>>)
    requires
        current@.len() >= 1,
    ensures
        hashes_model(res@) == merkle_next_level(hashes_model(current@)),
        res@.len() == (current@.len() + 1) / 2,
        forall|j: int| 0 <= j < res@.len() ==> (#[trigger] res@[j])@.len() == 32,
{
    let ghost level = hashes_model(current@);
    let len = current.len();
    let half = len / 2 + len % 2;
    let mut next: Vec<Vec<u8>> = Vec::new();
    let mut k: usize = 0;
    while k < half
        invariant
            len == current@.len(),
            len >= 1,
            half == (len + 1) / 2,
            level == hashes_model(current@),
            k <= half,
            next@.len() == k,
            forall|j: int| 0 <= j < k ==> (#[trigger] next@[j])@ == merkle_parent(level, j),
            forall|j: int| 0 <= j < k ==> (#[trigger] next@[j])@.len() == 32,
        decreases half - k,
    {
        let i = 2 * k;
        let left = &current[i];
        let right = if i + 1 < len {
            &current[i + 1]
        } else {
            &current[i]
        };
        let mut combined: Vec<u8> = Vec::new();
        combined.extend_from_slice(left.as_slice());
        combined.extend_from_slice(right.as_slice());
        proof {
            let r = if 2 * k + 1 < len { 2 * k + 1 } else { 2 * k };
            assert(combined@ =~= level[2 * k] + level[r as int]);
        }
        let hash = double_sha256(combined.as_slice());
        next.push(hash);
        k = k + 1;
    }
    assert(hashes_model(next@) =~= merkle_next_level(level));
    next
}

impl MerkleTree {
    /// Constructs a new Merkle Tree from a list of transaction hashes. Fails
    /// exactly when the list is empty.
    pub fn new(transactions: &[Vec<u8>]) -> (res: Result<Self, String>)
        ensures
            transactions@.len() == 0 <==> res is Err,
            res matches Err(e) ==> e@ == "Cannot create a Merkle Tree with no transactions"@,
            res matches Ok(tree) ==> {
                &&& tree@.transactions == hashes_model(transactions@)
                &&& tree@.root == merkle_root_of(hashes_model(transactions@))
                &&& transactions@.len() >= 2 ==> tree@.root.len() == 32
            },
    {
        if transactions.len() == 0 {
            return Err(String::from_str("Cannot create a Merkle Tree with no transactions"));
        }
        let root = match MerkleTree::compute_root(transactions) {
            Ok(r) => r,
            Err(e) => {
                return Err(e);
            },
        };
        Ok(MerkleTree { root, transactions: copy_hashes(transactions) })
    }

    /// Returns the Merkle root of the tree.
    pub fn root(&self) -> (res: Vec<u8>)
        ensures
            res@ == self@.root,
    {
        self.root.clone()
    }

    /// Computes the Merkle root from a non-empty list of transaction hashes.
    fn compute_root(hashes: &[Vec<u8>]) -> (res: Result<Vec<u8>, String>)
        requires
            hashes@.len() >= 1,
        ensures
            res matches Ok(r) && r@ == merkle_root_of(hashes_model(hashes@)) && (hashes@.len() >= 2
                ==> r@.len() == 32),
    {
        let mut current_level = copy_hashes(hashes);
        let ghost all_hashed = false;
        while current_level.len() > 1
            invariant
                current_level@.len() >= 1,
                merkle_root_of(hashes_model(current_level@)) == merkle_root_of(hashes_model(hashes@)),
                hashes@.len() >= 2 ==> (all_hashed || current_level@.len() >= 2),
                all_hashed ==> forall|j: int|
                    0 <= j < current_level@.len() ==> (#[trigger] current_level@[j])@.len() == 32,
            decreases current_level@.len(),
        {
            let next = next_level(&current_level);
            proof {
                all_hashed = true;
            }
            current_level = next;
        }
        assert(hashes_model(current_level@)[0] == current_level@[0]@);
        Ok(current_level[0].clone())
    }
}

} // verus!
