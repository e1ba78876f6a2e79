//! The Merkle root of an ordered list of transactions.
use vstd::prelude::*;
use crate::encoding::push_u256;
use crate::hashing::{digest_hash, zero_hash};
use crate::types::{tx_hash, txs_view, Transaction, TxModel};

verus! {

/// A commitment to an ordered list of transactions.
#[derive(Clone, Copy, Debug, PartialEq, Eq, Structural)]
pub struct MerkleRoot(pub crate::hashing::Hash);

/// The hash of two nodes: the digest of their little-endian bytes, left then right.
pub open spec fn pair_hash(a: crate::hashing::Hash, b: crate::hashing::Hash) -> crate::hashing::Hash {
    digest_hash(a.le_bytes() + b.le_bytes())
}

/// One level up: adjacent nodes paired left to right, an odd last node paired with itself.
pub open spec fn next_level(s: Seq<crate::hashing::Hash>) -> Seq<crate::hashing::Hash> {
    Seq::new(
        ((s.len() + 1) / 2) as nat,
        |i: int| pair_hash(s[2 * i], if 2 * i + 1 < s.len() { s[2 * i + 1] } else { s[2 * i] }),
    )
}

/// The single node left after pairing level by level.
pub open spec fn reduce_levels(s: Seq<crate::hashing::Hash>) -> crate::hashing::Hash
    decreases s.len(),
{
    if s.len() <= 1 {
        s[0]
    } else {
        reduce_levels(next_level(s))
    }
}

/// The Merkle root of transactions: the zero hash for none, else the reduction
/// of their hashes.
pub open spec fn merkle_root_of(txs: Seq<TxModel>) -> MerkleRoot {
    if txs.len() == 0 {
        MerkleRoot(zero_hash())
    } else {
        MerkleRoot(reduce_levels(txs.map_values(|t: TxModel| tx_hash(t))))
    }
}

/// Hashes a pair of nodes.
fn hash_pair(a: &crate::hashing::Hash, b: &crate::hashing::Hash) -> (r: crate::hashing::Hash)
    ensures
        r == pair_hash(*a, *b),
{
    let mut buf: Vec<u8> = Vec::new();
    push_u256(&mut buf, &a.0);
    push_u256(&mut buf, &b.0);
    assert(buf@ =~= a.le_bytes() + b.le_bytes());
    crate::hashing::Hash::hash(&buf)
}

/// Computes the level above `level`.
fn pair_level(level: &Vec<crate::hashing::Hash>) -> (r: Vec<crate::hashing::Hash>)
    ensures
        r@ == next_level(level@),
{
    let n = level.len();
    let m = n / 2 + n % 2;
    let mut r: Vec<crate::hashing::Hash> = Vec::new();
    let mut k: usize = 0;
    while k < m
        invariant
            n == level@.len(),
            m == (n + 1) / 2,
            k <= m,
            r@.len() == k,
            forall|j: int| 0 <= j < k ==> r@[j] == #[trigger] next_level(level@)[j],
        decreases m - k,
    {
        let i = 2 * k;
        let a = level[i];
        let b = if i + 1 < n {
            level[i + 1]
        } else {
            level[i]
        };
        r.push(hash_pair(&a, &b));
        k = k + 1;
    }
    assert(r@ =~= next_level(level@));
    r
}

impl MerkleRoot {
    /// The Merkle root of `transactions`.
    pub fn calculate(transactions: &Vec<Transaction>) -> (r: MerkleRoot)
        ensures
            r == merkle_root_of(txs_view(transactions@)),
    {
        if transactions.len() == 0 {
            return MerkleRoot(crate::hashing::Hash::zero());
        }
        let ghost txs = txs_view(transactions@);
        let ghost hs = txs.map_values(|t: TxModel| tx_hash(t));
        let mut level: Vec<crate::hashing::Hash> = Vec::new();
        let mut i: usize = 0;
        while i < transactions.len()
            invariant
                i <= transactions@.len(),
                hs.len() == transactions@.len(),
                forall|k: int| 0 <= k < hs.len() ==> #[trigger] hs[k] == tx_hash(transactions@[k]@),
                level@.len() == i,
                forall|k: int| 0 <= k < i ==> #[trigger] level@[k] == hs[k],
            decreases transactions@.len() - i,
        {
            let h = transactions[i].hash();
            level.push(h);
            i = i + 1;
        }
        assert(level@ =~= txs.map_values(|t: TxModel| tx_hash(t)));
        while level.len() > 1
            invariant
                level@.len() >= 1,
                reduce_levels(level@) == reduce_levels(txs.map_values(|t: TxModel| tx_hash(t))),
            decreases level@.len(),
        {
            level = pair_level(&level);
        }
        MerkleRoot(level[0])
    }
}

/// No transactions give the zero hash as root.
pub proof fn lemma_merkle_empty()
    ensures
        merkle_root_of(Seq::empty()) == MerkleRoot(zero_hash()),
{
}

/// One transaction's root is that transaction's hash.
pub proof fn lemma_merkle_single(t: TxModel)
    ensures
        merkle_root_of(seq![t]) == MerkleRoot(tx_hash(t)),
{
    let hs = seq![t].map_values(|t: TxModel| tx_hash(t));
    assert(hs.len() == 1);
}

/// On an odd level the last node is paired with itself.
pub proof fn lemma_next_level_odd(s: Seq<crate::hashing::Hash>)
    requires
        s.len() % 2 == 1,
    ensures
        next_level(s).len() == (s.len() + 1) / 2,
        next_level(s).last() == pair_hash(s.last(), s.last()),
{
}

/// An odd number (three or more) of transactions has the root of the same list
/// with its last transaction repeated: the odd last hash is duplicated before pairing.
pub proof fn lemma_merkle_odd_duplicates_last(txs: Seq<TxModel>)
    requires
        txs.len() % 2 == 1,
        txs.len() >= 3,
    ensures
        merkle_root_of(txs.push(txs.last())) == merkle_root_of(txs),
{
    let f = |t: TxModel| tx_hash(t);
    let hs = txs.map_values(f);
    let hs2 = txs.push(txs.last()).map_values(f);
    assert(hs2 =~= hs.push(hs.last()));
    assert(next_level(hs2) =~= next_level(hs));
}

} // verus!
