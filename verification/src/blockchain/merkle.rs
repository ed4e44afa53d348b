//! Merkle trees over transaction hashes: the root, inclusion proofs and their
//! verification.
use vstd::prelude::*;
use vstd::utf8::encode_utf8;
use crate::blockchain::hash::{sha256, sha256_spec, zero_bytes, Hash256};
use crate::blockchain::transaction::{serialized_text, tx_views, Transaction, TxView};

verus! {

/// The hash of two nodes: the SHA-256 of their bytes, left then right.
pub open spec fn pair_hash(left: Seq<u8>, right: Seq<u8>) -> Seq<u8> {
    sha256_spec(left + right)
}

/// The hash of a transaction, a leaf of the tree.
pub open spec fn leaf_hash(t: TxView) -> Seq<u8> {
    sha256_spec(encode_utf8(serialized_text(t)))
}

pub open spec fn leaves(txs: Seq<TxView>) -> Seq<Seq<u8>> {
    txs.map_values(|t: TxView| leaf_hash(t))
}

/// A level with its last node repeated when it has an odd number of nodes.
pub open spec fn padded(level: Seq<Seq<u8>>) -> Seq<Seq<u8>> {
    if level.len() % 2 != 0 { level.push(level.last()) } else { level }
}

/// The level above: the hash of each pair.
pub open spec fn next_level(level: Seq<Seq<u8>>) -> Seq<Seq<u8>> {
    let p = padded(level);
    Seq::new(p.len() / 2, |i: int| pair_hash(p[2 * i], p[2 * i + 1]))
}

/// The root above a non-empty level.
pub open spec fn root_of(level: Seq<Seq<u8>>) -> Seq<u8>
    decreases level.len(),
{
    if level.len() <= 1 {
        level[0]
    } else {
        root_of(next_level(level))
    }
}

/// The root of a block's transactions: zero bytes when there is none.
pub open spec fn merkle_root(txs: Seq<TxView>) -> Seq<u8> {
    if txs.len() == 0 { zero_bytes() } else { root_of(leaves(txs)) }
}

/// The siblings on the path from node `idx` up to the root.
pub open spec fn proof_of(level: Seq<Seq<u8>>, idx: nat) -> Seq<Seq<u8>>
    decreases level.len(),
{
    if level.len() <= 1 {
        Seq::empty()
    } else {
        let p = padded(level);
        let sibling = if idx % 2 == 0 { p[idx + 1int] } else { p[idx - 1] };
        seq![sibling] + proof_of(next_level(level), idx / 2)
    }
}

/// The node a proof climbs to from a leaf at position `idx`.
pub open spec fn climb(current: Seq<u8>, proof: Seq<Seq<u8>>, idx: nat) -> Seq<u8>
    decreases proof.len(),
{
    if proof.len() == 0 {
        current
    } else {
        let up = if idx % 2 == 0 { pair_hash(current, proof[0]) } else { pair_hash(proof[0], current) };
        climb(up, proof.drop_first(), idx / 2)
    }
}

pub open spec fn hash_views(v: Seq<Hash256>) -> Seq<Seq<u8>> {
    v.map_values(|h: Hash256| h@)
}

proof fn lemma_next_level_len(level: Seq<Seq<u8>>)
    requires
        level.len() >= 2,
    ensures
        next_level(level).len() < level.len(),
        next_level(level).len() >= 1,
        next_level(level).len() == (level.len() + 1) / 2,
{
}

/// The number of levels above `n` leaves: none for one leaf, else one more
/// than above the half (rounded up).
pub open spec fn tree_depth(n: nat) -> nat
    decreases n,
{
    if n <= 1 { 0 } else { 1 + tree_depth(((n + 1) / 2) as nat) }
}

/// A proof has one sibling per level above the leaves, whichever leaf it is for.
pub proof fn lemma_proof_len(level: Seq<Seq<u8>>, idx: nat)
    ensures
        proof_of(level, idx).len() == tree_depth(level.len()),
    decreases level.len(),
{
    if level.len() > 1 {
        lemma_next_level_len(level);
        lemma_proof_len(next_level(level), idx / 2);
    }
}

/// Climbing from a node along its proof reaches the root of its level.
pub proof fn lemma_climb_reaches_root(level: Seq<Seq<u8>>, idx: nat)
    requires
        idx < level.len(),
    ensures
        climb(level[idx as int], proof_of(level, idx), idx) == root_of(level),
    decreases level.len(),
{
    if level.len() > 1 {
        lemma_next_level_len(level);
        let p = padded(level);
        let n = next_level(level);
        let sibling = if idx % 2 == 0 { p[idx + 1int] } else { p[idx - 1] };
        let rest = proof_of(n, idx / 2);
        let pr = proof_of(level, idx);
        assert(pr == seq![sibling] + rest);
        assert(pr[0] == sibling);
        assert(pr.drop_first() =~= rest);
        assert(p[idx as int] == level[idx as int]);
        if idx % 2 == 0 {
            assert(n[(idx / 2) as int] == pair_hash(p[idx as int], p[idx + 1int]));
        } else {
            assert(n[(idx / 2) as int] == pair_hash(p[idx - 1], p[idx as int]));
        }
        lemma_climb_reaches_root(n, idx / 2);
    }
}

/// A proof for a transaction's position checks out against the root of the
/// transactions it was made from.
pub proof fn lemma_proof_verifies(txs: Seq<TxView>, idx: nat)
    requires
        idx < txs.len(),
    ensures
        climb(leaves(txs)[idx as int], proof_of(leaves(txs), idx), idx) == merkle_root(txs),
{
    lemma_climb_reaches_root(leaves(txs), idx);
}

pub struct MerkleTree;

impl MerkleTree {
    fn hash_pair(left: Hash256, right: Hash256) -> (r: Hash256)
        ensures
            r@ == pair_hash(left@, right@),
    {
        let mut data: Vec<u8> = Vec::new();
        let l = left.to_vec();
        let rr = right.to_vec();
        let mut i: usize = 0;
        proof {
            left.lemma_len();
            right.lemma_len();
        }
        while i < 32
            invariant
                i <= 32,
                l@ == left@,
                l@.len() == 32,
                data@ == l@.take(i as int),
            decreases 32 - i,
        {
            data.push(l[i]);
            assert(l@.take(i + 1) =~= l@.take(i as int).push(l@[i as int]));
            i += 1;
        }
        let mut j: usize = 0;
        while j < 32
            invariant
                j <= 32,
                rr@ == right@,
                rr@.len() == 32,
                data@ == left@ + rr@.take(j as int),
            decreases 32 - j,
        {
            data.push(rr[j]);
            assert(left@ + rr@.take(j + 1) =~= (left@ + rr@.take(j as int)).push(rr@[j as int]));
            j += 1;
        }
        assert(l@.take(32) =~= left@);
        assert(rr@.take(32) =~= right@);
        Hash256::new(sha256(data.as_slice()))
    }

    fn leaf_hashes(transactions: &[Transaction]) -> (r: Vec<Hash256>)
        ensures
            hash_views(r@) == leaves(tx_views(transactions@)),
            r@.len() == transactions@.len(),
    {
        let mut out: Vec<Hash256> = Vec::new();
        let mut i: usize = 0;
        while i < transactions.len()
            invariant
                i <= transactions@.len(),
                hash_views(out@) == leaves(tx_views(transactions@)).take(i as int),
            decreases transactions@.len() - i,
        {
            let h = transactions[i].hash();
            let ghost before = out@;
            out.push(h);
            assert(hash_views(out@) =~= hash_views(before).push(h@));
            assert(leaves(tx_views(transactions@)).take(i + 1) =~= leaves(tx_views(transactions@)).take(i as int).push(leaves(tx_views(transactions@))[i as int]));
            i += 1;
        }
        assert(leaves(tx_views(transactions@)).take(transactions@.len() as int) =~= leaves(tx_views(transactions@)));
        out
    }

    fn pad(hashes: &mut Vec<Hash256>)
        requires
            old(hashes)@.len() >= 1,
        ensures
            hash_views(final(hashes)@) == padded(hash_views(old(hashes)@)),
    {
        if hashes.len() % 2 != 0 {
            let last = hashes[hashes.len() - 1];
            let ghost before = hashes@;
            hashes.push(last);
            assert(hash_views(hashes@) =~= hash_views(before).push(hash_views(before).last()));
        }
    }

    fn next(hashes: &Vec<Hash256>) -> (r: Vec<Hash256>)
        requires
            hashes@.len() % 2 == 0,
        ensures
            hash_views(r@) == Seq::new(hash_views(hashes@).len() / 2, |i: int| pair_hash(hash_views(hashes@)[2 * i], hash_views(hashes@)[2 * i + 1])),
    {
        let ghost hv = hash_views(hashes@);
        let ghost target = Seq::new(hv.len() / 2, |i: int| pair_hash(hv[2 * i], hv[2 * i + 1]));
        let mut out: Vec<Hash256> = Vec::new();
        let mut k: usize = 0;
        while k < hashes.len() / 2
            invariant
                hashes@.len() % 2 == 0,
                k <= hashes@.len() / 2,
                hv == hash_views(hashes@),
                target == Seq::new(hv.len() / 2, |i: int| pair_hash(hv[2 * i], hv[2 * i + 1])),
                hash_views(out@) == target.take(k as int),
            decreases hashes@.len() / 2 - k,
        {
            let h = MerkleTree::hash_pair(hashes[2 * k], hashes[2 * k + 1]);
            let ghost before = out@;
            out.push(h);
            assert(hash_views(out@) =~= hash_views(before).push(h@));
            assert(target.take(k + 1) =~= target.take(k as int).push(target[k as int]));
            k += 1;
        }
        assert(target.take((hashes@.len() / 2) as int) =~= target);
        out
    }

    /// The root of the transactions' tree; zero when there is none.
    pub fn root(transactions: &[Transaction]) -> (r: Hash256)
        ensures
            r@ == merkle_root(tx_views(transactions@)),
    {
        if transactions.len() == 0 {
            return Hash256::zero();
        }
        let mut hashes = MerkleTree::leaf_hashes(transactions);
        let ghost start = hash_views(hashes@);
        while hashes.len() > 1
            invariant
                hashes@.len() >= 1,
                start.len() >= 1,
                root_of(hash_views(hashes@)) == root_of(start),
            decreases hashes@.len(),
        {
            let ghost level = hash_views(hashes@);
            proof {
                lemma_next_level_len(level);
            }
            MerkleTree::pad(&mut hashes);
            let next = MerkleTree::next(&hashes);
            assert(hash_views(next@) =~= next_level(level));
            hashes = next;
        }
        hashes[0]
    }

    /// Whether the transactions' root is the given hash.
    pub fn verify(transactions: &[Transaction], root: &Hash256) -> (r: bool)
        ensures
            r == (merkle_root(tx_views(transactions@)) == root@),
    {
        MerkleTree::root(transactions).same_as(root)
    }

    /// The siblings from the transaction at `index` up to the root; `None` when
    /// there is no transaction there.
    pub fn inclusion_proof(transactions: &[Transaction], index: usize) -> (r: Option<Vec<Hash256>>)
        ensures
            index >= transactions@.len() ==> r is None,
            index < transactions@.len() ==> (r matches Some(p)
                && hash_views(p@) == proof_of(leaves(tx_views(transactions@)), index as nat)),
    {
        if transactions.len() == 0 || index >= transactions.len() {
            return None;
        }
        let mut path: Vec<Hash256> = Vec::new();
        let mut idx = index;
        let mut hashes = MerkleTree::leaf_hashes(transactions);
        let ghost start = hash_views(hashes@);
        while hashes.len() > 1
            invariant
                hashes@.len() >= 1,
                idx < hashes@.len(),
                hash_views(path@) + proof_of(hash_views(hashes@), idx as nat) == proof_of(start, index as nat),
            decreases hashes@.len(),
        {
            let ghost level = hash_views(hashes@);
            proof {
                lemma_next_level_len(level);
            }
            MerkleTree::pad(&mut hashes);
            let sibling = if idx % 2 == 0 { hashes[idx + 1] } else { hashes[idx - 1] };
            let ghost before = path@;
            path.push(sibling);
            let next = MerkleTree::next(&hashes);
            assert(hash_views(next@) =~= next_level(level));
            proof {
                let rest = proof_of(next_level(level), (idx / 2) as nat);
                assert(proof_of(level, idx as nat) == seq![sibling@] + rest);
                assert(hash_views(path@) =~= hash_views(before).push(sibling@));
                assert(hash_views(before) + (seq![sibling@] + rest) =~= hash_views(path@) + rest);
            }
            idx = idx / 2;
            hashes = next;
        }
        assert(hash_views(path@) + Seq::<Seq<u8>>::empty() =~= hash_views(path@));
        Some(path)
    }

    /// Whether climbing from a transaction hash along the proof reaches the root.
    pub fn verify_proof(tx_hash: Hash256, proof: &[Hash256], index: usize, expected_root: Hash256) -> (r: bool)
        ensures
            r == (climb(tx_hash@, hash_views(proof@), index as nat) == expected_root@),
    {
        let mut current = tx_hash;
        let mut idx = index;
        let mut k: usize = 0;
        assert(hash_views(proof@).skip(0) =~= hash_views(proof@));
        while k < proof.len()
            invariant
                k <= proof@.len(),
                climb(current@, hash_views(proof@).skip(k as int), idx as nat) == climb(tx_hash@, hash_views(proof@), index as nat),
            decreases proof@.len() - k,
        {
            let sibling = proof[k];
            let ghost rest = hash_views(proof@).skip(k as int);
            assert(rest[0] == sibling@);
            assert(rest.drop_first() =~= hash_views(proof@).skip(k + 1));
            current = if idx % 2 == 0 { MerkleTree::hash_pair(current, sibling) } else { MerkleTree::hash_pair(sibling, current) };
            idx = idx / 2;
            k += 1;
        }
        assert(hash_views(proof@).skip(proof@.len() as int) =~= Seq::<Seq<u8>>::empty());
        current.same_as(&expected_root)
    }
}

} // verus!
