//! Proof of work on a block: checking it, and searching for a nonce.
use vstd::prelude::*;
use crate::blockchain::block::Block;
use crate::blockchain::block_header::header_hash;
use crate::blockchain::consensus::difficulty::Difficulty;
use crate::blockchain::hash::{be_value, limbs_value, target_value, Hash256};

verus! {

pub struct PoW {
    bits: u32,
}

/// Whether a header hash meets the target of `bits`.
pub open spec fn meets(hash: Seq<u8>, bits: u32) -> bool {
    be_value(hash) <= target_value(bits)
}

impl PoW {
    pub closed spec fn spec_bits(&self) -> u32 {
        self.bits
    }

    pub fn new(bits: u32) -> (r: Self)
        ensures
            r.spec_bits() == bits,
    {
        PoW { bits }
    }

    pub fn bits(&self) -> (r: u32)
        ensures
            r == self.spec_bits(),
    {
        self.bits
    }

    /// The target, as four limbs, least significant first.
    pub fn target(&self) -> (r: [u64; 4])
        ensures
            limbs_value(r) == target_value(self.spec_bits()),
    {
        Difficulty::target(self.bits)
    }

    pub fn verify_hash(&self, hash: &Hash256) -> (r: bool)
        ensures
            r == meets(hash@, self.spec_bits()),
    {
        Difficulty::verify_hash(*hash, self.bits)
    }

    /// Whether the block's header hash meets the target.
    pub fn verify_block(&self, block: &Block) -> (r: bool)
        ensures
            r == meets(header_hash(block@.0), self.spec_bits()),
    {
        let hash = block.header.calculate_hash();
        hash.same_as(&block.hash()) && self.verify_hash(&hash)
    }

    /// Tries nonces from zero up and stops at the first whose header hash
    /// meets the target, leaving it in the block; `false` when no nonce does.
    pub fn mine(&self, block: &mut Block) -> (r: bool)
        ensures
            final(block)@.1 == old(block)@.1,
            final(block)@.0.0 == old(block)@.0.0,
            final(block)@.0.1 == old(block)@.0.1,
            final(block)@.0.2 == old(block)@.0.2,
            final(block)@.0.3 == old(block)@.0.3,
            final(block)@.0.4 == old(block)@.0.4,
            r ==> meets(header_hash(final(block)@.0), self.spec_bits()),
            r ==> forall|n: u64| n < final(block)@.0.5 ==> !#[trigger] meets(
                header_hash((old(block)@.0.0, old(block)@.0.1, old(block)@.0.2, old(block)@.0.3, old(block)@.0.4, n)),
                self.spec_bits(),
            ),
            !r ==> forall|n: u64| !#[trigger] meets(
                header_hash((old(block)@.0.0, old(block)@.0.1, old(block)@.0.2, old(block)@.0.3, old(block)@.0.4, n)),
                self.spec_bits(),
            ),
    {
        let ghost h = old(block)@.0;
        let mut nonce: u64 = 0;
        loop
            invariant
                h == old(block)@.0,
                block@.1 == old(block)@.1,
                block@.0.0 == h.0 && block@.0.1 == h.1 && block@.0.2 == h.2 && block@.0.3 == h.3 && block@.0.4 == h.4,
                forall|n: u64| n < nonce ==> !#[trigger] meets(header_hash((h.0, h.1, h.2, h.3, h.4, n)), self.spec_bits()),
            decreases u64::MAX - nonce,
        {
            block.set_nonce(nonce);
            let hash = block.header.calculate_hash();
            if self.verify_hash(&hash) {
                return true;
            }
            if nonce == u64::MAX {
                assert forall|n: u64| !#[trigger] meets(header_hash((h.0, h.1, h.2, h.3, h.4, n)), self.spec_bits()) by {
                    if n == u64::MAX {
                        assert(block@.0 == (h.0, h.1, h.2, h.3, h.4, n));
                    }
                }
                return false;
            }
            nonce += 1;
        }
    }
}

} // verus!
