//! The difficulty schedule: a target of `2^(256 - bits) - 1`, with `bits`
//! retargeted every 2016 blocks.
use vstd::prelude::*;
use crate::blockchain::block::{Block, BlockView};
use crate::blockchain::hash::{be_value, target_value, u256_le, u256_max_shr, Hash256};

verus! {

pub struct Difficulty;

/// Blocks between retargets.
pub const INTERVAL: u64 = 2016;

/// The intended time between blocks, in seconds.
pub const TARGET_BLOCK_TIME: u64 = 600;

/// The intended time for an interval of blocks, in seconds.
pub const TARGET_TIMESPAN: u64 = INTERVAL * TARGET_BLOCK_TIME;

pub open spec fn block_bits(b: BlockView) -> u32 {
    b.0.4
}

pub open spec fn block_time(b: BlockView) -> u64 {
    b.0.3
}

/// Whether the next block is a retarget: at least two blocks, and a length
/// that is a multiple of the interval.
pub open spec fn is_retarget(chain: Seq<BlockView>) -> bool {
    chain.len() >= 2 && chain.len() % (INTERVAL as nat) == 0
}

/// Time taken by the last interval of blocks.
pub open spec fn interval_time(chain: Seq<BlockView>) -> int {
    block_time(chain.last()) - block_time(chain[chain.len() - INTERVAL as int])
}

/// The chains on which the schedule is defined: at a retarget the last
/// interval does not run backwards in time, and the bits can still go up
/// when it was fast.
pub open spec fn schedule_defined(chain: Seq<BlockView>) -> bool {
    is_retarget(chain) ==> {
        &&& interval_time(chain) >= 0
        &&& (interval_time(chain) < TARGET_TIMESPAN / 2 ==> block_bits(chain.last()) < u32::MAX)
    }
}

/// The bits of the next block: 18 on a chain of fewer than two blocks; the
/// tip's bits between retargets; at a retarget one more when the interval
/// took under half the target timespan, one fewer (not below zero) when it
/// took over twice it, and the same otherwise.
pub open spec fn next_bits_spec(chain: Seq<BlockView>) -> u32 {
    if chain.len() < 2 {
        18
    } else if !is_retarget(chain) {
        block_bits(chain.last())
    } else {
        let bits = block_bits(chain.last());
        if interval_time(chain) < TARGET_TIMESPAN / 2 {
            (bits + 1) as u32
        } else if interval_time(chain) > TARGET_TIMESPAN * 2 {
            if bits == 0 { 0 } else { (bits - 1) as u32 }
        } else {
            bits
        }
    }
}

pub open spec fn block_views(chain: Seq<Block>) -> Seq<BlockView> {
    chain.map_values(|b: Block| b@)
}

impl Difficulty {
    /// The bits of the first block.
    pub fn genesis_bits() -> (r: u32)
        ensures
            r == 18,
    {
        18
    }

    /// Whether `next_bits` is defined on the chain.
    pub fn schedule_defined(chain: &[Block]) -> (r: bool)
        ensures
            r == schedule_defined(block_views(chain@)),
    {
        let ghost v = block_views(chain@);
        let n = chain.len();
        if n < 2 || (n as u64) % INTERVAL != 0 {
            return true;
        }
        let last = &chain[n - 1];
        let first = &chain[n - INTERVAL as usize];
        assert(v.last() == last@);
        assert(v[v.len() - INTERVAL as int] == first@);
        if last.header.timestamp < first.header.timestamp {
            return false;
        }
        let actual_time = last.header.timestamp - first.header.timestamp;
        !(actual_time < TARGET_TIMESPAN / 2 && last.header.bits == u32::MAX)
    }

    /// The bits of the next block on top of the chain.
    pub fn next_bits(chain: &[Block]) -> (r: u32)
        requires
            schedule_defined(block_views(chain@)),
        ensures
            r == next_bits_spec(block_views(chain@)),
    {
        let ghost v = block_views(chain@);
        let n = chain.len();
        if n < 2 {
            return Difficulty::genesis_bits();
        }
        assert(v.last() == chain@[n - 1]@);
        if (n as u64) % INTERVAL != 0 {
            return chain[n - 1].header.bits;
        }
        let last = &chain[n - 1];
        let first = &chain[n - INTERVAL as usize];
        assert(v[v.len() - INTERVAL as int] == first@);
        let actual_time = last.header.timestamp - first.header.timestamp;
        let mut bits = last.header.bits;
        if actual_time < TARGET_TIMESPAN / 2 {
            bits += 1;
        } else if actual_time > TARGET_TIMESPAN * 2 {
            bits = bits.saturating_sub(1);
        }
        bits
    }

    /// The tip's bits, or the genesis bits on an empty chain.
    pub fn current(chain: &[Block]) -> (r: u32)
        ensures
            chain@.len() == 0 ==> r == 18,
            chain@.len() > 0 ==> r == chain@.last()@.0.4,
    {
        if chain.len() == 0 {
            Difficulty::genesis_bits()
        } else {
            chain[chain.len() - 1].header.bits
        }
    }

    /// The target `U256::MAX >> bits`, as four limbs, least significant first.
    pub fn target(bits: u32) -> (r: [u64; 4])
        ensures
            crate::blockchain::hash::limbs_value(r) == target_value(bits),
    {
        u256_max_shr(bits)
    }

    /// Whether the hash, read as a big-endian number, is at most the target.
    pub fn verify_hash(hash: Hash256, bits: u32) -> (r: bool)
        ensures
            r == (be_value(hash@) <= target_value(bits)),
    {
        u256_le(hash.to_u256(), Difficulty::target(bits))
    }
}


/// The schedule: on a chain of fewer than two blocks the bits are 18;
/// between retargets the next block keeps the tip's bits; at a retarget
/// (a length that is a multiple of 2016) the bits go up by one when the last
/// 2016 blocks took less than half of 2016 * 600 seconds, down by one (but
/// not below zero) when they took more than twice that, and stay otherwise.
pub proof fn lemma_next_bits_schedule(chain: Seq<BlockView>)
    ensures
        chain.len() < 2 ==> next_bits_spec(chain) == 18,
        chain.len() >= 2 && chain.len() % 2016 != 0 ==> next_bits_spec(chain) == chain.last().0.4,
        chain.len() >= 2 && chain.len() % 2016 == 0 ==> ({
            let bits = chain.last().0.4;
            let took = chain.last().0.3 - chain[chain.len() - 2016].0.3;
            &&& took < 2016 * 600 / 2 && bits < u32::MAX ==> next_bits_spec(chain) == bits + 1
            &&& took > 2016 * 600 * 2 ==> next_bits_spec(chain) == if bits == 0 { 0 } else { bits - 1 }
            &&& 2016 * 600 / 2 <= took <= 2016 * 600 * 2 ==> next_bits_spec(chain) == bits
        }),
{
}

} // verus!
